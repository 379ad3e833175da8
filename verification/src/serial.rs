//! Decisions of the serial owner thread: read polling interval, reconnect
//! backoff, write-burst budget, line settings and USB port selection. The
//! thread itself, the device handle and port enumeration belong to the host
//! program.

use vstd::prelude::*;

use crate::config::{to_lowercase, unicode_lowercase, RealPortConfig, UsbSelector};
use crate::text::{concat_strs, hex_fixed, hex_fixed_chars, owned, str_eq, string_from_chars};

verus! {

/// Upper bound of the read polling interval, in milliseconds. Shutdown is
/// observed at least this often even when a very large read timeout is
/// configured.
pub const MAX_READ_POLL_TIMEOUT_MS: u64 = 100;

/// Shortest read polling interval, in milliseconds.
pub const MIN_READ_POLL_TIMEOUT_MS: u64 = 10;

/// Longest reconnect backoff, in milliseconds.
pub const MAX_BACKOFF_MS: u64 = 10_000;

/// Most writes taken from the queue in one burst before the device is read.
pub const MAX_WRITE_BURST: usize = 32;

/// Most bytes written in one burst before the device is read.
pub const MAX_WRITE_BURST_BYTES: usize = 256 * 1024;

/// The read polling interval for a configured read timeout, in milliseconds:
/// the configured value raised to 10 and capped at 100.
pub fn read_poll_timeout(configured_ms: u64) -> (r: u64)
    ensures
        r == if configured_ms < MIN_READ_POLL_TIMEOUT_MS {
            MIN_READ_POLL_TIMEOUT_MS
        } else if configured_ms > MAX_READ_POLL_TIMEOUT_MS {
            MAX_READ_POLL_TIMEOUT_MS
        } else {
            configured_ms
        },
        MIN_READ_POLL_TIMEOUT_MS <= r <= MAX_READ_POLL_TIMEOUT_MS,
{
    let raised = if configured_ms < MIN_READ_POLL_TIMEOUT_MS {
        MIN_READ_POLL_TIMEOUT_MS
    } else {
        configured_ms
    };
    if raised > MAX_READ_POLL_TIMEOUT_MS {
        MAX_READ_POLL_TIMEOUT_MS
    } else {
        raised
    }
}

/// How long to wait after a read returned no bytes, in milliseconds.
pub fn idle_wait_ms(read_timeout_ms: u64) -> (r: u64)
    ensures
        r == if read_timeout_ms < 20 { read_timeout_ms } else { 20 },
{
    if read_timeout_ms < 20 {
        read_timeout_ms
    } else {
        20
    }
}

/// The first reconnect backoff: the configured interval, at least 50 ms.
pub fn initial_backoff_ms(reconnect_ms: u64) -> (r: u64)
    ensures
        r == if reconnect_ms < 50 { 50 } else { reconnect_ms },
{
    if reconnect_ms < 50 {
        50
    } else {
        reconnect_ms
    }
}

/// The backoff after another failed open: doubled, capped at ten seconds.
pub fn next_backoff_ms(current_ms: u64) -> (r: u64)
    ensures
        r == if 2 * current_ms > MAX_BACKOFF_MS { MAX_BACKOFF_MS as int } else { 2 * current_ms },
        r <= MAX_BACKOFF_MS,
{
    if current_ms > MAX_BACKOFF_MS / 2 {
        MAX_BACKOFF_MS
    } else {
        current_ms * 2
    }
}

/// Whether a write burst may take another queued write after `taken` writes
/// carrying `burst_bytes` bytes in all.
pub fn burst_has_room(taken: usize, burst_bytes: usize) -> (r: bool)
    ensures
        r == (taken < MAX_WRITE_BURST && burst_bytes < MAX_WRITE_BURST_BYTES),
{
    taken < MAX_WRITE_BURST && burst_bytes < MAX_WRITE_BURST_BYTES
}

/// Parity of the line.
#[derive(Clone, Copy, Debug, PartialEq, Eq)]
pub enum ParityKind {
    NoParity,
    Odd,
    Even,
}

/// Flow control of the line.
#[derive(Clone, Copy, Debug, PartialEq, Eq)]
pub enum FlowKind {
    NoFlow,
    Software,
    Hardware,
}

/// The settings a real port is opened with.
#[derive(Clone, Copy, Debug, PartialEq, Eq)]
pub struct PortSettings {
    pub baud: u32,
    pub databits: u8,
    pub parity: ParityKind,
    pub stopbits: u8,
    pub flow: FlowKind,
    pub poll_timeout_ms: u64,
}

/// Parity named by a configured value (Unicode lower-cased); unknown names
/// mean none.
pub open spec fn parity_named(lowered: Seq<char>) -> ParityKind {
    if lowered == "odd"@ {
        ParityKind::Odd
    } else if lowered == "even"@ {
        ParityKind::Even
    } else {
        ParityKind::NoParity
    }
}

/// Flow control named by a configured value (Unicode lower-cased); unknown
/// names mean none.
pub open spec fn flow_named(lowered: Seq<char>) -> FlowKind {
    if lowered == "software"@ {
        FlowKind::Software
    } else if lowered == "hardware"@ {
        FlowKind::Hardware
    } else {
        FlowKind::NoFlow
    }
}

/// The settings for a real port configuration: two stop bits only when 2 is
/// configured, 5 to 7 data bits as configured and 8 otherwise.
pub fn port_settings(cfg: &RealPortConfig) -> (s: PortSettings)
    ensures
        s.baud == cfg.baud,
        s.databits == if 5 <= cfg.databits <= 7 { cfg.databits } else { 8 },
        s.stopbits == if cfg.stopbits == 2 { 2u8 } else { 1u8 },
        s.parity == parity_named(unicode_lowercase(cfg.parity@)),
        s.flow == flow_named(unicode_lowercase(cfg.flow@)),
        s.poll_timeout_ms == read_poll_timeout_spec(cfg.read_timeout_ms),
{
    let p = to_lowercase(cfg.parity.as_str());
    let parity = if str_eq(p.as_str(), "odd") {
        ParityKind::Odd
    } else if str_eq(p.as_str(), "even") {
        ParityKind::Even
    } else {
        ParityKind::NoParity
    };
    let f = to_lowercase(cfg.flow.as_str());
    let flow = if str_eq(f.as_str(), "software") {
        FlowKind::Software
    } else if str_eq(f.as_str(), "hardware") {
        FlowKind::Hardware
    } else {
        FlowKind::NoFlow
    };
    PortSettings {
        baud: cfg.baud,
        databits: if 5 <= cfg.databits && cfg.databits <= 7 { cfg.databits } else { 8 },
        parity,
        stopbits: if cfg.stopbits == 2 { 2 } else { 1 },
        flow,
        poll_timeout_ms: read_poll_timeout(cfg.read_timeout_ms),
    }
}

/// The polling interval `read_poll_timeout` computes.
pub open spec fn read_poll_timeout_spec(configured_ms: u64) -> u64 {
    if configured_ms < MIN_READ_POLL_TIMEOUT_MS {
        MIN_READ_POLL_TIMEOUT_MS
    } else if configured_ms > MAX_READ_POLL_TIMEOUT_MS {
        MAX_READ_POLL_TIMEOUT_MS
    } else {
        configured_ms
    }
}

/// The USB identity a port reports.
#[derive(Clone, Debug, PartialEq, Eq)]
pub struct UsbIdentity {
    pub vid: u16,
    pub pid: u16,
    pub serial_number: Option<String>,
}

/// One enumerated serial port; `usb` is present for USB ports only.
#[derive(Clone, Debug, PartialEq, Eq)]
pub struct PortEntry {
    pub port_name: String,
    pub usb: Option<UsbIdentity>,
}

/// Whether a port is the one the selector names: same VID and PID, and the
/// same serial number when the selector gives one.
pub open spec fn selects(sel: UsbSelector, p: PortEntry) -> bool {
    match p.usb {
        Some(id) => id.vid == sel.vid && id.pid == sel.pid && match sel.serial_number {
            Some(s) => id.serial_number matches Some(t) && t@ == s@,
            None => true,
        },
        None => false,
    }
}

/// The names of the ports the selector names, in enumeration order.
pub open spec fn selected_names(sel: UsbSelector, ports: Seq<PortEntry>) -> Seq<Seq<char>>
    decreases ports.len(),
{
    if ports.len() == 0 {
        Seq::empty()
    } else {
        selected_names(sel, ports.drop_last()) + if selects(sel, ports.last()) {
            seq![ports.last().port_name@]
        } else {
            Seq::empty()
        }
    }
}

/// Names joined with `", "`.
pub open spec fn comma_joined(names: Seq<Seq<char>>) -> Seq<char>
    decreases names.len(),
{
    if names.len() == 0 {
        Seq::empty()
    } else if names.len() == 1 {
        names[0]
    } else {
        comma_joined(names.drop_last()) + ", "@ + names.last()
    }
}

/// `vvvv:pppp`, four lower-case hex digits each.
pub open spec fn vid_pid(sel: UsbSelector) -> Seq<char> {
    hex_fixed(sel.vid as nat, 4) + ":"@ + hex_fixed(sel.pid as nat, 4)
}

/// The device path a USB selector resolves to among `ports`: the one port it
/// names, or an error when it names none or several.
pub open spec fn usb_selection(sel: UsbSelector, ports: Seq<PortEntry>) -> Result<Seq<char>, Seq<char>> {
    let names = selected_names(sel, ports);
    if names.len() == 0 {
        Err("USB selector "@ + vid_pid(sel) + match sel.serial_number {
            Some(s) => " serial="@ + s@,
            None => Seq::empty(),
        } + " matched no serial port"@)
    } else if names.len() == 1 {
        Ok(names[0])
    } else {
        Err("USB selector "@ + vid_pid(sel) + " is ambiguous; matches: "@ + comma_joined(names)
            + " (set serial_number)"@)
    }
}

fn port_selected(sel: &UsbSelector, p: &PortEntry) -> (r: bool)
    ensures
        r == selects(*sel, *p),
{
    match &p.usb {
        Some(id) => {
            if id.vid != sel.vid || id.pid != sel.pid {
                return false;
            }
            match &sel.serial_number {
                Some(s) => match &id.serial_number {
                    Some(t) => str_eq(t.as_str(), s.as_str()),
                    None => false,
                },
                None => true,
            }
        },
        None => false,
    }
}

fn vid_pid_text(sel: &UsbSelector) -> (s: String)
    ensures
        s@ == vid_pid(*sel),
{
    let v = string_from_chars(hex_fixed_chars(sel.vid as u64, 4).as_slice());
    let p = string_from_chars(hex_fixed_chars(sel.pid as u64, 4).as_slice());
    let a = concat_strs(v.as_str(), ":");
    concat_strs(a.as_str(), p.as_str())
}

/// Resolve a USB selector against the enumerated ports.
pub fn select_usb_port(sel: &UsbSelector, ports: &Vec<PortEntry>) -> (r: Result<String, String>)
    ensures
        match usb_selection(*sel, ports@) {
            Ok(p) => r matches Ok(q) && q@ == p,
            Err(m) => r matches Err(e) && e@ == m,
        },
{
    let mut names: Vec<String> = Vec::new();
    let mut joined = String::new();
    let mut i: usize = 0;
    while i < ports.len()
        invariant
            i <= ports@.len(),
            names@.map_values(|n: String| n@) == selected_names(*sel, ports@.subrange(0, i as int)),
            joined@ == comma_joined(selected_names(*sel, ports@.subrange(0, i as int))),
        decreases ports@.len() - i,
    {
        proof {
            assert(ports@.subrange(0, i + 1).drop_last() =~= ports@.subrange(0, i as int));
        }
        let ghost before = names@.map_values(|n: String| n@);
        if port_selected(sel, &ports[i]) {
            if names.len() > 0 {
                joined = concat_strs(joined.as_str(), ", ");
            }
            joined = concat_strs(joined.as_str(), ports[i].port_name.as_str());
            names.push(owned(ports[i].port_name.as_str()));
            proof {
                let added = before.push(ports@[i as int].port_name@);
                assert(names@.map_values(|n: String| n@) =~= added);
                assert(before + seq![ports@[i as int].port_name@] =~= added);
                assert(added.drop_last() =~= before);
                if before.len() == 0 {
                    assert(comma_joined(before) =~= Seq::<char>::empty());
                    assert(joined@ =~= added[0]);
                }
            }
        } else {
            assert(before + Seq::<Seq<char>>::empty() =~= before);
        }
        i = i + 1;
    }
    proof {
        assert(ports@.subrange(0, i as int) =~= ports@);
    }
    let vp = vid_pid_text(sel);
    if names.len() == 0 {
        let a = concat_strs("USB selector ", vp.as_str());
        let b = match &sel.serial_number {
            Some(s) => {
                let t = concat_strs(a.as_str(), " serial=");
                concat_strs(t.as_str(), s.as_str())
            },
            None => {
                assert(a@ + Seq::<char>::empty() =~= a@);
                a
            },
        };
        Err(concat_strs(b.as_str(), " matched no serial port"))
    } else if names.len() == 1 {
        Ok(owned(names[0].as_str()))
    } else {
        let a = concat_strs("USB selector ", vp.as_str());
        let b = concat_strs(a.as_str(), " is ambiguous; matches: ");
        let c = concat_strs(b.as_str(), joined.as_str());
        Err(concat_strs(c.as_str(), " (set serial_number)"))
    }
}

/// The device path to open: the configured path, or the port a USB selector
/// resolves to among `ports`.
pub fn resolve_device_path(cfg: &RealPortConfig, ports: &Vec<PortEntry>) -> (r: Result<String, String>)
    ensures
        match cfg.usb {
            None => r matches Ok(p) && p@ == cfg.path@,
            Some(sel) => match usb_selection(sel, ports@) {
                Ok(p) => r matches Ok(q) && q@ == p,
                Err(m) => r matches Err(e) && e@ == m,
            },
        },
{
    match &cfg.usb {
        None => Ok(owned(cfg.path.as_str())),
        Some(sel) => select_usb_port(sel, ports),
    }
}

} // verus!
