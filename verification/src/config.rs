//! Configuration schema for the serial hub, its defaults, fan-out expansion,
//! endpoint catalog and validation.
//!
//! Paths are carried as strings; the caller converts them to platform paths.

use vstd::prelude::*;

use crate::netaddr::{parse_socket_addr_loopback, socket_addr_loopback};
use crate::text::{
    any_control, any_space, blank, chars_eq, chars_of, chars_start_with, concat_strs, has_char,
    has_control, has_space, is_blank, owned, starts_with, str_eq, utf8_len, contains_char,
    decimal, decimal_string, ascii_lower_seq, lower_ascii_all,
};

verus! {

/// What `str::to_lowercase` returns (full Unicode lower-casing).
pub uninterp spec fn unicode_lowercase(text: Seq<char>) -> Seq<char>;

/// `str::to_lowercase`; the contract ties the result to its argument through
/// the name `unicode_lowercase` and claims nothing else.
#[verifier::external_body]
pub fn to_lowercase(text: &str) -> (r: String)
    ensures
        r@ == unicode_lowercase(text@),
{
    text.to_lowercase()
}

#[derive(Debug, Clone)]
pub struct Config {
    pub real: RealPortConfig,
    pub tx: TxConfig,
    /// Explicit client endpoints (PTY / TCP / WebSocket).
    pub clients: Vec<ClientConfig>,
    /// Bulk fan-out: expand one real port into many virtual serial / TCP / WS endpoints.
    pub fanout: FanoutConfig,
    pub log: LogConfig,
    /// Canonical, byte-lossless event evidence.
    pub ledger: LedgerConfig,
    /// HTTP/WS control plane bind (also used when a websocket client has no bind).
    pub api: ApiConfig,
    /// Optional RFC2217 (Telnet COM-PORT-OPTION) listener.
    pub rfc2217: Rfc2217Config,
}

/// One-real-port to many parallel monitoring/interaction endpoints.
#[derive(Debug, Clone)]
pub struct FanoutConfig {
    pub pty_count: u32,
    pub pty_link_prefix: String,
    pub pty_name_prefix: String,
    pub pty_can_write: bool,
    pub pty_can_read: bool,
    pub tcp_count: u32,
    pub tcp_host: String,
    pub tcp_base_port: u16,
    pub tcp_name_prefix: String,
    pub tcp_can_write: bool,
    pub tcp_can_read: bool,
    pub ws_binds: Vec<String>,
    pub ws_name_prefix: String,
    pub ws_history_bytes: usize,
    pub ws_can_write: bool,
    pub ws_can_read: bool,
}

/// Exact USB identity of the real port, re-resolved before every open.
#[derive(Debug, Clone)]
pub struct UsbSelector {
    pub vid: u16,
    pub pid: u16,
    pub serial_number: Option<String>,
}

#[derive(Debug, Clone)]
pub struct RealPortConfig {
    /// Serial device path, e.g. `/dev/tty.usbmodem*` or `COM3`; `mock:` for loopback.
    pub path: String,
    pub baud: u32,
    pub databits: u8,
    pub parity: String,
    pub stopbits: u8,
    pub flow: String,
    pub reconnect: bool,
    pub reconnect_ms: u64,
    /// Read timeout in milliseconds for the serial reader thread.
    pub read_timeout_ms: u64,
    /// Optional exact USB identity.
    pub usb: Option<UsbSelector>,
}

/// Line settings of the real port.
#[derive(Debug, Clone)]
pub struct SerialSettings {
    pub baud: u32,
    pub databits: u8,
    pub parity: String,
    pub stopbits: u8,
    pub flow: String,
}

#[derive(Debug, Clone)]
pub struct TxConfig {
    /// `queue_by_line` | `queue_by_frame` | `exclusive` | `primary_wins`
    pub mode: String,
    /// Client name preferred under `primary_wins`.
    pub primary: Option<String>,
    pub write_lock_ms: u64,
    /// End-to-end deadline for queue admission and confirmed host writes.
    pub write_timeout_ms: u64,
    /// Maximum bytes retained for one delimiter-framed client command.
    pub max_frame_bytes: usize,
    /// Maximum bytes accepted by one atomic write.
    pub max_write_bytes: usize,
    /// Frame delimiter byte when mode is `queue_by_frame` (default 0x0A = '\n').
    pub frame_delim: u8,
    /// Slow client RX strategy: `drop_oldest` | `drop_newest` | `disconnect_slow` | `block`
    pub slow_client: String,
    /// Per-client outbound queue capacity (chunks).
    pub client_queue: usize,
    /// Maximum time `slow_client = "block"` may stall fan-out.
    pub slow_block_ms: u64,
}

#[derive(Debug, Clone)]
pub enum ClientConfig {
    Pty { name: String, link: String, can_write: bool, can_read: bool },
    Tcp { name: String, bind: String, can_write: bool, can_read: bool },
    Websocket {
        name: String,
        bind: Option<String>,
        can_write: bool,
        can_read: bool,
        history_bytes: usize,
    },
}

#[derive(Debug, Clone)]
pub struct LogConfig {
    pub file: Option<String>,
    pub mirror_console: bool,
    /// `text` | `hex` | `hex+text`
    pub format: String,
}

#[derive(Debug, Clone)]
pub struct LedgerConfig {
    /// Optional root directory for hashed NDJSON session segments.
    pub directory: Option<String>,
    pub memory_events: usize,
    pub memory_bytes: usize,
    pub stream_capacity: usize,
    pub rotate_bytes: u64,
    /// Stronger durability at the cost of a disk sync for every event.
    pub fsync_each_event: bool,
}

#[derive(Debug, Clone)]
pub struct ApiConfig {
    pub bind: String,
    pub enabled: bool,
    /// Environment variable containing the bearer token.
    pub token_env: Option<String>,
    /// Explicit cross-origin browser origins.
    pub cors_origins: Vec<String>,
    pub can_read: bool,
    pub can_write: bool,
    /// Permit control-line and line-setting commands through this listener.
    pub can_control: bool,
}

#[derive(Debug, Clone)]
pub struct Rfc2217Config {
    pub enabled: bool,
    pub bind: String,
    pub can_read: bool,
    pub can_write: bool,
    pub can_control: bool,
}

/// Static description of a configured fan-out endpoint (for status / docs).
#[derive(Debug, Clone)]
pub struct EndpointDesc {
    pub kind: String,
    pub name: String,
    /// Path, bind address, or URL path depending on kind.
    pub address: String,
    pub can_read: bool,
    pub can_write: bool,
    /// Human note, e.g. "many concurrent connections".
    pub note: String,
}

/// Options for one-shot CLI share (no TOML required).
#[derive(Debug, Clone)]
pub struct QuickShare {
    pub device: String,
    pub baud: u32,
    pub pty_count: u32,
    pub tcp_count: u32,
    pub tcp_base_port: u16,
    pub api_bind: String,
    pub mirror_console: bool,
}

impl ClientConfig {
    pub open spec fn name_view(&self) -> Seq<char> {
        match self {
            ClientConfig::Pty { name, .. } => name@,
            ClientConfig::Tcp { name, .. } => name@,
            ClientConfig::Websocket { name, .. } => name@,
        }
    }

    pub fn name(&self) -> (r: &str)
        ensures
            r@ == self.name_view(),
    {
        match self {
            ClientConfig::Pty { name, .. } => name.as_str(),
            ClientConfig::Tcp { name, .. } => name.as_str(),
            ClientConfig::Websocket { name, .. } => name.as_str(),
        }
    }
}

// ---------------------------------------------------------------------------
// Defaults
// ---------------------------------------------------------------------------

pub fn default_baud() -> (r: u32)
    ensures
        r == 115_200,
{
    115_200
}

pub fn default_databits() -> (r: u8)
    ensures
        r == 8,
{
    8
}

pub fn default_parity() -> (r: String)
    ensures
        r@ == "none"@,
{
    owned("none")
}

pub fn default_stopbits() -> (r: u8)
    ensures
        r == 1,
{
    1
}

pub fn default_flow() -> (r: String)
    ensures
        r@ == "none"@,
{
    owned("none")
}

pub fn default_true() -> (r: bool)
    ensures
        r,
{
    true
}

pub fn default_reconnect_ms() -> (r: u64)
    ensures
        r == 1000,
{
    1000
}

pub fn default_read_timeout_ms() -> (r: u64)
    ensures
        r == 50,
{
    50
}

pub fn default_tx_mode() -> (r: String)
    ensures
        r@ == "queue_by_line"@,
{
    owned("queue_by_line")
}

pub fn default_write_lock_ms() -> (r: u64)
    ensures
        r == 3000,
{
    3000
}

pub fn default_write_timeout_ms() -> (r: u64)
    ensures
        r == 5000,
{
    5000
}

pub fn default_max_frame_bytes() -> (r: usize)
    ensures
        r == 65_536,
{
    65_536
}

pub fn default_max_write_bytes() -> (r: usize)
    ensures
        r == 65_536,
{
    65_536
}

pub fn default_frame_delim() -> (r: u8)
    ensures
        r == 10,
{
    10
}

pub fn default_slow_client() -> (r: String)
    ensures
        r@ == "drop_oldest"@,
{
    owned("drop_oldest")
}

pub fn default_client_queue() -> (r: usize)
    ensures
        r == 256,
{
    256
}

pub fn default_slow_block_ms() -> (r: u64)
    ensures
        r == 1000,
{
    1000
}

pub fn default_tcp_bind() -> (r: String)
    ensures
        r@ == "127.0.0.1:8788"@,
{
    owned("127.0.0.1:8788")
}

pub fn default_api_bind() -> (r: String)
    ensures
        r@ == "127.0.0.1:8787"@,
{
    owned("127.0.0.1:8787")
}

pub fn default_rfc2217_bind() -> (r: String)
    ensures
        r@ == "127.0.0.1:2217"@,
{
    owned("127.0.0.1:2217")
}

pub fn default_history_bytes() -> (r: usize)
    ensures
        r == 65_536,
{
    65_536
}

pub fn default_log_format() -> (r: String)
    ensures
        r@ == "hex+text"@,
{
    owned("hex+text")
}

pub fn default_ledger_memory_events() -> (r: usize)
    ensures
        r == 16_384,
{
    16_384
}

pub fn default_ledger_memory_bytes() -> (r: usize)
    ensures
        r == 32 * 1024 * 1024,
{
    32 * 1024 * 1024
}

pub fn default_ledger_stream_capacity() -> (r: usize)
    ensures
        r == 1024,
{
    1024
}

pub fn default_ledger_rotate_bytes() -> (r: u64)
    ensures
        r == 64 * 1024 * 1024,
{
    64 * 1024 * 1024
}

pub fn default_pty_link_prefix() -> (r: String)
    ensures
        r@ == "/tmp/ohmyserial-v"@,
{
    owned("/tmp/ohmyserial-v")
}

pub fn default_pty_name_prefix() -> (r: String)
    ensures
        r@ == "v"@,
{
    owned("v")
}

pub fn default_tcp_host() -> (r: String)
    ensures
        r@ == "127.0.0.1"@,
{
    owned("127.0.0.1")
}

pub fn default_tcp_base_port() -> (r: u16)
    ensures
        r == 8788,
{
    8788
}

pub fn default_tcp_name_prefix() -> (r: String)
    ensures
        r@ == "tcp"@,
{
    owned("tcp")
}

pub fn default_ws_name_prefix() -> (r: String)
    ensures
        r@ == "ws"@,
{
    owned("ws")
}

/// Number of PTY endpoints a quick share offers: two, since PTYs are
/// available on the Unix platforms this library targets.
pub fn default_friendly_pty_count() -> (r: u32)
    ensures
        r == 2,
{
    2
}

impl TxConfig {
    pub open spec fn is_default(&self) -> bool {
        &&& self.mode@ == "queue_by_line"@
        &&& self.primary is None
        &&& self.write_lock_ms == 3000
        &&& self.write_timeout_ms == 5000
        &&& self.max_frame_bytes == 65_536
        &&& self.max_write_bytes == 65_536
        &&& self.frame_delim == 10
        &&& self.slow_client@ == "drop_oldest"@
        &&& self.client_queue == 256
        &&& self.slow_block_ms == 1000
    }
}

impl Default for TxConfig {
    fn default() -> (r: TxConfig)
        ensures
            r.is_default(),
    {
        TxConfig {
            mode: default_tx_mode(),
            primary: None,
            write_lock_ms: default_write_lock_ms(),
            write_timeout_ms: default_write_timeout_ms(),
            max_frame_bytes: default_max_frame_bytes(),
            max_write_bytes: default_max_write_bytes(),
            frame_delim: default_frame_delim(),
            slow_client: default_slow_client(),
            client_queue: default_client_queue(),
            slow_block_ms: default_slow_block_ms(),
        }
    }
}

impl FanoutConfig {
    /// No fan-out endpoints, with the documented prefixes and permissions.
    pub open spec fn is_default(&self) -> bool {
        &&& self.pty_count == 0
        &&& self.pty_link_prefix@ == "/tmp/ohmyserial-v"@
        &&& self.pty_name_prefix@ == "v"@
        &&& self.pty_can_write && self.pty_can_read
        &&& self.tcp_count == 0
        &&& self.tcp_host@ == "127.0.0.1"@
        &&& self.tcp_base_port == 8788
        &&& self.tcp_name_prefix@ == "tcp"@
        &&& self.tcp_can_write && self.tcp_can_read
        &&& self.ws_binds@.len() == 0
        &&& self.ws_name_prefix@ == "ws"@
        &&& self.ws_history_bytes == 65_536
        &&& self.ws_can_write && self.ws_can_read
    }
}

impl Default for FanoutConfig {
    fn default() -> (r: FanoutConfig)
        ensures
            r.is_default(),
    {
        FanoutConfig {
            pty_count: 0,
            pty_link_prefix: default_pty_link_prefix(),
            pty_name_prefix: default_pty_name_prefix(),
            pty_can_write: true,
            pty_can_read: true,
            tcp_count: 0,
            tcp_host: default_tcp_host(),
            tcp_base_port: default_tcp_base_port(),
            tcp_name_prefix: default_tcp_name_prefix(),
            tcp_can_write: true,
            tcp_can_read: true,
            ws_binds: Vec::new(),
            ws_name_prefix: default_ws_name_prefix(),
            ws_history_bytes: default_history_bytes(),
            ws_can_write: true,
            ws_can_read: true,
        }
    }
}

impl Default for LedgerConfig {
    fn default() -> (r: LedgerConfig)
        ensures
            r.directory is None,
            r.memory_events == 16_384,
            r.memory_bytes == 32 * 1024 * 1024,
            r.stream_capacity == 1024,
            r.rotate_bytes == 64 * 1024 * 1024,
            !r.fsync_each_event,
    {
        LedgerConfig {
            directory: None,
            memory_events: default_ledger_memory_events(),
            memory_bytes: default_ledger_memory_bytes(),
            stream_capacity: default_ledger_stream_capacity(),
            rotate_bytes: default_ledger_rotate_bytes(),
            fsync_each_event: false,
        }
    }
}

impl Default for LogConfig {
    fn default() -> (r: LogConfig)
        ensures
            r.file is None,
            r.mirror_console,
            r.format@ == "hex+text"@,
    {
        LogConfig { file: None, mirror_console: true, format: default_log_format() }
    }
}

impl Default for ApiConfig {
    fn default() -> (r: ApiConfig)
        ensures
            r.bind@ == "127.0.0.1:8787"@,
            r.enabled,
            r.token_env is None,
            r.cors_origins@.len() == 0,
            r.can_read && r.can_write && r.can_control,
    {
        ApiConfig {
            bind: default_api_bind(),
            enabled: true,
            token_env: None,
            cors_origins: Vec::new(),
            can_read: true,
            can_write: true,
            can_control: true,
        }
    }
}

impl Default for Rfc2217Config {
    fn default() -> (r: Rfc2217Config)
        ensures
            !r.enabled,
            r.bind@ == "127.0.0.1:2217"@,
            r.can_read && r.can_write && r.can_control,
    {
        Rfc2217Config {
            enabled: false,
            bind: default_rfc2217_bind(),
            can_read: true,
            can_write: true,
            can_control: true,
        }
    }
}

impl Default for Config {
    fn default() -> (r: Config)
        ensures
            r.real.path@ == "mock:demo"@,
            r.real.baud == 115_200,
            r.real.databits == 8,
            r.real.parity@ == "none"@,
            r.real.stopbits == 1,
            r.real.flow@ == "none"@,
            r.real.reconnect,
            r.real.reconnect_ms == 1000,
            r.real.read_timeout_ms == 50,
            r.real.usb is None,
            r.tx.is_default(),
            r.clients@.len() == 1,
            r.clients@[0] matches ClientConfig::Tcp { name, bind, can_write, can_read } && name@
                == "tcp"@ && bind@ == "127.0.0.1:8788"@ && can_write && can_read,
            r.fanout.is_default(),
            r.log.file is None && r.log.mirror_console && r.log.format@ == "hex+text"@,
            r.ledger.directory is None && r.ledger.memory_events == 16_384 && r.ledger.memory_bytes
                == 32 * 1024 * 1024 && r.ledger.stream_capacity == 1024 && r.ledger.rotate_bytes
                == 64 * 1024 * 1024 && !r.ledger.fsync_each_event,
            r.api.bind@ == "127.0.0.1:8787"@ && r.api.enabled && r.api.token_env is None
                && r.api.cors_origins@.len() == 0 && r.api.can_read && r.api.can_write
                && r.api.can_control,
            !r.rfc2217.enabled && r.rfc2217.bind@ == "127.0.0.1:2217"@,
    {
        let mut clients: Vec<ClientConfig> = Vec::new();
        clients.push(
            ClientConfig::Tcp {
                name: owned("tcp"),
                bind: default_tcp_bind(),
                can_write: true,
                can_read: true,
            },
        );
        Config {
            real: RealPortConfig {
                path: owned("mock:demo"),
                baud: default_baud(),
                databits: default_databits(),
                parity: default_parity(),
                stopbits: default_stopbits(),
                flow: default_flow(),
                reconnect: true,
                reconnect_ms: default_reconnect_ms(),
                read_timeout_ms: default_read_timeout_ms(),
                usb: None,
            },
            tx: TxConfig::default(),
            clients,
            fanout: FanoutConfig::default(),
            log: LogConfig::default(),
            ledger: LedgerConfig::default(),
            api: ApiConfig::default(),
            rfc2217: Rfc2217Config::default(),
        }
    }
}

impl QuickShare {
    pub open spec fn is_default(&self) -> bool {
        &&& self.device@ == "mock:demo"@
        &&& self.baud == 115_200
        &&& self.pty_count == 2
        &&& self.tcp_count == 1
        &&& self.tcp_base_port == 8788
        &&& self.api_bind@ == "127.0.0.1:8787"@
        &&& self.mirror_console
    }
}

impl Default for QuickShare {
    fn default() -> (r: QuickShare)
        ensures
            r.is_default(),
    {
        QuickShare {
            device: owned("mock:demo"),
            baud: 115_200,
            pty_count: default_friendly_pty_count(),
            tcp_count: 1,
            tcp_base_port: 8788,
            api_bind: owned("127.0.0.1:8787"),
            mirror_console: true,
        }
    }
}

impl RealPortConfig {
    /// The line settings of this port.
    pub fn settings(&self) -> (s: SerialSettings)
        ensures
            s.baud == self.baud,
            s.databits == self.databits,
            s.parity@ == self.parity@,
            s.stopbits == self.stopbits,
            s.flow@ == self.flow@,
    {
        SerialSettings {
            baud: self.baud,
            databits: self.databits,
            parity: owned(self.parity.as_str()),
            stopbits: self.stopbits,
            flow: owned(self.flow.as_str()),
        }
    }
}

/// `s` equals `word` ignoring ASCII case.
pub open spec fn ascii_eq_ignore_case(s: Seq<char>, word: Seq<char>) -> bool {
    ascii_lower_seq(s) == word
}

/// Why serial line settings are refused, if they are.
pub open spec fn settings_fault(s: SerialSettings) -> Option<Seq<char>> {
    if s.baud == 0 {
        Some("baud must be greater than zero"@)
    } else if !(5 <= s.databits <= 8) {
        Some("databits must be 5, 6, 7 or 8"@)
    } else if !(ascii_eq_ignore_case(s.parity@, "none"@) || ascii_eq_ignore_case(s.parity@, "odd"@)
        || ascii_eq_ignore_case(s.parity@, "even"@)) {
        Some("parity must be none, odd or even"@)
    } else if !(s.stopbits == 1 || s.stopbits == 2) {
        Some("stopbits must be 1 or 2"@)
    } else if !(ascii_eq_ignore_case(s.flow@, "none"@) || ascii_eq_ignore_case(s.flow@, "software"@)
        || ascii_eq_ignore_case(s.flow@, "hardware"@)) {
        Some("flow must be none, software or hardware"@)
    } else {
        None
    }
}

/// Whether `s` equals `word` ignoring ASCII case (`word` is lower case).
fn eq_ignore_ascii_case(s: &str, word: &str) -> (r: bool)
    ensures
        r == ascii_eq_ignore_case(s@, word@),
{
    let lowered = lower_ascii_all(chars_of(s).as_slice());
    let w = chars_of(word);
    chars_eq(lowered.as_slice(), w.as_slice())
}

impl SerialSettings {
    /// Settings a serial port can be opened with: a positive baud rate, 5 to
    /// 8 data bits, parity none/odd/even, 1 or 2 stop bits and flow control
    /// none/software/hardware (names in any ASCII case).
    pub fn validate(&self) -> (r: Result<(), String>)
        ensures
            match settings_fault(*self) {
                Some(m) => r matches Err(e) && e@ == m,
                None => r is Ok,
            },
    {
        if self.baud == 0 {
            return Err(owned("baud must be greater than zero"));
        }
        if self.databits < 5 || self.databits > 8 {
            return Err(owned("databits must be 5, 6, 7 or 8"));
        }
        if !(eq_ignore_ascii_case(self.parity.as_str(), "none") || eq_ignore_ascii_case(
            self.parity.as_str(),
            "odd",
        ) || eq_ignore_ascii_case(self.parity.as_str(), "even")) {
            return Err(owned("parity must be none, odd or even"));
        }
        if self.stopbits != 1 && self.stopbits != 2 {
            return Err(owned("stopbits must be 1 or 2"));
        }
        if !(eq_ignore_ascii_case(self.flow.as_str(), "none") || eq_ignore_ascii_case(
            self.flow.as_str(),
            "software",
        ) || eq_ignore_ascii_case(self.flow.as_str(), "hardware")) {
            return Err(owned("flow must be none, software or hardware"));
        }
        Ok(())
    }
}

// ---------------------------------------------------------------------------
// Validation
// ---------------------------------------------------------------------------

/// The error of an address that std cannot parse as a socket address.
pub open spec fn bind_syntax_error(field: Seq<char>, bind: Seq<char>) -> Seq<char> {
    "invalid "@ + field + " '"@ + bind + "': invalid socket address syntax"@
}

/// Parse a listener address, naming `field` in the error.
pub fn parse_api_bind(bind: &str, field: &str) -> (r: Result<bool, String>)
    ensures
        match socket_addr_loopback(bind@) {
            Some(loopback) => r == Ok::<bool, String>(loopback),
            None => r matches Err(e) && e@ == bind_syntax_error(field@, bind@),
        },
{
    let cs = chars_of(bind);
    match parse_socket_addr_loopback(&cs) {
        Some(loopback) => Ok(loopback),
        None => {
            let mut e = concat_strs("invalid ", field);
            e = concat_strs(e.as_str(), " '");
            e = concat_strs(e.as_str(), bind);
            e = concat_strs(e.as_str(), "': invalid socket address syntax");
            Err(e)
        },
    }
}

/// Why a dedicated WebSocket bind is refused, if it is.
pub open spec fn websocket_bind_error(bind: Seq<char>) -> Option<Seq<char>> {
    match socket_addr_loopback(bind) {
        None => Some(bind_syntax_error("websocket bind"@, bind)),
        Some(false) => Some(
            "plaintext dedicated WebSocket must bind to loopback; use an SSH tunnel or a TLS reverse proxy ("@
                + bind + ")"@,
        ),
        Some(true) => None,
    }
}

/// Dedicated WebSocket listeners are plaintext and must stay on loopback.
pub fn validate_websocket_bind_security(bind: &str) -> (r: Result<(), String>)
    ensures
        match websocket_bind_error(bind@) {
            Some(e) => r matches Err(m) && m@ == e,
            None => r is Ok,
        },
{
    match parse_api_bind(bind, "websocket bind") {
        Err(e) => Err(e),
        Ok(false) => {
            let mut e = concat_strs(
                "plaintext dedicated WebSocket must bind to loopback; use an SSH tunnel or a TLS reverse proxy (",
                bind,
            );
            e = concat_strs(e.as_str(), ")");
            Err(e)
        },
        Ok(true) => Ok(()),
    }
}

/// Why a raw TCP bind is refused, if it is.
pub open spec fn tcp_bind_error(bind: Seq<char>) -> Option<Seq<char>> {
    match socket_addr_loopback(bind) {
        None => Some(bind_syntax_error("tcp bind"@, bind)),
        Some(false) => Some(
            "raw TCP has no authentication and must bind to loopback; use an SSH tunnel for remote access ("@
                + bind + ")"@,
        ),
        Some(true) => None,
    }
}

fn validate_tcp_bind(bind: &str) -> (r: Result<(), String>)
    ensures
        match tcp_bind_error(bind@) {
            Some(e) => r matches Err(m) && m@ == e,
            None => r is Ok,
        },
{
    match parse_api_bind(bind, "tcp bind") {
        Err(e) => Err(e),
        Ok(false) => {
            let mut e = concat_strs(
                "raw TCP has no authentication and must bind to loopback; use an SSH tunnel for remote access (",
                bind,
            );
            e = concat_strs(e.as_str(), ")");
            Err(e)
        },
        Ok(true) => Ok(()),
    }
}

/// Why an RFC2217 bind is refused, if it is.
pub open spec fn rfc2217_bind_error(bind: Seq<char>) -> Option<Seq<char>> {
    match socket_addr_loopback(bind) {
        None => Some(bind_syntax_error("rfc2217.bind"@, bind)),
        Some(false) => Some(
            "RFC2217 has no authentication and must bind to loopback; use an SSH tunnel for remote access ("@
                + bind + ")"@,
        ),
        Some(true) => None,
    }
}

fn validate_rfc2217_bind(bind: &str) -> (r: Result<(), String>)
    ensures
        match rfc2217_bind_error(bind@) {
            Some(e) => r matches Err(m) && m@ == e,
            None => r is Ok,
        },
{
    match parse_api_bind(bind, "rfc2217.bind") {
        Err(e) => Err(e),
        Ok(false) => {
            let mut e = concat_strs(
                "RFC2217 has no authentication and must bind to loopback; use an SSH tunnel for remote access (",
                bind,
            );
            e = concat_strs(e.as_str(), ")");
            Err(e)
        },
        Ok(true) => Ok(()),
    }
}

/// The part of an `http://` or `https://` origin after the scheme separator.
pub open spec fn origin_rest(o: Seq<char>) -> Seq<char> {
    if starts_with(o, "http://"@) {
        o.subrange(7, o.len() as int)
    } else {
        o.subrange(8, o.len() as int)
    }
}

/// Why a configured CORS origin is refused, if it is: it must be an explicit
/// `http(s)://authority` with no whitespace, path, query or fragment.
pub open spec fn cors_origin_error(o: Seq<char>) -> Option<Seq<char>> {
    if is_blank(o) || crate::text::trim_seq(o) == "*"@ {
        Some("api.cors_origins must contain explicit origins, never wildcard '*'"@)
    } else if has_space(o) {
        Some("invalid CORS origin '"@ + o + "'"@)
    } else if !(starts_with(o, "http://"@) || starts_with(o, "https://"@)) {
        Some("CORS origin must start with http:// or https://: '"@ + o + "'"@)
    } else if origin_rest(o).len() == 0 || has_char(origin_rest(o), '/') || has_char(
        origin_rest(o),
        '?',
    ) || has_char(origin_rest(o), '#') {
        Some("CORS value must be an origin without path/query/fragment: '"@ + o + "'"@)
    } else {
        None
    }
}

pub fn validate_cors_origin(origin: &str) -> (r: Result<(), String>)
    ensures
        match cors_origin_error(origin@) {
            Some(e) => r matches Err(m) && m@ == e,
            None => r is Ok,
        },
{
    let cs = chars_of(origin);
    let trimmed = crate::text::trim_chars(&cs);
    let star: Vec<char> = vec!['*'];
    proof {
        assert(star@ =~= "*"@) by {
            reveal_strlit("*");
        }
    }
    if blank(&cs) || chars_eq(&trimmed, &star) {
        return Err(owned("api.cors_origins must contain explicit origins, never wildcard '*'"));
    }
    if any_space(&cs) {
        let mut e = concat_strs("invalid CORS origin '", origin);
        e = concat_strs(e.as_str(), "'");
        return Err(e);
    }
    let http = chars_of("http://");
    let https = chars_of("https://");
    let is_http = chars_start_with(&cs, &http);
    let is_https = chars_start_with(&cs, &https);
    if !(is_http || is_https) {
        let mut e = concat_strs("CORS origin must start with http:// or https://: '", origin);
        e = concat_strs(e.as_str(), "'");
        return Err(e);
    }
    proof {
        reveal_strlit("http://");
        reveal_strlit("https://");
    }
    let start: usize = if is_http {
        7
    } else {
        8
    };
    let mut rest: Vec<char> = Vec::new();
    let mut i: usize = start;
    while i < cs.len()
        invariant
            start <= i <= cs@.len(),
            rest@ == cs@.subrange(start as int, i as int),
        decreases cs@.len() - i,
    {
        rest.push(cs[i]);
        i = i + 1;
    }
    assert(rest@ == origin_rest(origin@));
    if rest.len() == 0 || contains_char(&rest, '/') || contains_char(&rest, '?') || contains_char(
        &rest,
        '#',
    ) {
        let mut e = concat_strs(
            "CORS value must be an origin without path/query/fragment: '",
            origin,
        );
        e = concat_strs(e.as_str(), "'");
        return Err(e);
    }
    Ok(())
}


/// A client or workflow label: not blank, at most 128 UTF-8 bytes, no control characters.
pub open spec fn name_ok(n: Seq<char>) -> bool {
    !is_blank(n) && utf8_len(n) <= 128 && !has_control(n)
}

/// Whether `c` is a WebSocket client served by the global API `/v1/stream` route.
pub open spec fn uses_global_route(c: ClientConfig, api_bind: Seq<char>) -> bool {
    match c {
        ClientConfig::Websocket { bind, .. } => bind is None || bind.unwrap()@ == api_bind,
        _ => false,
    }
}

/// How many clients use the global API WebSocket route.
pub open spec fn global_route_count(clients: Seq<ClientConfig>, api_bind: Seq<char>) -> nat
    decreases clients.len(),
{
    if clients.len() == 0 {
        0
    } else {
        global_route_count(clients.drop_last(), api_bind) + if uses_global_route(
            clients.last(),
            api_bind,
        ) {
            1nat
        } else {
            0nat
        }
    }
}

/// The first refusal among the real path, the token variable name and the API listener.
pub open spec fn head_error(cfg: Config) -> Option<Seq<char>> {
    if is_blank(cfg.real.path@) {
        Some("real.path must not be empty"@)
    } else if cfg.api.token_env is Some && is_blank(cfg.api.token_env.unwrap()@) {
        Some("api.token_env must not be empty"@)
    } else if cfg.api.token_env is Some && (has_char(cfg.api.token_env.unwrap()@, '=') || has_char(
        cfg.api.token_env.unwrap()@,
        '\0',
    )) {
        Some("api.token_env is not a valid environment variable name"@)
    } else if cfg.api.enabled && socket_addr_loopback(cfg.api.bind@) is None {
        Some(bind_syntax_error("api.bind"@, cfg.api.bind@))
    } else if cfg.api.enabled && socket_addr_loopback(cfg.api.bind@) == Some(false) {
        Some(
            "plaintext HTTP/WebSocket API must bind to loopback; use an SSH tunnel or a TLS reverse proxy ("@
                + cfg.api.bind@ + ")"@,
        )
    } else if cfg.api.enabled && global_route_count(cfg.clients@, cfg.api.bind@) > 1 {
        Some("at most one websocket client may use the global api /v1/stream route"@)
    } else {
        None
    }
}

/// The first refused CORS origin at or after `i`.
pub open spec fn cors_error_from(origins: Seq<String>, i: int) -> Option<Seq<char>>
    decreases origins.len() - i,
{
    if i < 0 || i >= origins.len() {
        None
    } else if cors_origin_error(origins[i]@) is Some {
        cors_origin_error(origins[i]@)
    } else {
        cors_error_from(origins, i + 1)
    }
}

/// The first refused extra WebSocket bind at or after `i`.
pub open spec fn ws_bind_error_from(binds: Seq<String>, i: int) -> Option<Seq<char>>
    decreases binds.len() - i,
{
    if i < 0 || i >= binds.len() {
        None
    } else if websocket_bind_error(binds[i]@) is Some {
        websocket_bind_error(binds[i]@)
    } else {
        ws_bind_error_from(binds, i + 1)
    }
}

/// The first refusal among the TX settings.
pub open spec fn tx_error(tx: TxConfig) -> Option<Seq<char>> {
    if crate::policy::tx_mode_named(tx.mode@) is None {
        Some("unknown tx.mode: "@ + tx.mode@)
    } else if crate::policy::slow_client_named(tx.slow_client@) is None {
        Some("unknown tx.slow_client: "@ + tx.slow_client@)
    } else if tx.client_queue == 0 {
        Some("tx.client_queue must be at least 1"@)
    } else if tx.write_lock_ms == 0 {
        Some("tx.write_lock_ms must be at least 1"@)
    } else if tx.write_timeout_ms == 0 {
        Some("tx.write_timeout_ms must be at least 1"@)
    } else if tx.max_frame_bytes == 0 {
        Some("tx.max_frame_bytes must be at least 1"@)
    } else if tx.max_write_bytes == 0 {
        Some("tx.max_write_bytes must be at least 1"@)
    } else if tx.slow_block_ms == 0 {
        Some("tx.slow_block_ms must be at least 1"@)
    } else {
        None
    }
}

/// The first refusal among the ledger, log and serial-line settings.
pub open spec fn body_error(cfg: Config) -> Option<Seq<char>> {
    if cfg.ledger.memory_events == 0 {
        Some("ledger.memory_events must be at least 1"@)
    } else if cfg.ledger.memory_bytes == 0 {
        Some("ledger.memory_bytes must be at least 1"@)
    } else if cfg.ledger.stream_capacity == 0 {
        Some("ledger.stream_capacity must be at least 1"@)
    } else if cfg.ledger.rotate_bytes < 1024 {
        Some("ledger.rotate_bytes must be at least 1024"@)
    } else if !(cfg.log.format@ == "text"@ || cfg.log.format@ == "hex"@ || cfg.log.format@
        == "hex+text"@) {
        Some("unknown log.format: "@ + cfg.log.format@)
    } else if !(unicode_lowercase(cfg.real.parity@) == "none"@ || unicode_lowercase(
        cfg.real.parity@,
    ) == "odd"@ || unicode_lowercase(cfg.real.parity@) == "even"@) {
        Some("unknown real.parity: "@ + unicode_lowercase(cfg.real.parity@))
    } else if !(unicode_lowercase(cfg.real.flow@) == "none"@ || unicode_lowercase(cfg.real.flow@)
        == "software"@ || unicode_lowercase(cfg.real.flow@) == "hardware"@) {
        Some("unknown real.flow: "@ + unicode_lowercase(cfg.real.flow@))
    } else if !(5 <= cfg.real.databits <= 8) {
        Some("real.databits must be 5..=8"@)
    } else if !(cfg.real.stopbits == 1 || cfg.real.stopbits == 2) {
        Some("real.stopbits must be 1 or 2"@)
    } else {
        None
    }
}

/// The message of an invalid client name.
pub open spec fn client_name_message() -> Seq<char> {
    "client name must be non-empty, at most 128 bytes, and contain no control characters"@
}

/// Why client `i` is refused, given that no earlier client was.
pub open spec fn client_error(cfg: Config, i: int) -> Option<Seq<char>> {
    let c = cfg.clients@[i];
    let n = c.name_view();
    if !name_ok(n) {
        Some(client_name_message())
    } else if exists|j: int| 0 <= j < i && #[trigger] cfg.clients@[j].name_view() == n {
        Some("duplicate client name: "@ + n)
    } else {
        match c {
            ClientConfig::Tcp { bind, .. } => tcp_bind_error(bind@),
            ClientConfig::Websocket { bind, .. } => match bind {
                Some(b) => websocket_bind_error(b@),
                None => if !cfg.api.enabled {
                    Some("websocket client '"@ + n + "' has no bind while api.enabled=false"@)
                } else {
                    None
                },
            },
            ClientConfig::Pty { .. } => None,
        }
    }
}

/// The first refused client at or after `i`.
pub open spec fn clients_error_from(cfg: Config, i: int) -> Option<Seq<char>>
    decreases cfg.clients@.len() - i,
{
    if i < 0 || i >= cfg.clients@.len() {
        None
    } else if client_error(cfg, i) is Some {
        client_error(cfg, i)
    } else {
        clients_error_from(cfg, i + 1)
    }
}

/// The first refusal of a configuration, checked in a fixed order: path,
/// token, API listener, CORS origins, extra WebSocket binds, TX, ledger, log,
/// serial line, clients, RFC2217 listener.
pub open spec fn config_error(cfg: Config) -> Option<Seq<char>> {
    if head_error(cfg) is Some {
        head_error(cfg)
    } else if cors_error_from(cfg.api.cors_origins@, 0) is Some {
        cors_error_from(cfg.api.cors_origins@, 0)
    } else if ws_bind_error_from(cfg.fanout.ws_binds@, 0) is Some {
        ws_bind_error_from(cfg.fanout.ws_binds@, 0)
    } else if tx_error(cfg.tx) is Some {
        tx_error(cfg.tx)
    } else if body_error(cfg) is Some {
        body_error(cfg)
    } else if clients_error_from(cfg, 0) is Some {
        clients_error_from(cfg, 0)
    } else if cfg.rfc2217.enabled && rfc2217_bind_error(cfg.rfc2217.bind@) is Some {
        rfc2217_bind_error(cfg.rfc2217.bind@)
    } else {
        None
    }
}

/// Whether `c` uses the global API WebSocket route.
fn serves_global_route(c: &ClientConfig, api_bind: &str) -> (r: bool)
    ensures
        r == uses_global_route(*c, api_bind@),
{
    match c {
        ClientConfig::Websocket { bind, .. } => match bind {
            None => true,
            Some(b) => str_eq(b.as_str(), api_bind),
        },
        _ => false,
    }
}

/// The first refusal of a list of strings under `check`, scanning in order.
fn chars_blank_or(s: &str, a: char, b: char) -> (r: (bool, bool))
    ensures
        r.0 == is_blank(s@),
        r.1 == (has_char(s@, a) || has_char(s@, b)),
{
    let cs = chars_of(s);
    (blank(&cs), contains_char(&cs, a) || contains_char(&cs, b))
}

fn text_error(msg: &str) -> (r: Result<(), String>)
    ensures
        r matches Err(e) && e@ == msg@,
{
    Err(owned(msg))
}

fn text_error2(a: &str, b: &str) -> (r: Result<(), String>)
    ensures
        r matches Err(e) && e@ == a@ + b@,
{
    Err(concat_strs(a, b))
}

fn text_error3(a: &str, b: &str, c: &str) -> (r: Result<(), String>)
    ensures
        r matches Err(e) && e@ == a@ + b@ + c@,
{
    let s = concat_strs(a, b);
    Err(concat_strs(s.as_str(), c))
}

/// Whether `name` is one of `seen`.
fn name_seen(seen: &Vec<Vec<char>>, name: &[char]) -> (r: bool)
    ensures
        r == exists|j: int| 0 <= j < seen@.len() && (#[trigger] seen@[j])@ == name@,
{
    let mut k: usize = 0;
    while k < seen.len()
        invariant
            k <= seen@.len(),
            forall|j: int| 0 <= j < k ==> (#[trigger] seen@[j])@ != name@,
        decreases seen@.len() - k,
    {
        if chars_eq(seen[k].as_slice(), name) {
            return true;
        }
        k = k + 1;
    }
    false
}

/// The largest `history_bytes` among the websocket clients, if there is one.
pub open spec fn largest_ws_history(cs: Seq<ClientConfig>) -> Option<nat>
    decreases cs.len(),
{
    if cs.len() == 0 {
        None
    } else {
        let rest = largest_ws_history(cs.drop_last());
        match cs.last() {
            ClientConfig::Websocket { history_bytes, .. } => match rest {
                Some(m) if m >= history_bytes => Some(m),
                _ => Some(history_bytes as nat),
            },
            _ => rest,
        }
    }
}

/// How many RX bytes the hub keeps for websocket replay: the largest
/// websocket `history_bytes`, else the default.
pub open spec fn history_capacity_of(cs: Seq<ClientConfig>) -> nat {
    match largest_ws_history(cs) {
        Some(m) => m,
        None => 65_536,
    }
}

impl Config {
    /// How many RX bytes the hub keeps for websocket replay.
    pub fn history_capacity(&self) -> (r: usize)
        ensures
            r == history_capacity_of(self.clients@),
    {
        let mut best: Option<usize> = None;
        let mut i: usize = 0;
        while i < self.clients.len()
            invariant
                i <= self.clients@.len(),
                best == match largest_ws_history(self.clients@.subrange(0, i as int)) {
                    Some(m) => Some(m as usize),
                    None => None::<usize>,
                },
                largest_ws_history(self.clients@.subrange(0, i as int)) matches Some(m) ==> m <= usize::MAX,
            decreases self.clients@.len() - i,
        {
            proof {
                assert(self.clients@.subrange(0, i + 1).drop_last() =~= self.clients@.subrange(0, i as int));
            }
            match &self.clients[i] {
                ClientConfig::Websocket { history_bytes, .. } => {
                    best = match best {
                        Some(m) if m >= *history_bytes => Some(m),
                        _ => Some(*history_bytes),
                    };
                },
                _ => {},
            }
            i = i + 1;
        }
        proof {
            assert(self.clients@.subrange(0, i as int) =~= self.clients@);
        }
        match best {
            Some(m) => m,
            None => 65_536,
        }
    }

    fn validate_head(&self) -> (r: Result<(), String>)
        ensures
            match head_error(*self) {
                Some(e) => r matches Err(m) && m@ == e,
                None => r is Ok,
            },
    {
        let path = chars_of(self.real.path.as_str());
        if blank(&path) {
            return text_error("real.path must not be empty");
        }
        match &self.api.token_env {
            Some(tok) => {
                let (is_blank_tok, bad) = chars_blank_or(tok.as_str(), '=', '\0');
                if is_blank_tok {
                    return text_error("api.token_env must not be empty");
                }
                if bad {
                    return text_error("api.token_env is not a valid environment variable name");
                }
            },
            None => {},
        }
        if self.api.enabled {
            match parse_api_bind(self.api.bind.as_str(), "api.bind") {
                Err(e) => return Err(e),
                Ok(false) => {
                    return text_error3(
                        "plaintext HTTP/WebSocket API must bind to loopback; use an SSH tunnel or a TLS reverse proxy (",
                        self.api.bind.as_str(),
                        ")",
                    );
                },
                Ok(true) => {},
            }
            let mut count: usize = 0;
            let mut i: usize = 0;
            while i < self.clients.len()
                invariant
                    i <= self.clients@.len(),
                    count == global_route_count(self.clients@.subrange(0, i as int), self.api.bind@),
                    count <= i,
                decreases self.clients@.len() - i,
            {
                assert(self.clients@.subrange(0, i + 1).drop_last() =~= self.clients@.subrange(0, i as int));
                if serves_global_route(&self.clients[i], self.api.bind.as_str()) {
                    count = count + 1;
                }
                i = i + 1;
            }
            assert(self.clients@.subrange(0, self.clients@.len() as int) =~= self.clients@);
            if count > 1 {
                return text_error("at most one websocket client may use the global api /v1/stream route");
            }
        }
        Ok(())
    }

    fn validate_lists(&self) -> (r: Result<(), String>)
        ensures
            match cors_error_from(self.api.cors_origins@, 0) {
                Some(e) => r matches Err(m) && m@ == e,
                None => match ws_bind_error_from(self.fanout.ws_binds@, 0) {
                    Some(e) => r matches Err(m) && m@ == e,
                    None => r is Ok,
                },
            },
    {
        let mut i: usize = 0;
        while i < self.api.cors_origins.len()
            invariant
                i <= self.api.cors_origins@.len(),
                cors_error_from(self.api.cors_origins@, 0) == cors_error_from(
                    self.api.cors_origins@,
                    i as int,
                ),
            decreases self.api.cors_origins@.len() - i,
        {
            match validate_cors_origin(self.api.cors_origins[i].as_str()) {
                Err(e) => return Err(e),
                Ok(()) => {},
            }
            i = i + 1;
        }
        let mut j: usize = 0;
        while j < self.fanout.ws_binds.len()
            invariant
                j <= self.fanout.ws_binds@.len(),
                cors_error_from(self.api.cors_origins@, 0) is None,
                ws_bind_error_from(self.fanout.ws_binds@, 0) == ws_bind_error_from(
                    self.fanout.ws_binds@,
                    j as int,
                ),
            decreases self.fanout.ws_binds@.len() - j,
        {
            match validate_websocket_bind_security(self.fanout.ws_binds[j].as_str()) {
                Err(e) => return Err(e),
                Ok(()) => {},
            }
            j = j + 1;
        }
        Ok(())
    }

    fn validate_tx(&self) -> (r: Result<(), String>)
        ensures
            match tx_error(self.tx) {
                Some(e) => r matches Err(m) && m@ == e,
                None => r is Ok,
            },
    {
        let tx = &self.tx;
        if crate::policy::TxMode::parse(tx.mode.as_str()).is_err() {
            return text_error2("unknown tx.mode: ", tx.mode.as_str());
        }
        if crate::policy::SlowClientPolicy::parse(tx.slow_client.as_str()).is_err() {
            return text_error2("unknown tx.slow_client: ", tx.slow_client.as_str());
        }
        if tx.client_queue == 0 {
            return text_error("tx.client_queue must be at least 1");
        }
        if tx.write_lock_ms == 0 {
            return text_error("tx.write_lock_ms must be at least 1");
        }
        if tx.write_timeout_ms == 0 {
            return text_error("tx.write_timeout_ms must be at least 1");
        }
        if tx.max_frame_bytes == 0 {
            return text_error("tx.max_frame_bytes must be at least 1");
        }
        if tx.max_write_bytes == 0 {
            return text_error("tx.max_write_bytes must be at least 1");
        }
        if tx.slow_block_ms == 0 {
            return text_error("tx.slow_block_ms must be at least 1");
        }
        Ok(())
    }

    fn validate_body(&self) -> (r: Result<(), String>)
        ensures
            match body_error(*self) {
                Some(e) => r matches Err(m) && m@ == e,
                None => r is Ok,
            },
    {
        if self.ledger.memory_events == 0 {
            return text_error("ledger.memory_events must be at least 1");
        }
        if self.ledger.memory_bytes == 0 {
            return text_error("ledger.memory_bytes must be at least 1");
        }
        if self.ledger.stream_capacity == 0 {
            return text_error("ledger.stream_capacity must be at least 1");
        }
        if self.ledger.rotate_bytes < 1024 {
            return text_error("ledger.rotate_bytes must be at least 1024");
        }
        let f = self.log.format.as_str();
        if !(str_eq(f, "text") || str_eq(f, "hex") || str_eq(f, "hex+text")) {
            return text_error2("unknown log.format: ", f);
        }
        let parity = to_lowercase(self.real.parity.as_str());
        let p = parity.as_str();
        if !(str_eq(p, "none") || str_eq(p, "odd") || str_eq(p, "even")) {
            return text_error2("unknown real.parity: ", p);
        }
        let flow = to_lowercase(self.real.flow.as_str());
        let fl = flow.as_str();
        if !(str_eq(fl, "none") || str_eq(fl, "software") || str_eq(fl, "hardware")) {
            return text_error2("unknown real.flow: ", fl);
        }
        if !(5 <= self.real.databits && self.real.databits <= 8) {
            return text_error("real.databits must be 5..=8");
        }
        if !(self.real.stopbits == 1 || self.real.stopbits == 2) {
            return text_error("real.stopbits must be 1 or 2");
        }
        Ok(())
    }

    fn validate_clients(&self) -> (r: Result<(), String>)
        ensures
            match clients_error_from(*self, 0) {
                Some(e) => r matches Err(m) && m@ == e,
                None => r is Ok,
            },
    {
        let mut seen: Vec<Vec<char>> = Vec::new();
        let mut i: usize = 0;
        while i < self.clients.len()
            invariant
                i <= self.clients@.len(),
                seen@.len() == i,
                forall|j: int| 0 <= j < i ==> (#[trigger] seen@[j])@ == self.clients@[j].name_view(),
                clients_error_from(*self, 0) == clients_error_from(*self, i as int),
            decreases self.clients@.len() - i,
        {
            let c = &self.clients[i];
            let name = chars_of(c.name());
            if blank(&name) || crate::text::utf8_len_exceeds(&name, 128) || any_control(&name) {
                return text_error(
                    "client name must be non-empty, at most 128 bytes, and contain no control characters",
                );
            }
            if name_seen(&seen, &name) {
                let ghost j = choose|j: int| 0 <= j < seen@.len() && (#[trigger] seen@[j])@ == name@;
                assert(self.clients@[j].name_view() == self.clients@[i as int].name_view());
                return text_error2("duplicate client name: ", c.name());
            }
            assert forall|j: int| 0 <= j < i implies #[trigger] self.clients@[j].name_view() != name@ by {
                assert((seen@[j])@ == self.clients@[j].name_view());
            }
            assert(!(exists|j: int| 0 <= j < i && #[trigger] self.clients@[j].name_view() == name@));
            match c {
                ClientConfig::Tcp { bind, .. } => {
                    match validate_tcp_bind(bind.as_str()) {
                        Err(e) => return Err(e),
                        Ok(()) => {},
                    }
                },
                ClientConfig::Websocket { bind, .. } => match bind {
                    Some(b) => match validate_websocket_bind_security(b.as_str()) {
                        Err(e) => return Err(e),
                        Ok(()) => {},
                    },
                    None => {
                        if !self.api.enabled {
                            return text_error3("websocket client '", c.name(), "' has no bind while api.enabled=false");
                        }
                    },
                },
                ClientConfig::Pty { .. } => {},
            }
            seen.push(name);
            i = i + 1;
        }
        Ok(())
    }

    /// Check the whole configuration; the first refusal in `config_error`'s
    /// order is the error.
    pub fn validate(&self) -> (r: Result<(), String>)
        ensures
            match config_error(*self) {
                Some(e) => r matches Err(m) && m@ == e,
                None => r is Ok,
            },
    {
        match self.validate_head() {
            Err(e) => return Err(e),
            Ok(()) => {},
        }
        match self.validate_lists() {
            Err(e) => return Err(e),
            Ok(()) => {},
        }
        match self.validate_tx() {
            Err(e) => return Err(e),
            Ok(()) => {},
        }
        match self.validate_body() {
            Err(e) => return Err(e),
            Ok(()) => {},
        }
        match self.validate_clients() {
            Err(e) => return Err(e),
            Ok(()) => {},
        }
        if self.rfc2217.enabled {
            match validate_rfc2217_bind(self.rfc2217.bind.as_str()) {
                Err(e) => return Err(e),
                Ok(()) => {},
            }
        }
        Ok(())
    }
}


// ---------------------------------------------------------------------------
// Views, fan-out expansion and the endpoint catalog
// ---------------------------------------------------------------------------

/// The value of a client endpoint configuration.
pub enum ClientSpec {
    Pty { name: Seq<char>, link: Seq<char>, can_write: bool, can_read: bool },
    Tcp { name: Seq<char>, bind: Seq<char>, can_write: bool, can_read: bool },
    Websocket {
        name: Seq<char>,
        bind: Option<Seq<char>>,
        can_write: bool,
        can_read: bool,
        history_bytes: usize,
    },
}

impl ClientSpec {
    pub open spec fn name(self) -> Seq<char> {
        match self {
            ClientSpec::Pty { name, .. } => name,
            ClientSpec::Tcp { name, .. } => name,
            ClientSpec::Websocket { name, .. } => name,
        }
    }
}

impl View for ClientConfig {
    type V = ClientSpec;

    open spec fn view(&self) -> ClientSpec {
        match self {
            ClientConfig::Pty { name, link, can_write, can_read } => ClientSpec::Pty {
                name: name@,
                link: link@,
                can_write: *can_write,
                can_read: *can_read,
            },
            ClientConfig::Tcp { name, bind, can_write, can_read } => ClientSpec::Tcp {
                name: name@,
                bind: bind@,
                can_write: *can_write,
                can_read: *can_read,
            },
            ClientConfig::Websocket { name, bind, can_write, can_read, history_bytes } =>
                ClientSpec::Websocket {
                name: name@,
                bind: match bind {
                    Some(b) => Some(b@),
                    None => None,
                },
                can_write: *can_write,
                can_read: *can_read,
                history_bytes: *history_bytes,
            },
        }
    }
}

/// The values of a list of client configurations.
pub open spec fn clients_view(cs: Seq<ClientConfig>) -> Seq<ClientSpec> {
    cs.map_values(|c: ClientConfig| c@)
}

/// Some client of `cs` is named `name`.
pub open spec fn name_taken(cs: Seq<ClientSpec>, name: Seq<char>) -> bool {
    exists|j: int| 0 <= j < cs.len() && (#[trigger] cs[j]).name() == name
}

/// Append `c` unless its name is taken.
pub open spec fn add_if_new(cs: Seq<ClientSpec>, c: ClientSpec) -> Seq<ClientSpec> {
    if name_taken(cs, c.name()) {
        cs
    } else {
        cs.push(c)
    }
}

/// PTY endpoint `k` of a fan-out.
pub open spec fn pty_client(f: FanoutConfig, k: nat) -> ClientSpec {
    ClientSpec::Pty {
        name: f.pty_name_prefix@ + decimal(k),
        link: f.pty_link_prefix@ + decimal(k),
        can_write: f.pty_can_write,
        can_read: f.pty_can_read,
    }
}

/// The first `n` PTY endpoints added to `cs`.
pub open spec fn expand_pty(cs: Seq<ClientSpec>, f: FanoutConfig, n: nat) -> Seq<ClientSpec>
    decreases n,
{
    if n == 0 {
        cs
    } else {
        add_if_new(expand_pty(cs, f, (n - 1) as nat), pty_client(f, (n - 1) as nat))
    }
}

/// The port of TCP endpoint `k`: the base port plus `k` truncated to 16 bits.
pub open spec fn tcp_port(f: FanoutConfig, k: nat) -> nat {
    f.tcp_base_port as nat + (k % 65536)
}

/// TCP endpoint `k` of a fan-out.
pub open spec fn tcp_client(f: FanoutConfig, k: nat) -> ClientSpec {
    ClientSpec::Tcp {
        name: f.tcp_name_prefix@ + decimal(k),
        bind: f.tcp_host@ + ":"@ + decimal(tcp_port(f, k)),
        can_write: f.tcp_can_write,
        can_read: f.tcp_can_read,
    }
}

/// The first `n` TCP endpoints added to `cs`; the flag is set when a needed
/// port exceeds 65535 (expansion stops there).
pub open spec fn expand_tcp(cs: Seq<ClientSpec>, f: FanoutConfig, n: nat) -> (Seq<ClientSpec>, bool)
    decreases n,
{
    if n == 0 {
        (cs, false)
    } else {
        let (prev, overflow) = expand_tcp(cs, f, (n - 1) as nat);
        let k = (n - 1) as nat;
        if overflow {
            (prev, true)
        } else if name_taken(prev, f.tcp_name_prefix@ + decimal(k)) {
            (prev, false)
        } else if tcp_port(f, k) > 65535 {
            (prev, true)
        } else {
            (prev.push(tcp_client(f, k)), false)
        }
    }
}

/// Dedicated WebSocket endpoint `k` of a fan-out.
pub open spec fn ws_client(f: FanoutConfig, k: int) -> ClientSpec {
    ClientSpec::Websocket {
        name: f.ws_name_prefix@ + decimal(k as nat),
        bind: Some(f.ws_binds@[k]@),
        can_write: f.ws_can_write,
        can_read: f.ws_can_read,
        history_bytes: f.ws_history_bytes,
    }
}

/// The first `n` dedicated WebSocket endpoints added to `cs`.
pub open spec fn expand_ws(cs: Seq<ClientSpec>, f: FanoutConfig, n: nat) -> Seq<ClientSpec>
    decreases n,
{
    if n == 0 {
        cs
    } else {
        add_if_new(expand_ws(cs, f, (n - 1) as nat), ws_client(f, n - 1))
    }
}

/// The clients after fan-out expansion, and whether a TCP port overflowed.
pub open spec fn expansion(cs: Seq<ClientSpec>, f: FanoutConfig) -> (Seq<ClientSpec>, bool) {
    let (t, overflow) = expand_tcp(expand_pty(cs, f, f.pty_count as nat), f, f.tcp_count as nat);
    if overflow {
        (t, true)
    } else {
        (expand_ws(t, f, f.ws_binds@.len()), false)
    }
}

/// `a` is a prefix of `b`.
pub open spec fn is_prefix_of(a: Seq<ClientSpec>, b: Seq<ClientSpec>) -> bool {
    a.len() <= b.len() && b.subrange(0, a.len() as int) == a
}

/// No two clients of `cs` share a name.
pub open spec fn names_distinct(cs: Seq<ClientSpec>) -> bool {
    forall|i: int, j: int| 0 <= i < j < cs.len() ==> (#[trigger] cs[i]).name() != (#[trigger] cs[j]).name()
}

proof fn lemma_prefix_trans(a: Seq<ClientSpec>, b: Seq<ClientSpec>, c: Seq<ClientSpec>)
    requires
        is_prefix_of(a, b),
        is_prefix_of(b, c),
    ensures
        is_prefix_of(a, c),
{
    assert(c.subrange(0, a.len() as int) =~= c.subrange(0, b.len() as int).subrange(0, a.len() as int));
}

proof fn lemma_taken_kept(a: Seq<ClientSpec>, b: Seq<ClientSpec>, x: Seq<char>)
    requires
        is_prefix_of(a, b),
        name_taken(a, x),
    ensures
        name_taken(b, x),
{
    let j = choose|j: int| 0 <= j < a.len() && (#[trigger] a[j]).name() == x;
    assert(b.subrange(0, a.len() as int)[j] == b[j]);
}

proof fn lemma_add_if_new(cs: Seq<ClientSpec>, c: ClientSpec)
    ensures
        is_prefix_of(cs, add_if_new(cs, c)),
        name_taken(add_if_new(cs, c), c.name()),
        names_distinct(cs) ==> names_distinct(add_if_new(cs, c)),
{
    if !name_taken(cs, c.name()) {
        let r = cs.push(c);
        assert(r.subrange(0, cs.len() as int) =~= cs);
        assert(r[cs.len() as int] == c);
        assert(name_taken(r, c.name()));
        if names_distinct(cs) {
            assert forall|i: int, j: int| 0 <= i < j < r.len() implies (#[trigger] r[i]).name() != (#[trigger] r[j]).name() by {
                if j == cs.len() {
                    assert(r[i] == cs[i]);
                } else {
                    assert(r[i] == cs[i] && r[j] == cs[j]);
                }
            }
        }
    } else {
        assert(cs.subrange(0, cs.len() as int) =~= cs);
    }
}

proof fn lemma_expand_pty(cs: Seq<ClientSpec>, f: FanoutConfig, n: nat)
    ensures
        is_prefix_of(cs, expand_pty(cs, f, n)),
        names_distinct(cs) ==> names_distinct(expand_pty(cs, f, n)),
        forall|k: nat| k < n ==> name_taken(expand_pty(cs, f, n), (#[trigger] pty_client(f, k)).name()),
    decreases n,
{
    if n == 0 {
        assert(cs.subrange(0, cs.len() as int) =~= cs);
    } else {
        let prev = expand_pty(cs, f, (n - 1) as nat);
        lemma_expand_pty(cs, f, (n - 1) as nat);
        lemma_add_if_new(prev, pty_client(f, (n - 1) as nat));
        lemma_prefix_trans(cs, prev, expand_pty(cs, f, n));
        assert forall|k: nat| k < n implies name_taken(expand_pty(cs, f, n), (#[trigger] pty_client(f, k)).name()) by {
            if k < n - 1 {
                lemma_taken_kept(prev, expand_pty(cs, f, n), pty_client(f, k).name());
            }
        }
    }
}

proof fn lemma_pty_settled(r: Seq<ClientSpec>, f: FanoutConfig, n: nat)
    requires
        forall|k: nat| k < n ==> name_taken(r, (#[trigger] pty_client(f, k)).name()),
    ensures
        expand_pty(r, f, n) == r,
    decreases n,
{
    if n > 0 {
        lemma_pty_settled(r, f, (n - 1) as nat);
        assert(name_taken(r, pty_client(f, (n - 1) as nat).name()));
    }
}

/// The name of TCP endpoint `k` of a fan-out.
pub open spec fn tcp_name(f: FanoutConfig, k: nat) -> Seq<char> {
    f.tcp_name_prefix@ + decimal(k)
}

proof fn lemma_expand_tcp(cs: Seq<ClientSpec>, f: FanoutConfig, n: nat)
    ensures
        is_prefix_of(cs, expand_tcp(cs, f, n).0),
        names_distinct(cs) ==> names_distinct(expand_tcp(cs, f, n).0),
        !expand_tcp(cs, f, n).1 ==> forall|k: nat| k < n ==> name_taken(expand_tcp(cs, f, n).0, #[trigger] tcp_name(f, k)),
    decreases n,
{
    if n == 0 {
        assert(cs.subrange(0, cs.len() as int) =~= cs);
    } else {
        let k1 = (n - 1) as nat;
        let (prev, overflow) = expand_tcp(cs, f, k1);
        lemma_expand_tcp(cs, f, k1);
        if !overflow && !name_taken(prev, tcp_name(f, k1)) && tcp_port(f, k1) <= 65535 {
            let c = tcp_client(f, k1);
            assert(c.name() == tcp_name(f, k1));
            lemma_add_if_new(prev, c);
            assert(add_if_new(prev, c) == prev.push(c));
            let r = expand_tcp(cs, f, n).0;
            assert(r == prev.push(c));
            lemma_prefix_trans(cs, prev, r);
            assert forall|k: nat| k < n implies name_taken(r, #[trigger] tcp_name(f, k)) by {
                if k < k1 {
                    lemma_taken_kept(prev, r, tcp_name(f, k));
                }
            }
        }
    }
}

proof fn lemma_tcp_settled(r: Seq<ClientSpec>, f: FanoutConfig, n: nat)
    requires
        forall|k: nat| k < n ==> name_taken(r, #[trigger] tcp_name(f, k)),
    ensures
        expand_tcp(r, f, n) == (r, false),
    decreases n,
{
    if n > 0 {
        lemma_tcp_settled(r, f, (n - 1) as nat);
        assert(name_taken(r, tcp_name(f, (n - 1) as nat)));
    }
}

proof fn lemma_expand_ws(cs: Seq<ClientSpec>, f: FanoutConfig, n: nat)
    ensures
        is_prefix_of(cs, expand_ws(cs, f, n)),
        names_distinct(cs) ==> names_distinct(expand_ws(cs, f, n)),
        forall|k: int| 0 <= k < n ==> name_taken(expand_ws(cs, f, n), (#[trigger] ws_client(f, k)).name()),
    decreases n,
{
    if n == 0 {
        assert(cs.subrange(0, cs.len() as int) =~= cs);
    } else {
        let prev = expand_ws(cs, f, (n - 1) as nat);
        lemma_expand_ws(cs, f, (n - 1) as nat);
        lemma_add_if_new(prev, ws_client(f, n - 1));
        lemma_prefix_trans(cs, prev, expand_ws(cs, f, n));
        assert forall|k: int| 0 <= k < n implies name_taken(expand_ws(cs, f, n), (#[trigger] ws_client(f, k)).name()) by {
            if k < n - 1 {
                lemma_taken_kept(prev, expand_ws(cs, f, n), ws_client(f, k).name());
            }
        }
    }
}

proof fn lemma_ws_settled(r: Seq<ClientSpec>, f: FanoutConfig, n: nat)
    requires
        forall|k: int| 0 <= k < n ==> name_taken(r, (#[trigger] ws_client(f, k)).name()),
    ensures
        expand_ws(r, f, n) == r,
    decreases n,
{
    if n > 0 {
        lemma_ws_settled(r, f, (n - 1) as nat);
        assert(name_taken(r, ws_client(f, n - 1).name()));
    }
}

proof fn lemma_no_client_error_from(cfg: Config, k: int)
    requires
        0 <= k,
        clients_error_from(cfg, k) is None,
    ensures
        forall|i: int| k <= i < cfg.clients@.len() ==> #[trigger] client_error(cfg, i) is None,
    decreases cfg.clients@.len() - k,
{
    if k < cfg.clients@.len() {
        lemma_no_client_error_from(cfg, k + 1);
    }
}

/// A configuration that validates keeps every rule: a non-blank device
/// path; known TX mode and slow-client policy with every TX limit at least
/// one; ledger limits at least one and segments of at least 1024 bytes; a
/// known log format, parity and flow control; 5 to 8 data bits and 1 or 2
/// stop bits; client names valid and unique; and the API, every TCP and
/// WebSocket bind and the RFC 2217 listener on loopback.
pub proof fn law_valid_config_keeps_every_rule(cfg: Config)
    requires
        config_error(cfg) is None,
    ensures
        !is_blank(cfg.real.path@),
        crate::policy::tx_mode_named(cfg.tx.mode@) is Some,
        crate::policy::slow_client_named(cfg.tx.slow_client@) is Some,
        cfg.tx.client_queue >= 1 && cfg.tx.write_lock_ms >= 1 && cfg.tx.write_timeout_ms >= 1,
        cfg.tx.max_frame_bytes >= 1 && cfg.tx.max_write_bytes >= 1 && cfg.tx.slow_block_ms >= 1,
        cfg.ledger.memory_events >= 1 && cfg.ledger.memory_bytes >= 1 && cfg.ledger.stream_capacity >= 1,
        cfg.ledger.rotate_bytes >= 1024,
        cfg.log.format@ == "text"@ || cfg.log.format@ == "hex"@ || cfg.log.format@ == "hex+text"@,
        5 <= cfg.real.databits <= 8,
        cfg.real.stopbits == 1 || cfg.real.stopbits == 2,
        cfg.api.enabled ==> socket_addr_loopback(cfg.api.bind@) == Some(true),
        cfg.rfc2217.enabled ==> socket_addr_loopback(cfg.rfc2217.bind@) == Some(true),
        forall|i: int| 0 <= i < cfg.clients@.len() ==> name_ok(#[trigger] cfg.clients@[i].name_view()),
        forall|i: int, j: int|
            0 <= j < i < cfg.clients@.len() ==> (#[trigger] cfg.clients@[j]).name_view()
                != (#[trigger] cfg.clients@[i]).name_view(),
        forall|i: int|
            0 <= i < cfg.clients@.len() ==> match #[trigger] cfg.clients@[i] {
                ClientConfig::Tcp { bind, .. } => socket_addr_loopback(bind@) == Some(true),
                ClientConfig::Websocket { bind, .. } => match bind {
                    Some(b) => socket_addr_loopback(b@) == Some(true),
                    None => cfg.api.enabled,
                },
                ClientConfig::Pty { .. } => true,
            },
{
    lemma_no_client_error_from(cfg, 0);
    assert forall|i: int| 0 <= i < cfg.clients@.len() implies name_ok(#[trigger] cfg.clients@[i].name_view()) by {
        assert(client_error(cfg, i) is None);
    }
    assert forall|i: int, j: int|
        0 <= j < i < cfg.clients@.len() implies (#[trigger] cfg.clients@[j]).name_view()
            != (#[trigger] cfg.clients@[i]).name_view() by {
        assert(client_error(cfg, i) is None);
    }
    assert forall|i: int|
        0 <= i < cfg.clients@.len() implies match #[trigger] cfg.clients@[i] {
            ClientConfig::Tcp { bind, .. } => socket_addr_loopback(bind@) == Some(true),
            ClientConfig::Websocket { bind, .. } => match bind {
                Some(b) => socket_addr_loopback(b@) == Some(true),
                None => cfg.api.enabled,
            },
            ClientConfig::Pty { .. } => true,
        } by {
        assert(client_error(cfg, i) is None);
    }
}

/// Validation is complete as well as sound: a configuration is accepted
/// whenever its path, API, CORS, extra WebSocket binds, TX settings, clients
/// and RFC 2217 listener pass their checks and its ledger limits are at
/// least one (segments at least 1024 bytes), its log format is `text`,
/// `hex` or `hex+text`, its lower-cased parity is `none`, `odd` or `even`,
/// its lower-cased flow control is `none`, `software` or `hardware`, it has
/// 5 to 8 data bits and 1 or 2 stop bits.
pub proof fn law_a_config_keeping_every_rule_validates(cfg: Config)
    requires
        head_error(cfg) is None,
        cors_error_from(cfg.api.cors_origins@, 0) is None,
        ws_bind_error_from(cfg.fanout.ws_binds@, 0) is None,
        tx_error(cfg.tx) is None,
        clients_error_from(cfg, 0) is None,
        !(cfg.rfc2217.enabled && rfc2217_bind_error(cfg.rfc2217.bind@) is Some),
        cfg.ledger.memory_events >= 1,
        cfg.ledger.memory_bytes >= 1,
        cfg.ledger.stream_capacity >= 1,
        cfg.ledger.rotate_bytes >= 1024,
        cfg.log.format@ == "text"@ || cfg.log.format@ == "hex"@ || cfg.log.format@ == "hex+text"@,
        unicode_lowercase(cfg.real.parity@) == "none"@ || unicode_lowercase(cfg.real.parity@) == "odd"@
            || unicode_lowercase(cfg.real.parity@) == "even"@,
        unicode_lowercase(cfg.real.flow@) == "none"@ || unicode_lowercase(cfg.real.flow@) == "software"@
            || unicode_lowercase(cfg.real.flow@) == "hardware"@,
        5 <= cfg.real.databits <= 8,
        cfg.real.stopbits == 1 || cfg.real.stopbits == 2,
    ensures
        config_error(cfg) is None,
{
}

/// The TX settings pass whenever the mode is one of `queue_by_line`,
/// `queue_by_frame`, `exclusive`, `primary_wins`, the slow-client policy one
/// of `drop_oldest`, `drop_newest`, `disconnect_slow`, `block`, and every
/// limit is at least one; and a zero limit is always refused.
pub proof fn law_tx_settings_keeping_every_rule_pass(tx: TxConfig)
    ensures
        ((tx.mode@ == "queue_by_line"@ || tx.mode@ == "queue_by_frame"@ || tx.mode@ == "exclusive"@ || tx.mode@
            == "primary_wins"@) && (tx.slow_client@ == "drop_oldest"@ || tx.slow_client@ == "drop_newest"@
            || tx.slow_client@ == "disconnect_slow"@ || tx.slow_client@ == "block"@) && tx.client_queue >= 1
            && tx.write_lock_ms >= 1 && tx.write_timeout_ms >= 1 && tx.max_frame_bytes >= 1 && tx.max_write_bytes
            >= 1 && tx.slow_block_ms >= 1) ==> tx_error(tx) is None,
        (tx.client_queue == 0 || tx.write_lock_ms == 0 || tx.write_timeout_ms == 0 || tx.max_frame_bytes == 0
            || tx.max_write_bytes == 0 || tx.slow_block_ms == 0) ==> tx_error(tx) is Some,
{
    crate::policy::law_tx_mode_names_round_trip(tx.mode@, crate::policy::TxMode::QueueByLine);
    crate::policy::law_slow_client_names(tx.slow_client@);
}

/// The choice among the accepted parities never decides validation: two
/// configurations that differ only in a parity whose lower-cased form is
/// `none`, `odd` or `even` are both accepted or both refused with the same
/// error.
pub proof fn law_accepted_parities_validate_alike(cfg: Config, other: Config)
    requires
        other == (Config { real: RealPortConfig { parity: other.real.parity, ..cfg.real }, ..cfg }),
        unicode_lowercase(cfg.real.parity@) == "none"@ || unicode_lowercase(cfg.real.parity@) == "odd"@
            || unicode_lowercase(cfg.real.parity@) == "even"@,
        unicode_lowercase(other.real.parity@) == "none"@ || unicode_lowercase(other.real.parity@) == "odd"@
            || unicode_lowercase(other.real.parity@) == "even"@,
    ensures
        config_error(cfg) == config_error(other),
{
    assert(head_error(cfg) == head_error(other));
    assert(clients_error_from(cfg, 0) == clients_error_from(other, 0)) by {
        lemma_clients_error_ignores_real(cfg, other, 0);
    }
    assert(body_error(cfg) == body_error(other));
}

proof fn lemma_clients_error_ignores_real(cfg: Config, other: Config, i: int)
    requires
        other == (Config { real: other.real, ..cfg }),
    ensures
        clients_error_from(cfg, i) == clients_error_from(other, i),
    decreases cfg.clients@.len() - i,
{
    if 0 <= i < cfg.clients@.len() {
        assert(client_error(cfg, i) == client_error(other, i));
        lemma_clients_error_ignores_real(cfg, other, i + 1);
    }
}

/// Whether client `c` is served by the API's own `/v1/stream` route.
pub open spec fn served_by_api(cfg: Config, c: ClientConfig) -> bool {
    cfg.api.enabled && uses_global_route(c, cfg.api.bind@)
}

/// A client's read and write permissions.
pub open spec fn perms_of(c: ClientConfig) -> (bool, bool) {
    match c {
        ClientConfig::Pty { can_read, can_write, .. } => (can_read, can_write),
        ClientConfig::Tcp { can_read, can_write, .. } => (can_read, can_write),
        ClientConfig::Websocket { can_read, can_write, .. } => (can_read, can_write),
    }
}

proof fn lemma_client_endpoints_filter(cfg: Config, n: int)
    requires
        0 <= n <= cfg.clients@.len(),
    ensures
        client_endpoints(cfg, n) == cfg.clients@.take(n).filter(|c: ClientConfig| !served_by_api(cfg, c)).map_values(
            |c: ClientConfig| client_endpoint(cfg, c).unwrap(),
        ),
    decreases n,
{
    reveal(Seq::filter);
    let keep = |c: ClientConfig| !served_by_api(cfg, c);
    let f = |c: ClientConfig| client_endpoint(cfg, c).unwrap();
    if n == 0 {
        assert(cfg.clients@.take(0) =~= Seq::<ClientConfig>::empty());
        assert(cfg.clients@.take(0).filter(keep) =~= Seq::<ClientConfig>::empty());
        assert(cfg.clients@.take(0).filter(keep).map_values(f) =~= Seq::<EndpointSpec>::empty());
    } else {
        lemma_client_endpoints_filter(cfg, n - 1);
        let t = cfg.clients@.take(n);
        assert(t.drop_last() =~= cfg.clients@.take(n - 1));
        assert(t.last() == cfg.clients@[n - 1]);
        let prev = cfg.clients@.take(n - 1).filter(keep);
        let c = cfg.clients@[n - 1];
        if keep(c) {
            assert(t.filter(keep) == prev.push(c));
            assert(prev.push(c).map_values(f) =~= prev.map_values(f).push(f(c)));
        } else {
            assert(t.filter(keep) == prev);
        }
    }
}

/// The endpoint catalog lists, when the API is enabled, its HTTP endpoint
/// and its `/v1/stream` WebSocket endpoint (named after the client served
/// by that route, else `api-stream` with the API's permissions); then one
/// endpoint per client, in order, skipping exactly the WebSocket clients
/// the API's route serves, each with the client's name and permissions.
pub proof fn law_catalog_lists_api_then_clients(cfg: Config)
    ensures
        catalog(cfg) == api_endpoints(cfg) + cfg.clients@.filter(|c: ClientConfig| !served_by_api(cfg, c)).map_values(
            |c: ClientConfig| client_endpoint(cfg, c).unwrap(),
        ),
        api_endpoints(cfg).len() == if cfg.api.enabled {
            2int
        } else {
            0int
        },
        cfg.api.enabled ==> {
            let h = api_endpoints(cfg)[0];
            let w = api_endpoints(cfg)[1];
            &&& h.kind == "http"@ && h.name == "api"@ && h.address == "http://"@ + cfg.api.bind@
            &&& h.can_read == cfg.api.can_read && h.can_write == cfg.api.can_write
            &&& w.kind == "websocket"@ && w.address == "ws://"@ + cfg.api.bind@ + "/v1/stream"@
            &&& match global_ws_index(cfg) {
                Some(k) => w.name == cfg.clients@[k].name_view() && (w.can_read, w.can_write) == perms_of(cfg.clients@[k]),
                None => w.name == "api-stream"@ && w.can_read == cfg.api.can_read && w.can_write == cfg.api.can_write,
            }
        },
        forall|c: ClientConfig|
            !served_by_api(cfg, c) ==> (#[trigger] client_endpoint(cfg, c) matches Some(e) && e.name == c.name_view()
                && (e.can_read, e.can_write) == perms_of(c)),
{
    lemma_client_endpoints_filter(cfg, cfg.clients@.len() as int);
    assert(cfg.clients@.take(cfg.clients@.len() as int) =~= cfg.clients@);
    if cfg.api.enabled {
        lemma_first_global_route(cfg.clients@, cfg.api.bind@, 0);
    }
}

proof fn lemma_first_global_route(clients: Seq<ClientConfig>, api_bind: Seq<char>, i: int)
    requires
        0 <= i,
    ensures
        first_global_route(clients, api_bind, i) matches Some(k) ==> i <= k < clients.len()
            && uses_global_route(clients[k], api_bind),
    decreases clients.len() - i,
{
    if i < clients.len() && !uses_global_route(clients[i], api_bind) {
        lemma_first_global_route(clients, api_bind, i + 1);
    }
}

/// Fan-out expansion keeps the configured clients as a prefix and only
/// appends; clients with distinct names stay distinct; and when it
/// succeeds, expanding its result again changes nothing.
pub proof fn law_fanout_expansion_appends_and_settles(cs: Seq<ClientSpec>, f: FanoutConfig)
    ensures
        is_prefix_of(cs, expansion(cs, f).0),
        names_distinct(cs) ==> names_distinct(expansion(cs, f).0),
        !expansion(cs, f).1 ==> expansion(expansion(cs, f).0, f) == (expansion(cs, f).0, false),
{
    let np = f.pty_count as nat;
    let nt = f.tcp_count as nat;
    let nw = f.ws_binds@.len();
    let p = expand_pty(cs, f, np);
    let (t, overflow) = expand_tcp(p, f, nt);
    lemma_expand_pty(cs, f, np);
    lemma_expand_tcp(p, f, nt);
    lemma_prefix_trans(cs, p, t);
    if !overflow {
        let w = expand_ws(t, f, nw);
        lemma_expand_ws(t, f, nw);
        lemma_prefix_trans(cs, t, w);
        lemma_prefix_trans(p, t, w);
        assert forall|k: nat| k < np implies name_taken(w, (#[trigger] pty_client(f, k)).name()) by {
            lemma_taken_kept(p, w, pty_client(f, k).name());
        }
        assert forall|k: nat| k < nt implies name_taken(w, #[trigger] tcp_name(f, k)) by {
            lemma_taken_kept(t, w, tcp_name(f, k));
        }
        lemma_pty_settled(w, f, np);
        lemma_tcp_settled(w, f, nt);
        lemma_ws_settled(w, f, nw);
    }
}

/// The value of an endpoint description.
pub struct EndpointSpec {
    pub kind: Seq<char>,
    pub name: Seq<char>,
    pub address: Seq<char>,
    pub can_read: bool,
    pub can_write: bool,
    pub note: Seq<char>,
}

impl View for EndpointDesc {
    type V = EndpointSpec;

    open spec fn view(&self) -> EndpointSpec {
        EndpointSpec {
            kind: self.kind@,
            name: self.name@,
            address: self.address@,
            can_read: self.can_read,
            can_write: self.can_write,
            note: self.note@,
        }
    }
}

/// Index of the first client served by the global API WebSocket route, at or after `i`.
pub open spec fn first_global_route(clients: Seq<ClientConfig>, api_bind: Seq<char>, i: int) -> Option<int>
    decreases clients.len() - i,
{
    if i < 0 || i >= clients.len() {
        None
    } else if uses_global_route(clients[i], api_bind) {
        Some(i)
    } else {
        first_global_route(clients, api_bind, i + 1)
    }
}

/// The global API WebSocket identity, if one is configured and the API is enabled.
pub open spec fn global_ws_index(cfg: Config) -> Option<int> {
    if cfg.api.enabled {
        first_global_route(cfg.clients@, cfg.api.bind@, 0)
    } else {
        None
    }
}

/// The endpoints offered by the API listener itself.
pub open spec fn api_endpoints(cfg: Config) -> Seq<EndpointSpec> {
    if !cfg.api.enabled {
        Seq::empty()
    } else {
        let http = EndpointSpec {
            kind: "http"@,
            name: "api"@,
            address: "http://"@ + cfg.api.bind@,
            can_read: cfg.api.can_read,
            can_write: cfg.api.can_write,
            note: "control plane; unlimited concurrent WS on /v1/stream"@,
        };
        let (name, can_read, can_write) = match global_ws_index(cfg) {
            Some(k) => match cfg.clients@[k] {
                ClientConfig::Websocket { name, can_read, can_write, .. } => (name@, can_read, can_write),
                _ => ("api-stream"@, cfg.api.can_read, cfg.api.can_write),
            },
            None => ("api-stream"@, cfg.api.can_read, cfg.api.can_write),
        };
        let ws = EndpointSpec {
            kind: "websocket"@,
            name,
            address: "ws://"@ + cfg.api.bind@ + "/v1/stream"@,
            can_read,
            can_write,
            note: "many agents/tools can connect at once; full RX fan-out"@,
        };
        seq![http, ws]
    }
}

/// The endpoint a client contributes, if any (WebSocket clients on the global
/// route are represented by the API's stream endpoint).
pub open spec fn client_endpoint(cfg: Config, c: ClientConfig) -> Option<EndpointSpec> {
    match c {
        ClientConfig::Pty { name, link, can_write, can_read } => Some(
            EndpointSpec {
                kind: "pty"@,
                name: name@,
                address: link@,
                can_read,
                can_write,
                note: "virtual serial for classic host tools (one opener per PTY)"@,
            },
        ),
        ClientConfig::Tcp { name, bind, can_write, can_read } => Some(
            EndpointSpec {
                kind: "tcp"@,
                name: name@,
                address: bind@,
                can_read,
                can_write,
                note: "raw stream; many concurrent TCP clients per bind"@,
            },
        ),
        ClientConfig::Websocket { name, bind, can_write, can_read, .. } => if cfg.api.enabled
            && uses_global_route(c, cfg.api.bind@) {
            None
        } else {
            Some(
                EndpointSpec {
                    kind: "websocket"@,
                    name: name@,
                    address: match bind {
                        Some(b) => "ws://"@ + b@ + "/v1/stream"@,
                        None => "ws://"@ + cfg.api.bind@ + "/v1/stream"@,
                    },
                    can_read,
                    can_write,
                    note: if bind is Some {
                        "dedicated WS/HTTP server bind"@
                    } else {
                        "served by primary [api] server"@
                    },
                },
            )
        },
    }
}

/// The endpoints of the first `n` clients.
pub open spec fn client_endpoints(cfg: Config, n: int) -> Seq<EndpointSpec>
    decreases n,
{
    if n <= 0 {
        Seq::empty()
    } else {
        let prev = client_endpoints(cfg, n - 1);
        match client_endpoint(cfg, cfg.clients@[n - 1]) {
            Some(e) => prev.push(e),
            None => prev,
        }
    }
}

/// Every endpoint a configuration offers: the API's own, then each client's.
pub open spec fn catalog(cfg: Config) -> Seq<EndpointSpec> {
    api_endpoints(cfg) + client_endpoints(cfg, cfg.clients@.len() as int)
}

fn make_endpoint(kind: &str, name: &str, address: String, can_read: bool, can_write: bool, note: &str) -> (e: EndpointDesc)
    ensures
        e@ == (EndpointSpec { kind: kind@, name: name@, address: address@, can_read, can_write, note: note@ }),
{
    EndpointDesc {
        kind: owned(kind),
        name: owned(name),
        address,
        can_read,
        can_write,
        note: owned(note),
    }
}

/// Whether some client in `cs` is named `name`.
fn has_client_named(cs: &Vec<ClientConfig>, name: &str) -> (r: bool)
    ensures
        r == name_taken(clients_view(cs@), name@),
{
    let mut k: usize = 0;
    while k < cs.len()
        invariant
            k <= cs@.len(),
            forall|j: int| 0 <= j < k ==> (#[trigger] cs@[j])@.name() != name@,
        decreases cs@.len() - k,
    {
        if str_eq(cs[k].name(), name) {
            assert(clients_view(cs@)[k as int].name() == name@);
            return true;
        }
        k = k + 1;
    }
    assert forall|j: int| 0 <= j < clients_view(cs@).len() implies (#[trigger] clients_view(
        cs@,
    )[j]).name() != name@ by {
        assert(clients_view(cs@)[j] == cs@[j]@);
    }
    false
}

/// Once a TCP port overflows, later endpoints change nothing.
pub proof fn lemma_tcp_overflow_persists(cs: Seq<ClientSpec>, f: FanoutConfig, k: nat, n: nat)
    requires
        k <= n,
        expand_tcp(cs, f, k).1,
    ensures
        expand_tcp(cs, f, n) == expand_tcp(cs, f, k),
    decreases n - k,
{
    if k < n {
        lemma_tcp_overflow_persists(cs, f, k, (n - 1) as nat);
    }
}

impl Config {
    /// WebSocket identity served by the global API listener, if explicitly
    /// configured: its name, read and write permissions, and history size.
    pub fn global_websocket_client(&self) -> (r: Option<(&str, bool, bool, usize)>)
        ensures
            match global_ws_index(*self) {
                None => r is None,
                Some(k) => r is Some && (match self.clients@[k] {
                    ClientConfig::Websocket { name, can_read, can_write, history_bytes, .. } =>
                        r.unwrap().0@ == name@ && r.unwrap().1 == can_read && r.unwrap().2
                        == can_write && r.unwrap().3 == history_bytes,
                    _ => false,
                }),
            },
    {
        if !self.api.enabled {
            return None;
        }
        let mut i: usize = 0;
        while i < self.clients.len()
            invariant
                self.api.enabled,
                i <= self.clients@.len(),
                first_global_route(self.clients@, self.api.bind@, 0) == first_global_route(
                    self.clients@,
                    self.api.bind@,
                    i as int,
                ),
            decreases self.clients@.len() - i,
        {
            let c = &self.clients[i];
            if serves_global_route(c, self.api.bind.as_str()) {
                match c {
                    ClientConfig::Websocket { name, can_write, can_read, history_bytes, .. } => {
                        return Some((name.as_str(), *can_read, *can_write, *history_bytes));
                    },
                    _ => {},
                }
            }
            i = i + 1;
        }
        None
    }

    /// Expand `[fanout]` into concrete clients. Generated names already in use
    /// are skipped; a TCP port past 65535 stops expansion with an error.
    pub fn expand_fanout(&mut self) -> (r: Result<(), String>)
        ensures
            ({
                let (cs, overflow) = expansion(clients_view(old(self).clients@), old(self).fanout);
                &&& clients_view(final(self).clients@) == cs
                &&& overflow ==> (r matches Err(e) && e@ == "tcp_base_port overflow"@)
                &&& !overflow ==> r is Ok
                &&& final(self).real == old(self).real
                &&& final(self).tx == old(self).tx
                &&& final(self).fanout == old(self).fanout
                &&& final(self).log == old(self).log
                &&& final(self).ledger == old(self).ledger
                &&& final(self).api == old(self).api
                &&& final(self).rfc2217 == old(self).rfc2217
            }),
    {
        let ghost start = clients_view(self.clients@);
        let mut i: u32 = 0;
        while i < self.fanout.pty_count
            invariant
                i <= self.fanout.pty_count,
                self.fanout == old(self).fanout,
                self.real == old(self).real && self.tx == old(self).tx && self.log == old(self).log
                    && self.ledger == old(self).ledger && self.api == old(self).api
                    && self.rfc2217 == old(self).rfc2217,
                start == clients_view(old(self).clients@),
                clients_view(self.clients@) == expand_pty(start, self.fanout, i as nat),
            decreases self.fanout.pty_count - i,
        {
            let digits = decimal_string(i as u64);
            let name = concat_strs(self.fanout.pty_name_prefix.as_str(), digits.as_str());
            if !has_client_named(&self.clients, name.as_str()) {
                let link = concat_strs(self.fanout.pty_link_prefix.as_str(), digits.as_str());
                let c = ClientConfig::Pty {
                    name,
                    link,
                    can_write: self.fanout.pty_can_write,
                    can_read: self.fanout.pty_can_read,
                };
                let ghost before = self.clients@;
                self.clients.push(c);
                assert(clients_view(self.clients@) =~= clients_view(before).push(c@));
            }
            i = i + 1;
        }
        let ghost after_pty = clients_view(self.clients@);
        let mut t: u32 = 0;
        while t < self.fanout.tcp_count
            invariant
                t <= self.fanout.tcp_count,
                self.fanout == old(self).fanout,
                self.real == old(self).real && self.tx == old(self).tx && self.log == old(self).log
                    && self.ledger == old(self).ledger && self.api == old(self).api
                    && self.rfc2217 == old(self).rfc2217,
                after_pty == expand_pty(clients_view(old(self).clients@), self.fanout, self.fanout.pty_count as nat),
                expand_tcp(after_pty, self.fanout, t as nat) == (clients_view(self.clients@), false),
            decreases self.fanout.tcp_count - t,
        {
            let digits = decimal_string(t as u64);
            let name = concat_strs(self.fanout.tcp_name_prefix.as_str(), digits.as_str());
            if !has_client_named(&self.clients, name.as_str()) {
                let offset = (t % 65536) as u16;
                match self.fanout.tcp_base_port.checked_add(offset) {
                    None => {
                        proof {
                            let k = t as nat;
                            assert(expand_tcp(after_pty, self.fanout, k + 1).1);
                            lemma_tcp_overflow_persists(after_pty, self.fanout, k + 1, self.fanout.tcp_count as nat);
                        }
                        return Err(owned("tcp_base_port overflow"));
                    },
                    Some(port) => {
                        let port_text = decimal_string(port as u64);
                        let host_colon = concat_strs(self.fanout.tcp_host.as_str(), ":");
                        let bind = concat_strs(host_colon.as_str(), port_text.as_str());
                        let c = ClientConfig::Tcp {
                            name,
                            bind,
                            can_write: self.fanout.tcp_can_write,
                            can_read: self.fanout.tcp_can_read,
                        };
                        let ghost before = self.clients@;
                        self.clients.push(c);
                        assert(clients_view(self.clients@) =~= clients_view(before).push(c@));
                    },
                }
            }
            t = t + 1;
        }
        let ghost after_tcp = clients_view(self.clients@);
        let mut w: usize = 0;
        while w < self.fanout.ws_binds.len()
            invariant
                w <= self.fanout.ws_binds@.len(),
                self.fanout == old(self).fanout,
                self.real == old(self).real && self.tx == old(self).tx && self.log == old(self).log
                    && self.ledger == old(self).ledger && self.api == old(self).api
                    && self.rfc2217 == old(self).rfc2217,
                expansion(clients_view(old(self).clients@), self.fanout) == (expand_ws(after_tcp, self.fanout, self.fanout.ws_binds@.len()), false),
                clients_view(self.clients@) == expand_ws(after_tcp, self.fanout, w as nat),
            decreases self.fanout.ws_binds@.len() - w,
        {
            let digits = decimal_string(w as u64);
            let name = concat_strs(self.fanout.ws_name_prefix.as_str(), digits.as_str());
            if !has_client_named(&self.clients, name.as_str()) {
                let c = ClientConfig::Websocket {
                    name,
                    bind: Some(owned(self.fanout.ws_binds[w].as_str())),
                    can_write: self.fanout.ws_can_write,
                    can_read: self.fanout.ws_can_read,
                    history_bytes: self.fanout.ws_history_bytes,
                };
                let ghost before = self.clients@;
                self.clients.push(c);
                assert(clients_view(self.clients@) =~= clients_view(before).push(c@));
            }
            w = w + 1;
        }
        Ok(())
    }

    /// Describe all endpoints that will be offered (after expansion).
    pub fn endpoint_catalog(&self) -> (out: Vec<EndpointDesc>)
        ensures
            out@.map_values(|e: EndpointDesc| e@) == catalog(*self),
    {
        let mut out: Vec<EndpointDesc> = Vec::new();
        if self.api.enabled {
            let http = make_endpoint(
                "http",
                "api",
                concat_strs("http://", self.api.bind.as_str()),
                self.api.can_read,
                self.api.can_write,
                "control plane; unlimited concurrent WS on /v1/stream",
            );
            let (stream_name, stream_can_read, stream_can_write) = match self.global_websocket_client() {
                Some((name, can_read, can_write, _)) => (name, can_read, can_write),
                None => ("api-stream", self.api.can_read, self.api.can_write),
            };
            let a = concat_strs("ws://", self.api.bind.as_str());
            let ws = make_endpoint(
                "websocket",
                stream_name,
                concat_strs(a.as_str(), "/v1/stream"),
                stream_can_read,
                stream_can_write,
                "many agents/tools can connect at once; full RX fan-out",
            );
            out.push(http);
            out.push(ws);
        }
        let ghost base = out@.map_values(|e: EndpointDesc| e@);
        assert(base =~= api_endpoints(*self));
        let mut i: usize = 0;
        while i < self.clients.len()
            invariant
                i <= self.clients@.len(),
                base == api_endpoints(*self),
                out@.map_values(|e: EndpointDesc| e@) == base + client_endpoints(*self, i as int),
            decreases self.clients@.len() - i,
        {
            let ghost before = out@;
            let ghost ce = client_endpoint(*self, self.clients@[i as int]);
            let c = &self.clients[i];
            match c {
                ClientConfig::Pty { name, link, can_write, can_read } => {
                    out.push(make_endpoint("pty", name.as_str(), owned(link.as_str()), *can_read, *can_write,
                        "virtual serial for classic host tools (one opener per PTY)"));
                },
                ClientConfig::Tcp { name, bind, can_write, can_read } => {
                    out.push(make_endpoint("tcp", name.as_str(), owned(bind.as_str()), *can_read, *can_write,
                        "raw stream; many concurrent TCP clients per bind"));
                },
                ClientConfig::Websocket { name, bind, can_write, can_read, .. } => {
                    if !(self.api.enabled && serves_global_route(c, self.api.bind.as_str())) {
                        let (addr, note) = match bind {
                            Some(b) => {
                                let a = concat_strs("ws://", b.as_str());
                                (concat_strs(a.as_str(), "/v1/stream"), "dedicated WS/HTTP server bind")
                            },
                            None => {
                                let a = concat_strs("ws://", self.api.bind.as_str());
                                (concat_strs(a.as_str(), "/v1/stream"), "served by primary [api] server")
                            },
                        };
                        out.push(make_endpoint("websocket", name.as_str(), addr, *can_read, *can_write, note));
                    }
                },
            }
            proof {
                if ce is Some {
                    assert(out@.map_values(|e: EndpointDesc| e@) =~= before.map_values(|e: EndpointDesc| e@).push(ce.unwrap()));
                } else {
                    assert(out@ == before);
                }
                let prev = client_endpoints(*self, i as int);
                assert(client_endpoints(*self, i + 1) == match client_endpoint(*self, self.clients@[i as int]) {
                    Some(e) => prev.push(e),
                    None => prev,
                });
                assert(out@.map_values(|e: EndpointDesc| e@) =~= base + client_endpoints(*self, i + 1));
            }
            i = i + 1;
        }
        assert(catalog(*self) == base + client_endpoints(*self, self.clients@.len() as int));
        out
    }
}


// ---------------------------------------------------------------------------
// Quick share and the connection guide
// ---------------------------------------------------------------------------

/// `c` is the configuration a quick share describes, before fan-out expansion
/// of its clients.
pub open spec fn quick_shaped(q: QuickShare, c: Config) -> bool {
    &&& c.real.path@ == q.device@
    &&& c.real.baud == q.baud
    &&& c.real.databits == 8
    &&& c.real.parity@ == "none"@
    &&& c.real.stopbits == 1
    &&& c.real.flow@ == "none"@
    &&& c.real.reconnect
    &&& c.real.reconnect_ms == 1000
    &&& c.real.read_timeout_ms == 50
    &&& c.real.usb is None
    &&& c.tx.is_default()
    &&& c.fanout.pty_count == q.pty_count
    &&& c.fanout.pty_link_prefix@ == "/tmp/ohmyserial-v"@
    &&& c.fanout.pty_name_prefix@ == "v"@
    &&& c.fanout.pty_can_write && c.fanout.pty_can_read
    &&& c.fanout.tcp_count == q.tcp_count
    &&& c.fanout.tcp_host@ == "127.0.0.1"@
    &&& c.fanout.tcp_base_port == q.tcp_base_port
    &&& c.fanout.tcp_name_prefix@ == "tcp"@
    &&& c.fanout.tcp_can_write && c.fanout.tcp_can_read
    &&& c.fanout.ws_binds@.len() == 0
    &&& c.fanout.ws_name_prefix@ == "ws"@
    &&& c.fanout.ws_history_bytes == 65_536
    &&& c.fanout.ws_can_write && c.fanout.ws_can_read
    &&& c.log.file is None
    &&& c.log.mirror_console == q.mirror_console
    &&& c.log.format@ == "hex+text"@
    &&& c.ledger.directory is None && c.ledger.memory_events == 16_384 && c.ledger.memory_bytes
        == 32 * 1024 * 1024 && c.ledger.stream_capacity == 1024 && c.ledger.rotate_bytes == 64
        * 1024 * 1024 && !c.ledger.fsync_each_event
    &&& c.api.bind@ == q.api_bind@
    &&& c.api.enabled && c.api.token_env is None && c.api.cors_origins@.len() == 0
    &&& c.api.can_read && c.api.can_write && c.api.can_control
    &&& !c.rfc2217.enabled && c.rfc2217.bind@ == "127.0.0.1:2217"@
}

impl Config {
    /// Build a ready-to-run configuration from CLI flags: fan-out endpoints
    /// are expanded and the result validated.
    #[verifier::rlimit(50)]
    pub fn from_quick(q: QuickShare) -> (r: Result<Config, String>)
        ensures
            r matches Ok(cfg) ==> quick_shaped(q, cfg) && clients_view(cfg.clients@) == expansion(
                Seq::empty(),
                cfg.fanout,
            ).0 && !expansion(Seq::empty(), cfg.fanout).1 && config_error(cfg) is None,
            r matches Err(e) ==> exists|c: Config|
                quick_shaped(q, c) && c.clients@.len() == 0 && ((expansion(Seq::empty(), c.fanout).1
                    && e@ == "tcp_base_port overflow"@) || (!expansion(Seq::empty(), c.fanout).1
                    && exists|d: Config|
                    quick_shaped(q, d) && clients_view(d.clients@) == expansion(
                        Seq::empty(),
                        d.fanout,
                    ).0 && config_error(d) == Some(e@))),
    {
        let mut cfg = Config {
            real: RealPortConfig {
                path: q.device,
                baud: q.baud,
                databits: 8,
                parity: owned("none"),
                stopbits: 1,
                flow: owned("none"),
                reconnect: true,
                reconnect_ms: 1000,
                read_timeout_ms: 50,
                usb: None,
            },
            tx: TxConfig::default(),
            clients: Vec::new(),
            fanout: FanoutConfig {
                pty_count: q.pty_count,
                pty_link_prefix: default_pty_link_prefix(),
                pty_name_prefix: default_pty_name_prefix(),
                pty_can_write: true,
                pty_can_read: true,
                tcp_count: q.tcp_count,
                tcp_host: default_tcp_host(),
                tcp_base_port: q.tcp_base_port,
                tcp_name_prefix: default_tcp_name_prefix(),
                tcp_can_write: true,
                tcp_can_read: true,
                ws_binds: Vec::new(),
                ws_name_prefix: default_ws_name_prefix(),
                ws_history_bytes: default_history_bytes(),
                ws_can_write: true,
                ws_can_read: true,
            },
            log: LogConfig { file: None, mirror_console: q.mirror_console, format: owned("hex+text") },
            ledger: LedgerConfig::default(),
            api: ApiConfig {
                bind: q.api_bind,
                enabled: true,
                token_env: None,
                cors_origins: Vec::new(),
                can_read: true,
                can_write: true,
                can_control: true,
            },
            rfc2217: Rfc2217Config::default(),
        };
        let ghost initial = cfg;
        assert(clients_view(cfg.clients@) =~= Seq::<ClientSpec>::empty());
        assert(quick_shaped(q, initial));
        match cfg.expand_fanout() {
            Err(e) => {
                assert(expansion(Seq::empty(), initial.fanout).1);
                return Err(e);
            },
            Ok(()) => {},
        }
        assert(quick_shaped(q, cfg));
        match cfg.validate() {
            Err(e) => {
                assert(quick_shaped(q, cfg) && clients_view(cfg.clients@) == expansion(
                    Seq::empty(),
                    cfg.fanout,
                ).0 && config_error(cfg) == Some(e@));
                return Err(e);
            },
            Ok(()) => {},
        }
        Ok(cfg)
    }
}

/// `n` spaces.
pub open spec fn spaces(n: nat) -> Seq<char> {
    Seq::new(n, |i: int| ' ')
}

/// `s` padded with spaces on the right to at least `n` characters (`{s:<n$}`).
pub open spec fn pad_right(s: Seq<char>, n: nat) -> Seq<char> {
    if s.len() >= n {
        s
    } else {
        s + spaces((n - s.len()) as nat)
    }
}

/// `s` fitted to `max` characters: padded when short, otherwise cut to
/// `max - 1` characters followed by an ellipsis.
pub open spec fn truncate_spec(s: Seq<char>, max: nat) -> Seq<char> {
    if s.len() <= max {
        pad_right(s, max)
    } else {
        pad_right(s.subrange(0, if max == 0 { 0 } else { max - 1 }).push('\u{2026}'), max)
    }
}

/// `s` padded with spaces on the right to at least `n` characters.
pub fn pad_right_string(s: &str, n: usize) -> (r: String)
    ensures
        r@ == pad_right(s@, n as nat),
{
    let cs = chars_of(s);
    let mut out: Vec<char> = cs;
    while out.len() < n
        invariant
            s@.len() <= out@.len() || out@.len() < n,
            out@.len() >= s@.len(),
            out@.subrange(0, s@.len() as int) == s@,
            forall|j: int| s@.len() <= j < out@.len() ==> out@[j] == ' ',
            out@.len() <= if s@.len() >= n { s@.len() } else { n as nat },
        decreases n - out@.len(),
    {
        out.push(' ');
    }
    assert(out@ =~= pad_right(s@, n as nat));
    crate::text::string_from_chars(&out)
}

/// Fit `s` to `max` characters for the connection guide.
pub fn truncate(s: &str, max: usize) -> (r: String)
    ensures
        r@ == truncate_spec(s@, max as nat),
{
    let cs = chars_of(s);
    if cs.len() <= max {
        pad_right_string(s, max)
    } else {
        let keep = if max == 0 {
            0
        } else {
            max - 1
        };
        let mut t: Vec<char> = Vec::new();
        let mut i: usize = 0;
        while i < keep
            invariant
                keep < cs@.len(),
                i <= keep,
                t@ == cs@.subrange(0, i as int),
            decreases keep - i,
        {
            t.push(cs[i]);
            i = i + 1;
        }
        t.push('\u{2026}');
        let ts = crate::text::string_from_chars(&t);
        pad_right_string(ts.as_str(), max)
    }
}

/// The guide's label for an endpoint kind.
pub open spec fn kind_label(kind: Seq<char>) -> Seq<char> {
    if kind == "pty"@ {
        "SERIAL"@
    } else if kind == "tcp"@ {
        "TCP   "@
    } else if kind == "websocket"@ {
        "WS    "@
    } else if kind == "http"@ {
        "HTTP  "@
    } else {
        "OTHER "@
    }
}

pub open spec fn guide_rule() -> Seq<char> {
    "\u{251c}\u{2500}\u{2500}\u{2500}\u{2500}\u{2500}\u{2500}\u{2500}\u{2500}\u{2500}\u{2500}\u{2500}\u{2500}\u{2500}\u{2500}\u{2500}\u{2500}\u{2500}\u{2500}\u{2500}\u{2500}\u{2500}\u{2500}\u{2500}\u{2500}\u{2500}\u{2500}\u{2500}\u{2500}\u{2500}\u{2500}\u{2500}\u{2500}\u{2500}\u{2500}\u{2500}\u{2500}\u{2500}\u{2500}\u{2500}\u{2500}\u{2500}\u{2500}\u{2500}\u{2500}\u{2500}\u{2500}\u{2500}\u{2500}\u{2500}\u{2500}\u{2500}\u{2500}\u{2500}\u{2500}\u{2500}\u{2500}\u{2500}\u{2500}\u{2500}\u{2500}\u{2500}\u{2524}"@
}

/// The guide line of one endpoint.
pub open spec fn endpoint_line(e: EndpointSpec) -> Seq<char> {
    "\u{2502}  "@ + kind_label(e.kind) + " "@ + truncate_spec(e.address, 52) + "\u{2502}"@
}

/// The guide lines of a list of endpoints.
pub open spec fn endpoint_lines(es: Seq<EndpointSpec>) -> Seq<Seq<char>> {
    es.map_values(|e: EndpointSpec| endpoint_line(e))
}

/// The lines of the connection guide.
pub open spec fn guide_lines(cfg: Config) -> Seq<Seq<char>> {
    guide_head(cfg) + endpoint_lines(catalog(cfg)) + seq![guide_rule()] + guide_ui(cfg) + guide_tail()
}

/// The guide's title block.
pub open spec fn guide_head(cfg: Config) -> Seq<Seq<char>> {
    seq![
        ""@,
        "\u{250c}\u{2500}\u{2500}\u{2500}\u{2500}\u{2500}\u{2500}\u{2500}\u{2500}\u{2500}\u{2500}\u{2500}\u{2500}\u{2500}\u{2500}\u{2500}\u{2500}\u{2500}\u{2500}\u{2500}\u{2500}\u{2500}\u{2500}\u{2500}\u{2500}\u{2500}\u{2500}\u{2500}\u{2500}\u{2500}\u{2500}\u{2500}\u{2500}\u{2500}\u{2500}\u{2500}\u{2500}\u{2500}\u{2500}\u{2500}\u{2500}\u{2500}\u{2500}\u{2500}\u{2500}\u{2500}\u{2500}\u{2500}\u{2500}\u{2500}\u{2500}\u{2500}\u{2500}\u{2500}\u{2500}\u{2500}\u{2500}\u{2500}\u{2500}\u{2500}\u{2500}\u{2500}\u{2510}"@,
        "\u{2502}  ohmyserial \u{2014} how to connect (same live data everywhere)   \u{2502}"@,
        guide_rule(),
        "\u{2502}  REAL   "@ + pad_right(truncate_spec(cfg.real.path@, 52), 52) + "\u{2502}"@,
        "\u{2502}  BAUD   "@ + pad_right(decimal(cfg.real.baud as nat), 52) + "\u{2502}"@,
        guide_rule(),
    ]
}

/// The guide's UI line, when the API is enabled.
pub open spec fn guide_ui(cfg: Config) -> Seq<Seq<char>> {
    if cfg.api.enabled {
        seq!["\u{2502}  UI     "@ + pad_right(truncate_spec("http://"@ + cfg.api.bind@ + "/"@, 52), 52) + "\u{2502}"@]
    } else {
        Seq::empty()
    }
}

pub open spec fn guide_tail() -> Seq<Seq<char>> {
    seq![
        guide_rule(),
        "\u{2502}  Tips                                                       \u{2502}"@,
        "\u{2502}  \u{2022} Browser UI: open the UI URL above (embedded console)     \u{2502}"@,
        "\u{2502}  \u{2022} Open each SERIAL path in a different serial app          \u{2502}"@,
        "\u{2502}  \u{2022} Agent: WebSocket stream + HTTP POST /v1/write            \u{2502}"@,
        "\u{2502}  \u{2022} Many programs can share one TCP port                     \u{2502}"@,
        "\u{2502}  \u{2022} curl http://127.0.0.1:8787/v1/endpoints                  \u{2502}"@,
        "\u{2502}  \u{2022} Ctrl+C to stop                                           \u{2502}"@,
        "\u{2514}\u{2500}\u{2500}\u{2500}\u{2500}\u{2500}\u{2500}\u{2500}\u{2500}\u{2500}\u{2500}\u{2500}\u{2500}\u{2500}\u{2500}\u{2500}\u{2500}\u{2500}\u{2500}\u{2500}\u{2500}\u{2500}\u{2500}\u{2500}\u{2500}\u{2500}\u{2500}\u{2500}\u{2500}\u{2500}\u{2500}\u{2500}\u{2500}\u{2500}\u{2500}\u{2500}\u{2500}\u{2500}\u{2500}\u{2500}\u{2500}\u{2500}\u{2500}\u{2500}\u{2500}\u{2500}\u{2500}\u{2500}\u{2500}\u{2500}\u{2500}\u{2500}\u{2500}\u{2500}\u{2500}\u{2500}\u{2500}\u{2500}\u{2500}\u{2500}\u{2500}\u{2500}\u{2518}"@,
        ""@,
    ]
}

/// `lines` joined by `sep`.
pub open spec fn join_lines(lines: Seq<Seq<char>>, sep: Seq<char>) -> Seq<char>
    decreases lines.len(),
{
    if lines.len() == 0 {
        Seq::empty()
    } else if lines.len() == 1 {
        lines[0]
    } else {
        join_lines(lines.drop_last(), sep) + sep + lines.last()
    }
}

/// Join `lines` with newlines.
fn join_newlines(lines: &Vec<String>) -> (r: String)
    ensures
        r@ == join_lines(lines@.map_values(|l: String| l@), "\n"@),
{
    let mut out = String::new();
    let mut i: usize = 0;
    while i < lines.len()
        invariant
            i <= lines@.len(),
            out@ == join_lines(lines@.subrange(0, i as int).map_values(|l: String| l@), "\n"@),
        decreases lines@.len() - i,
    {
        let ghost prev = lines@.subrange(0, i as int).map_values(|l: String| l@);
        let ghost next = lines@.subrange(0, i + 1).map_values(|l: String| l@);
        assert(next.drop_last() =~= prev);
        if i > 0 {
            out = concat_strs(out.as_str(), "\n");
        }
        out = concat_strs(out.as_str(), lines[i].as_str());
        i = i + 1;
    }
    assert(lines@.subrange(0, lines@.len() as int) =~= lines@);
    out
}

fn push_line(lines: &mut Vec<String>, a: &str)
    ensures
        final(lines)@.map_values(|l: String| l@) == old(lines)@.map_values(|l: String| l@).push(a@),
{
    lines.push(owned(a));
    assert(final(lines)@.map_values(|l: String| l@) =~= old(lines)@.map_values(|l: String| l@).push(a@));
}

fn push_framed(lines: &mut Vec<String>, a: &str, b: &str)
    ensures
        final(lines)@.map_values(|l: String| l@) == old(lines)@.map_values(|l: String| l@).push(
            a@ + b@ + "\u{2502}"@,
        ),
{
    let x = concat_strs(a, b);
    let y = concat_strs(x.as_str(), "\u{2502}");
    lines.push(y);
    assert(final(lines)@.map_values(|l: String| l@) =~= old(lines)@.map_values(|l: String| l@).push(
        a@ + b@ + "\u{2502}"@,
    ));
}

fn kind_label_of(kind: &str) -> (r: &'static str)
    ensures
        r@ == kind_label(kind@),
{
    if str_eq(kind, "pty") {
        "SERIAL"
    } else if str_eq(kind, "tcp") {
        "TCP   "
    } else if str_eq(kind, "websocket") {
        "WS    "
    } else if str_eq(kind, "http") {
        "HTTP  "
    } else {
        "OTHER "
    }
}

impl Config {
    /// Human-readable "how to connect" card for terminals.
    pub fn connect_guide(&self) -> (r: String)
        ensures
            r@ == join_lines(guide_lines(*self), "\n"@),
    {
        let mut lines: Vec<String> = Vec::new();
        let rule = "\u{251c}\u{2500}\u{2500}\u{2500}\u{2500}\u{2500}\u{2500}\u{2500}\u{2500}\u{2500}\u{2500}\u{2500}\u{2500}\u{2500}\u{2500}\u{2500}\u{2500}\u{2500}\u{2500}\u{2500}\u{2500}\u{2500}\u{2500}\u{2500}\u{2500}\u{2500}\u{2500}\u{2500}\u{2500}\u{2500}\u{2500}\u{2500}\u{2500}\u{2500}\u{2500}\u{2500}\u{2500}\u{2500}\u{2500}\u{2500}\u{2500}\u{2500}\u{2500}\u{2500}\u{2500}\u{2500}\u{2500}\u{2500}\u{2500}\u{2500}\u{2500}\u{2500}\u{2500}\u{2500}\u{2500}\u{2500}\u{2500}\u{2500}\u{2500}\u{2500}\u{2500}\u{2500}\u{2524}";
        push_line(&mut lines, "");
        push_line(&mut lines, "\u{250c}\u{2500}\u{2500}\u{2500}\u{2500}\u{2500}\u{2500}\u{2500}\u{2500}\u{2500}\u{2500}\u{2500}\u{2500}\u{2500}\u{2500}\u{2500}\u{2500}\u{2500}\u{2500}\u{2500}\u{2500}\u{2500}\u{2500}\u{2500}\u{2500}\u{2500}\u{2500}\u{2500}\u{2500}\u{2500}\u{2500}\u{2500}\u{2500}\u{2500}\u{2500}\u{2500}\u{2500}\u{2500}\u{2500}\u{2500}\u{2500}\u{2500}\u{2500}\u{2500}\u{2500}\u{2500}\u{2500}\u{2500}\u{2500}\u{2500}\u{2500}\u{2500}\u{2500}\u{2500}\u{2500}\u{2500}\u{2500}\u{2500}\u{2500}\u{2500}\u{2500}\u{2500}\u{2510}");
        push_line(&mut lines, "\u{2502}  ohmyserial \u{2014} how to connect (same live data everywhere)   \u{2502}");
        push_line(&mut lines, rule);
        let path = truncate(self.real.path.as_str(), 52);
        let path_p = pad_right_string(path.as_str(), 52);
        push_framed(&mut lines, "\u{2502}  REAL   ", path_p.as_str());
        let baud = decimal_string(self.real.baud as u64);
        let baud_p = pad_right_string(baud.as_str(), 52);
        push_framed(&mut lines, "\u{2502}  BAUD   ", baud_p.as_str());
        push_line(&mut lines, rule);
        let ghost head = lines@.map_values(|l: String| l@);
        assert(head =~= guide_head(*self));
        let eps = self.endpoint_catalog();
        let mut i: usize = 0;
        while i < eps.len()
            invariant
                i <= eps@.len(),
                eps@.map_values(|e: EndpointDesc| e@) == catalog(*self),
                lines@.map_values(|l: String| l@) == head + endpoint_lines(eps@.subrange(0, i as int).map_values(|e: EndpointDesc| e@)),
            decreases eps@.len() - i,
        {
            let ep = &eps[i];
            let label = kind_label_of(ep.kind.as_str());
            let addr = truncate(ep.address.as_str(), 52);
            let a = concat_strs("\u{2502}  ", label);
            let b = concat_strs(a.as_str(), " ");
            push_framed(&mut lines, b.as_str(), addr.as_str());
            proof {
                assert(eps@.subrange(0, i + 1).map_values(|e: EndpointDesc| e@) =~= eps@.subrange(0, i as int).map_values(|e: EndpointDesc| e@).push(eps@[i as int]@));
                assert(endpoint_lines(eps@.subrange(0, i + 1).map_values(|e: EndpointDesc| e@)) =~= endpoint_lines(eps@.subrange(0, i as int).map_values(|e: EndpointDesc| e@)).push(endpoint_line(eps@[i as int]@)));
            }
            i = i + 1;
        }
        assert(eps@.subrange(0, eps@.len() as int) =~= eps@);
        let ghost mid = lines@.map_values(|l: String| l@);
        assert(mid == guide_head(*self) + endpoint_lines(catalog(*self)));
        push_line(&mut lines, rule);
        if self.api.enabled {
            let u1 = concat_strs("http://", self.api.bind.as_str());
            let u2 = concat_strs(u1.as_str(), "/");
            let url = truncate(u2.as_str(), 52);
            let url_p = pad_right_string(url.as_str(), 52);
            push_framed(&mut lines, "\u{2502}  UI     ", url_p.as_str());
        }
        let ghost with_ui = lines@.map_values(|l: String| l@);
        assert(with_ui =~= mid + seq![guide_rule()] + guide_ui(*self));
        push_line(&mut lines, rule);
        push_line(&mut lines, "\u{2502}  Tips                                                       \u{2502}");
        push_line(&mut lines, "\u{2502}  \u{2022} Browser UI: open the UI URL above (embedded console)     \u{2502}");
        push_line(&mut lines, "\u{2502}  \u{2022} Open each SERIAL path in a different serial app          \u{2502}");
        push_line(&mut lines, "\u{2502}  \u{2022} Agent: WebSocket stream + HTTP POST /v1/write            \u{2502}");
        push_line(&mut lines, "\u{2502}  \u{2022} Many programs can share one TCP port                     \u{2502}");
        push_line(&mut lines, "\u{2502}  \u{2022} curl http://127.0.0.1:8787/v1/endpoints                  \u{2502}");
        push_line(&mut lines, "\u{2502}  \u{2022} Ctrl+C to stop                                           \u{2502}");
        push_line(&mut lines, "\u{2514}\u{2500}\u{2500}\u{2500}\u{2500}\u{2500}\u{2500}\u{2500}\u{2500}\u{2500}\u{2500}\u{2500}\u{2500}\u{2500}\u{2500}\u{2500}\u{2500}\u{2500}\u{2500}\u{2500}\u{2500}\u{2500}\u{2500}\u{2500}\u{2500}\u{2500}\u{2500}\u{2500}\u{2500}\u{2500}\u{2500}\u{2500}\u{2500}\u{2500}\u{2500}\u{2500}\u{2500}\u{2500}\u{2500}\u{2500}\u{2500}\u{2500}\u{2500}\u{2500}\u{2500}\u{2500}\u{2500}\u{2500}\u{2500}\u{2500}\u{2500}\u{2500}\u{2500}\u{2500}\u{2500}\u{2500}\u{2500}\u{2500}\u{2500}\u{2500}\u{2500}\u{2500}\u{2518}");
        push_line(&mut lines, "");
        assert(lines@.map_values(|l: String| l@) =~= with_ui + guide_tail());
        join_newlines(&lines)
    }
}

} // verus!
