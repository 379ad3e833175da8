//! The broker's decisions: client registry, write leases, serial handoff,
//! TX admission and framing, RX history and slow-client fan-out.
//!
//! Queues, timers and the serial owner's channels belong to the host
//! program. It reads the clock, runs these transitions under one lock,
//! performs the I/O they call for, and records the events they queue in
//! `outbox` into the ledger in order.

use vstd::prelude::*;

use std::collections::VecDeque;

use crate::codec::{is_lower_hex, new_bearer_token, uuid_hyphenated, uuid_text};
use crate::config::{settings_fault, SerialSettings};
use crate::policy::{
    admit_write, assemble, frame_overflow_message, opt_str_view, reason_for, verdict_for,
    AdmitContext, AdmitDecision, FrameAssembler, Policy, SlowClientPolicy, TxMode, Verdict,
    WriteLock,
};
use crate::schema::{
    BytesPayload, ConnectionPayload, ConnectionState, ControlPayload, EventPayload, GapCertainty,
    GapPayload, GapScope,
};
use crate::text::{
    any_control, blank, chars_of, concat_strs, decimal, decimal_string, has_control, is_blank,
    owned, starts_with, str_eq, utf8_len, utf8_len_exceeds,
};

verus! {

/// A client connection, identified by a random 128-bit value.
#[derive(Debug, Clone, Copy, PartialEq, Eq, Hash, Structural)]
pub struct ClientId(pub u128);

/// A registered client.
#[derive(Debug, Clone)]
pub struct ClientInfo {
    pub id: ClientId,
    pub name: String,
    pub kind: String,
    pub can_read: bool,
    pub can_write: bool,
    pub primary_eligible: bool,
}

/// The serial port's state as last reported by its owner.
#[derive(Debug, Clone)]
pub struct PortStatus {
    pub path: String,
    pub baud: u32,
    pub connected: bool,
    pub detail: String,
}

/// A physical serial control-line operation, acknowledged by the serial owner.
#[derive(Debug, Clone, PartialEq, Eq, Structural)]
pub enum ControlCommand {
    Dtr(bool),
    Rts(bool),
    Break { duration_ms: u64 },
}

/// The ledger name of a control command.
pub open spec fn audit_name_of(c: ControlCommand) -> Seq<char> {
    match c {
        ControlCommand::Dtr(_) => "dtr"@,
        ControlCommand::Rts(_) => "rts"@,
        ControlCommand::Break { .. } => "break"@,
    }
}

/// `bool::to_string`.
pub open spec fn bool_text(b: bool) -> Seq<char> {
    if b {
        "true"@
    } else {
        "false"@
    }
}

/// The ledger value of a control command.
pub open spec fn audit_value_of(c: ControlCommand) -> Seq<char> {
    match c {
        ControlCommand::Dtr(level) => bool_text(level),
        ControlCommand::Rts(level) => bool_text(level),
        ControlCommand::Break { duration_ms } => "duration_ms="@ + decimal(duration_ms as nat),
    }
}

impl ControlCommand {
    /// A BREAK lasts 1 to 1000 ms; line levels are always valid.
    pub fn validate(&self) -> (r: Result<(), String>)
        ensures
            match self {
                ControlCommand::Break { duration_ms } => if 1 <= *duration_ms <= 1000 {
                    r is Ok
                } else {
                    r matches Err(e) && e@ == "break duration_ms must be between 1 and 1000"@
                },
                _ => r is Ok,
            },
    {
        match self {
            ControlCommand::Break { duration_ms } => {
                if *duration_ms < 1 || *duration_ms > 1000 {
                    return Err(owned("break duration_ms must be between 1 and 1000"));
                }
                Ok(())
            },
            _ => Ok(()),
        }
    }

    pub fn audit_name(&self) -> (s: &'static str)
        ensures
            s@ == audit_name_of(*self),
    {
        match self {
            ControlCommand::Dtr(_) => "dtr",
            ControlCommand::Rts(_) => "rts",
            ControlCommand::Break { .. } => "break",
        }
    }

    pub fn audit_value(&self) -> (s: String)
        ensures
            s@ == audit_value_of(*self),
    {
        match self {
            ControlCommand::Dtr(level) => bool_string(*level),
            ControlCommand::Rts(level) => bool_string(*level),
            ControlCommand::Break { duration_ms } => concat_strs(
                "duration_ms=",
                decimal_string(*duration_ms).as_str(),
            ),
        }
    }
}

fn bool_string(b: bool) -> (s: String)
    ensures
        s@ == bool_text(b),
{
    if b {
        owned("true")
    } else {
        owned("false")
    }
}

/// Why a client label is refused, if it is.
pub open spec fn label_fault(label: Seq<char>) -> Option<Seq<char>> {
    if is_blank(label) {
        Some("client label must not be empty"@)
    } else if utf8_len(label) > 128 {
        Some("client label must be at most 128 bytes"@)
    } else if has_control(label) {
        Some("client label must not contain control characters"@)
    } else {
        None
    }
}

/// A client label is not blank, at most 128 UTF-8 bytes, and free of control characters.
pub fn validate_actor_label(label: &str) -> (r: Result<(), String>)
    ensures
        match label_fault(label@) {
            Some(m) => r matches Err(e) && e@ == m,
            None => r is Ok,
        },
{
    let cs = chars_of(label);
    if blank(cs.as_slice()) {
        return Err(owned("client label must not be empty"));
    }
    if utf8_len_exceeds(cs.as_slice(), 128) {
        return Err(owned("client label must be at most 128 bytes"));
    }
    if any_control(cs.as_slice()) {
        return Err(owned("client label must not contain control characters"));
    }
    Ok(())
}

/// What happened to one RX chunk offered to one client queue.
#[derive(Debug, Clone, Copy, PartialEq, Eq, Structural)]
pub enum FanoutResult {
    Queued,
    DroppedOldest,
    DroppedNewest,
    BlockedThenQueued,
    Disconnected { dropped: u64, blocked: bool },
    Closed,
    /// The queue is full under the `block` policy: the caller waits for room
    /// and then offers the chunk again, or calls `wait_expired`.
    MustWait,
}

/// `n + 1`, held at `u64::MAX`.
pub open spec fn count_plus_one(n: nat) -> u64 {
    if n + 1 > u64::MAX {
        u64::MAX
    } else {
        (n + 1) as u64
    }
}

/// What offering one chunk does to a client queue, the `block` policy's
/// wait already over: the queue after it, and the outcome.
pub open spec fn offer_outcome(q: FanoutView, data: Seq<u8>, policy: SlowClientPolicy, waited: bool) -> (FanoutView, FanoutResult) {
    if q.closed {
        (q, FanoutResult::Closed)
    } else if q.pending.len() < q.capacity {
        (
            FanoutView { pending: q.pending.push(data), ..q },
            if waited {
                FanoutResult::BlockedThenQueued
            } else {
                FanoutResult::Queued
            },
        )
    } else {
        match policy {
            SlowClientPolicy::DropOldest => (
                FanoutView { pending: q.pending.drop_first().push(data), ..q },
                FanoutResult::DroppedOldest,
            ),
            SlowClientPolicy::DropNewest => (q, FanoutResult::DroppedNewest),
            SlowClientPolicy::DisconnectSlow => (
                FanoutView { pending: Seq::empty(), closed: true, ..q },
                FanoutResult::Disconnected { dropped: count_plus_one(q.pending.len()), blocked: false },
            ),
            SlowClientPolicy::Block => (
                FanoutView { pending: Seq::empty(), closed: true, ..q },
                FanoutResult::Disconnected { dropped: count_plus_one(q.pending.len()), blocked: true },
            ),
        }
    }
}

/// A client's bounded RX queue.
pub struct FanoutQueue {
    capacity: usize,
    pending: VecDeque<Vec<u8>>,
    closed: bool,
}

/// The abstract state of a client queue.
pub struct FanoutView {
    pub capacity: nat,
    pub pending: Seq<Seq<u8>>,
    pub closed: bool,
}

impl FanoutView {
    pub open spec fn valid(self) -> bool {
        &&& self.capacity >= 1
        &&& self.pending.len() <= self.capacity
        &&& self.closed ==> self.pending.len() == 0
    }
}

impl View for FanoutQueue {
    type V = FanoutView;

    closed spec fn view(&self) -> FanoutView {
        FanoutView {
            capacity: self.capacity as nat,
            pending: self.pending@.map_values(|v: Vec<u8>| v@),
            closed: self.closed,
        }
    }
}

impl FanoutQueue {
    /// An open, empty queue holding at least one chunk.
    pub fn new(capacity: usize) -> (q: FanoutQueue)
        ensures
            q@.valid(),
            q@.capacity == if capacity == 0 {
                1
            } else {
                capacity as nat
            },
            q@.pending.len() == 0,
            !q@.closed,
    {
        let q = FanoutQueue {
            capacity: if capacity == 0 {
                1
            } else {
                capacity
            },
            pending: VecDeque::new(),
            closed: false,
        };
        assert(q@.pending =~= Seq::<Seq<u8>>::empty());
        q
    }

    /// Offer `data` under `policy`. `waited` tells that the caller already
    /// waited for room under the `block` policy.
    pub fn enqueue(&mut self, data: Vec<u8>, policy: SlowClientPolicy, waited: bool) -> (r: FanoutResult)
        requires
            old(self)@.valid(),
        ensures
            final(self)@.valid(),
            final(self)@.capacity == old(self)@.capacity,
            old(self)@.closed ==> r is Closed && final(self)@ == old(self)@,
            !old(self)@.closed && old(self)@.pending.len() < old(self)@.capacity ==> {
                &&& r == if waited {
                    FanoutResult::BlockedThenQueued
                } else {
                    FanoutResult::Queued
                }
                &&& final(self)@.pending == old(self)@.pending.push(data@)
                &&& !final(self)@.closed
            },
            !old(self)@.closed && old(self)@.pending.len() >= old(self)@.capacity ==> match policy {
                SlowClientPolicy::DropOldest => {
                    &&& r is DroppedOldest
                    &&& final(self)@.pending == old(self)@.pending.drop_first().push(data@)
                    &&& !final(self)@.closed
                },
                SlowClientPolicy::DropNewest => r is DroppedNewest && final(self)@ == old(self)@,
                SlowClientPolicy::DisconnectSlow => {
                    &&& r == FanoutResult::Disconnected {
                        dropped: count_plus_one(old(self)@.pending.len()),
                        blocked: false,
                    }
                    &&& final(self)@.closed
                    &&& final(self)@.pending.len() == 0
                },
                SlowClientPolicy::Block => r is MustWait && final(self)@ == old(self)@,
            },
    {
        if self.closed {
            return FanoutResult::Closed;
        }
        if self.pending.len() < self.capacity {
            self.pending.push_back(data);
            proof {
                assert(self@.pending =~= old(self)@.pending.push(data@));
            }
            return if waited {
                FanoutResult::BlockedThenQueued
            } else {
                FanoutResult::Queued
            };
        }
        match policy {
            SlowClientPolicy::DropOldest => {
                let _ = self.pending.pop_front();
                self.pending.push_back(data);
                proof {
                    assert(self@.pending =~= old(self)@.pending.drop_first().push(data@));
                }
                FanoutResult::DroppedOldest
            },
            SlowClientPolicy::DropNewest => FanoutResult::DroppedNewest,
            SlowClientPolicy::DisconnectSlow => {
                let dropped = (self.pending.len() as u64).saturating_add(1);
                self.closed = true;
                self.pending.clear();
                proof {
                    assert(self@.pending =~= Seq::<Seq<u8>>::empty());
                }
                FanoutResult::Disconnected { dropped, blocked: false }
            },
            SlowClientPolicy::Block => FanoutResult::MustWait,
        }
    }

    /// The `block` policy's deadline passed: queue `data` if room appeared,
    /// else disconnect the client and count what it loses.
    pub fn wait_expired(&mut self, data: Vec<u8>) -> (r: FanoutResult)
        requires
            old(self)@.valid(),
        ensures
            final(self)@.valid(),
            final(self)@.capacity == old(self)@.capacity,
            old(self)@.closed ==> r is Closed && final(self)@ == old(self)@,
            !old(self)@.closed && old(self)@.pending.len() < old(self)@.capacity ==> {
                &&& r is BlockedThenQueued
                &&& final(self)@.pending == old(self)@.pending.push(data@)
                &&& !final(self)@.closed
            },
            !old(self)@.closed && old(self)@.pending.len() >= old(self)@.capacity ==> {
                &&& r == FanoutResult::Disconnected {
                    dropped: count_plus_one(old(self)@.pending.len()),
                    blocked: true,
                }
                &&& final(self)@.closed
                &&& final(self)@.pending.len() == 0
            },
    {
        if self.closed {
            return FanoutResult::Closed;
        }
        if self.pending.len() < self.capacity {
            self.pending.push_back(data);
            proof {
                assert(self@.pending =~= old(self)@.pending.push(data@));
            }
            return FanoutResult::BlockedThenQueued;
        }
        let dropped = (self.pending.len() as u64).saturating_add(1);
        self.closed = true;
        self.pending.clear();
        proof {
            assert(self@.pending =~= Seq::<Seq<u8>>::empty());
        }
        FanoutResult::Disconnected { dropped, blocked: true }
    }

    /// Offer `data` under `policy` once the `block` policy's wait is over:
    /// `waited` tells whether the caller waited for room for this queue.
    pub fn offer(&mut self, data: &[u8], policy: SlowClientPolicy, waited: bool) -> (r: FanoutResult)
        requires
            old(self)@.valid(),
        ensures
            final(self)@.valid(),
            (final(self)@, r) == offer_outcome(old(self)@, data@, policy, waited),
    {
        let r = self.enqueue(vstd::slice::slice_to_vec(data), policy, waited);
        if let FanoutResult::MustWait = r {
            let r2 = self.wait_expired(vstd::slice::slice_to_vec(data));
            proof {
                assert(self@.pending =~= Seq::<Seq<u8>>::empty());
            }
            return r2;
        }
        proof {
            if !old(self)@.closed && old(self)@.pending.len() >= old(self)@.capacity
                && policy == SlowClientPolicy::DisconnectSlow {
                assert(self@.pending =~= Seq::<Seq<u8>>::empty());
            }
        }
        r
    }

    /// Take the oldest queued chunk.
    pub fn pop(&mut self) -> (r: Option<Vec<u8>>)
        requires
            old(self)@.valid(),
        ensures
            final(self)@.valid(),
            final(self)@.capacity == old(self)@.capacity,
            final(self)@.closed == old(self)@.closed,
            old(self)@.pending.len() == 0 ==> r is None && final(self)@.pending == old(self)@.pending,
            old(self)@.pending.len() > 0 ==> (r matches Some(v) && v@ == old(self)@.pending[0])
                && final(self)@.pending == old(self)@.pending.drop_first(),
    {
        let r = self.pending.pop_front();
        proof {
            if old(self)@.pending.len() > 0 {
                assert(self@.pending =~= old(self)@.pending.drop_first());
            }
        }
        r
    }

    /// Close the queue and drop what it holds; closing twice is harmless.
    pub fn close(&mut self)
        requires
            old(self)@.valid(),
        ensures
            final(self)@.valid(),
            final(self)@.capacity == old(self)@.capacity,
            final(self)@.closed,
            final(self)@.pending.len() == 0,
    {
        self.closed = true;
        self.pending.clear();
        proof {
            assert(self@.pending =~= Seq::<Seq<u8>>::empty());
        }
    }

    /// Whether the queue was closed.
    pub fn is_closed(&self) -> (r: bool)
        ensures
            r == self@.closed,
    {
        self.closed
    }

    /// Whether an open queue has no room for another chunk.
    pub fn is_full(&self) -> (r: bool)
        ensures
            r == (!self@.closed && self@.pending.len() >= self@.capacity),
    {
        !self.closed && self.pending.len() >= self.capacity
    }

    /// Whether nothing is queued.
    pub fn is_empty(&self) -> (r: bool)
        ensures
            r == (self@.pending.len() == 0),
    {
        self.pending.len() == 0
    }
}

/// A queue never holds more chunks than its capacity, and under `drop_oldest`
/// a full queue keeps the newest chunks: the oldest leaves, the offered one
/// joins at the back.
pub proof fn law_fanout_is_bounded(before: FanoutView, data: Seq<u8>)
    requires
        before.valid(),
        !before.closed,
        before.pending.len() == before.capacity,
    ensures
        before.pending.drop_first().push(data).len() == before.capacity,
        before.pending.drop_first().push(data).last() == data,
        forall|i: int|
            0 <= i < before.capacity - 1 ==> #[trigger] before.pending.drop_first().push(data)[i]
                == before.pending[i + 1],
{
}

/// The port part of a status snapshot.
#[derive(Debug, Clone)]
pub struct PortStatusView {
    pub path: String,
    pub baud: u32,
    pub connected: bool,
    pub epoch: u64,
    pub detail: String,
}

/// An active handoff as status shows it (without its token).
#[derive(Debug, Clone)]
pub struct HandoffStatusView {
    pub active: bool,
    pub path: String,
    pub expires_ms: u64,
}

/// A started handoff as its requester sees it.
#[derive(Debug, Clone)]
pub struct HandoffView {
    pub path: String,
    pub expires_ms: u64,
    /// Opaque bearer returned only by the handoff request.
    pub handoff_token: String,
}

/// A configured fan-out endpoint.
#[derive(Debug, Clone)]
pub struct EndpointView {
    pub kind: String,
    pub name: String,
    pub address: String,
    pub can_read: bool,
    pub can_write: bool,
    pub note: String,
}

/// A registered client as status shows it.
#[derive(Debug, Clone)]
pub struct ClientView {
    pub id: String,
    pub name: String,
    pub kind: String,
    pub can_read: bool,
    pub can_write: bool,
    pub primary_eligible: bool,
}

/// Traffic counters.
#[derive(Debug, Clone, Copy, PartialEq, Eq, Structural)]
pub struct StatsView {
    pub rx_bytes: u64,
    pub tx_bytes: u64,
    /// Total RX chunks discarded for a client by any slow-client policy.
    pub rx_drops: u64,
    pub rx_drop_oldest: u64,
    pub rx_drop_newest: u64,
    pub rx_block_events: u64,
    pub slow_disconnects: u64,
    pub tx_denies: u64,
}

/// What the status endpoint reports.
#[derive(Debug, Clone)]
pub struct StatusSnapshot {
    pub port: PortStatusView,
    pub handoff: Option<HandoffStatusView>,
    pub tx_mode: String,
    pub lock_owner: Option<String>,
    pub lock_expires_ms: Option<u64>,
    pub endpoints: Vec<EndpointView>,
    pub clients: Vec<ClientView>,
    pub stats: StatsView,
}

/// A granted or renewed lease as its holder sees it.
#[derive(Debug, Clone)]
pub struct WriteLockView {
    pub owner: String,
    pub expires_ms: u64,
    /// Secret bearer credential, returned only on acquire and renew.
    pub lease_token: String,
}

/// An active serial handoff.
#[derive(Debug, Clone)]
pub struct HandoffState {
    pub token: String,
    pub path: String,
    pub expires_at: u64,
}

/// A registered client and its partial-frame assembler.
#[derive(Debug)]
pub struct ClientSlot {
    pub info: ClientInfo,
    pub assembler: FrameAssembler,
}

/// An event the host must append to the ledger, in order.
#[derive(Debug)]
pub struct PendingEvent {
    pub connection_epoch: u64,
    pub payload: EventPayload,
}

/// The broker's state.
#[derive(Debug)]
pub struct BrokerCore {
    pub clients: Vec<ClientSlot>,
    pub policy: Policy,
    pub lock: Option<WriteLock>,
    pub handoff: Option<HandoffState>,
    pub port: PortStatus,
    pub connection_epoch: u64,
    pub history: VecDeque<u8>,
    pub history_cap: usize,
    pub endpoints: Vec<EndpointView>,
    pub stats: StatsView,
    pub persistence_gap_reported: bool,
    /// Events queued for the ledger, oldest first.
    pub outbox: Vec<PendingEvent>,
}

/// Client identifiers are unique.
pub open spec fn unique_ids(s: Seq<ClientSlot>) -> bool {
    forall|i: int, j: int| 0 <= i < j < s.len() ==> s[i].info.id != s[j].info.id
}

/// The slot index of client `id`, if registered.
pub open spec fn slot_of(s: Seq<ClientSlot>, id: ClientId) -> Option<int> {
    if exists|i: int| 0 <= i < s.len() && s[i].info.id == id {
        Some(choose|i: int| 0 <= i < s.len() && s[i].info.id == id)
    } else {
        None
    }
}

/// A writable, primary-eligible client registered under the configured primary name.
pub open spec fn primary_present(s: Seq<ClientSlot>, primary: Option<String>) -> bool {
    match primary {
        Some(p) => exists|i: int|
            0 <= i < s.len() && #[trigger] s[i].info.can_write && s[i].info.primary_eligible
                && s[i].info.name@ == p@,
        None => false,
    }
}

/// The view of an optional string.
pub open spec fn opt_view(o: Option<String>) -> Option<Seq<char>> {
    match o {
        Some(v) => Some(v@),
        None => None,
    }
}

/// `p` is a control event with this actor, name and value.
pub open spec fn is_control_event(p: EventPayload, actor: Option<Seq<char>>, name: Seq<char>, value: Option<Seq<char>>) -> bool {
    p matches EventPayload::Control(c) && opt_view(c.actor) == actor && c.name@ == name && opt_view(
        c.value,
    ) == value
}

/// The outbox grew by exactly one event at this epoch satisfying `is`.
pub open spec fn pushed_one(before: Seq<PendingEvent>, after: Seq<PendingEvent>, epoch: u64) -> bool {
    &&& after.len() == before.len() + 1
    &&& after.subrange(0, before.len() as int) == before
    &&& after.last().connection_epoch == epoch
}

/// How a port status is recorded in the ledger.
pub open spec fn connection_state_of(status: PortStatus) -> ConnectionState {
    if status.connected {
        ConnectionState::Connected
    } else if starts_with(status.detail@, "open error:"@) {
        ConnectionState::OpenFailed
    } else if status.detail@ == "starting"@ || status.detail@ == "reconnecting"@ {
        ConnectionState::Reconnecting
    } else {
        ConnectionState::Disconnected
    }
}

/// `a + 1`, held at `u64::MAX`.
pub open spec fn saturating_inc(a: u64) -> u64 {
    if a == u64::MAX {
        a
    } else {
        (a + 1) as u64
    }
}

/// `now + ms`, held at `u64::MAX`.
pub open spec fn deadline_after(now: u64, ms: u64) -> u64 {
    if now + ms > u64::MAX {
        u64::MAX
    } else {
        (now + ms) as u64
    }
}

/// The lease time-to-live a policy grants.
pub open spec fn ttl_of(p: Policy) -> u64 {
    if p.write_lock_ms == 0 {
        1
    } else {
        p.write_lock_ms
    }
}

fn control_event(actor: Option<String>, name: &str, value: Option<String>) -> (p: EventPayload)
    ensures
        p == EventPayload::Control(ControlPayload { actor, name: p->Control_0.name, value }),
        p->Control_0.name@ == name@,
{
    EventPayload::Control(ControlPayload { actor, name: owned(name), value })
}

fn clone_string_opt(s: &Option<String>) -> (r: Option<String>)
    ensures
        r == *s,
{
    match s {
        Some(v) => Some(v.clone()),
        None => None,
    }
}

impl BrokerCore {
    /// Internal consistency: unique client identifiers and a bounded history.
    pub open spec fn wf(&self) -> bool {
        &&& unique_ids(self.clients@)
        &&& self.history@.len() <= self.history_cap
    }

    /// A broker with no clients, lease or handoff. The connection epoch starts
    /// at one when the port starts connected.
    pub fn new(policy: Policy, port: PortStatus, history_cap: usize) -> (b: BrokerCore)
        ensures
            b.wf(),
            b.clients@.len() == 0,
            b.lock is None,
            b.handoff is None,
            b.connection_epoch == if port.connected {
                1u64
            } else {
                0u64
            },
            b.port == port,
            b.policy == policy,
            b.history@.len() == 0,
            b.history_cap == history_cap,
            b.outbox@.len() == 0,
            b.stats == (StatsView {
                rx_bytes: 0,
                tx_bytes: 0,
                rx_drops: 0,
                rx_drop_oldest: 0,
                rx_drop_newest: 0,
                rx_block_events: 0,
                slow_disconnects: 0,
                tx_denies: 0,
            }),
    {
        let connection_epoch: u64 = if port.connected {
            1
        } else {
            0
        };
        BrokerCore {
            clients: Vec::new(),
            policy,
            lock: None,
            handoff: None,
            port,
            connection_epoch,
            history: VecDeque::new(),
            history_cap,
            endpoints: Vec::new(),
            stats: StatsView {
                rx_bytes: 0,
                tx_bytes: 0,
                rx_drops: 0,
                rx_drop_oldest: 0,
                rx_drop_newest: 0,
                rx_block_events: 0,
                slow_disconnects: 0,
                tx_denies: 0,
            },
            persistence_gap_reported: false,
            outbox: Vec::new(),
        }
    }

    /// Hand the queued ledger events to the host, oldest first.
    pub fn take_outbox(&mut self) -> (events: Vec<PendingEvent>)
        ensures
            events@ == old(self).outbox@,
            final(self).outbox@.len() == 0,
            final(self).clients == old(self).clients,
            final(self).lock == old(self).lock,
            final(self).handoff == old(self).handoff,
            final(self).connection_epoch == old(self).connection_epoch,
            final(self).history == old(self).history,
            final(self).history_cap == old(self).history_cap,
            final(self).stats == old(self).stats,
            final(self).policy == old(self).policy,
            final(self).port == old(self).port,
    {
        let mut events: Vec<PendingEvent> = Vec::new();
        std::mem::swap(&mut events, &mut self.outbox);
        events
    }

    fn push_event(&mut self, connection_epoch: u64, payload: EventPayload)
        ensures
            final(self).outbox@ == old(self).outbox@.push(PendingEvent { connection_epoch, payload }),
            final(self).clients == old(self).clients,
            final(self).lock == old(self).lock,
            final(self).handoff == old(self).handoff,
            final(self).connection_epoch == old(self).connection_epoch,
            final(self).history == old(self).history,
            final(self).history_cap == old(self).history_cap,
            final(self).stats == old(self).stats,
            final(self).policy == old(self).policy,
            final(self).port == old(self).port,
            final(self).persistence_gap_reported == old(self).persistence_gap_reported,
            final(self).endpoints == old(self).endpoints,
    {
        self.outbox.push(PendingEvent { connection_epoch, payload });
    }

    /// The slot index of client `id`.
    pub fn position(&self, id: ClientId) -> (r: Option<usize>)
        requires
            self.wf(),
        ensures
            match r {
                Some(i) => i < self.clients@.len() && self.clients@[i as int].info.id == id
                    && slot_of(self.clients@, id) == Some(i as int),
                None => slot_of(self.clients@, id) is None,
            },
    {
        let mut i: usize = 0;
        while i < self.clients.len()
            invariant
                i <= self.clients@.len(),
                unique_ids(self.clients@),
                forall|j: int| 0 <= j < i ==> self.clients@[j].info.id != id,
            decreases self.clients@.len() - i,
        {
            if self.clients[i].info.id == id {
                proof {
                    let k = choose|k: int| 0 <= k < self.clients@.len() && self.clients@[k].info.id == id;
                    assert(k == i) by {
                        if k < i {
                            assert(self.clients@[k].info.id != id);
                        } else if k > i {
                            assert(self.clients@[i as int].info.id != self.clients@[k].info.id);
                        }
                    }
                }
                return Some(i);
            }
            i = i + 1;
        }
        None
    }

    /// Whether a writable, primary-eligible client named like the configured primary is registered.
    pub fn primary_connected(&self) -> (r: bool)
        ensures
            r == primary_present(self.clients@, self.policy.primary),
    {
        match &self.policy.primary {
            None => false,
            Some(p) => {
                let mut i: usize = 0;
                while i < self.clients.len()
                    invariant
                        i <= self.clients@.len(),
                        self.policy.primary == Some(*p),
                        forall|j: int|
                            0 <= j < i ==> !(#[trigger] self.clients@[j].info.can_write
                                && self.clients@[j].info.primary_eligible
                                && self.clients@[j].info.name@ == p@),
                    decreases self.clients@.len() - i,
                {
                    let info = &self.clients[i].info;
                    if info.can_write && info.primary_eligible && str_eq(info.name.as_str(), p.as_str()) {
                        return true;
                    }
                    i = i + 1;
                }
                false
            },
        }
    }

    /// Record a new port status. A reconnect starts a new connection epoch;
    /// the status is queued as a connection event of that epoch.
    pub fn set_port_status(&mut self, status: PortStatus)
        requires
            old(self).wf(),
        ensures
            final(self).wf(),
            final(self).connection_epoch == if status.connected && !old(self).port.connected {
                saturating_inc(old(self).connection_epoch)
            } else {
                old(self).connection_epoch
            },
            final(self).port == status,
            pushed_one(old(self).outbox@, final(self).outbox@, final(self).connection_epoch),
            final(self).outbox@.last().payload matches EventPayload::Connection(c) && c.state
                == connection_state_of(status) && c.path@ == status.path@ && c.baud == status.baud
                && (c.detail matches Some(d) && d@ == status.detail@),
            final(self).clients == old(self).clients,
            final(self).lock == old(self).lock,
            final(self).handoff == old(self).handoff,
            final(self).stats == old(self).stats,
            final(self).policy == old(self).policy,
            final(self).history == old(self).history,
            final(self).history_cap == old(self).history_cap,
    {
        if status.connected && !self.port.connected {
            self.connection_epoch = self.connection_epoch.saturating_add(1);
        }
        let detail = chars_of(status.detail.as_str());
        let state = if status.connected {
            ConnectionState::Connected
        } else if crate::text::chars_start_with(detail.as_slice(), chars_of("open error:").as_slice()) {
            ConnectionState::OpenFailed
        } else if str_eq(status.detail.as_str(), "starting") || str_eq(status.detail.as_str(), "reconnecting") {
            ConnectionState::Reconnecting
        } else {
            ConnectionState::Disconnected
        };
        let payload = EventPayload::Connection(
            ConnectionPayload {
                state,
                path: status.path.clone(),
                baud: status.baud,
                detail: Some(status.detail.clone()),
            },
        );
        self.port = status;
        let epoch = self.connection_epoch;
        self.push_event(epoch, payload);
        proof {
            assert(self.outbox@.subrange(0, old(self).outbox@.len() as int) =~= old(self).outbox@);
        }
    }

    /// Publish the configured fan-out endpoints.
    pub fn set_endpoints(&mut self, endpoints: Vec<EndpointView>)
        ensures
            final(self).endpoints == endpoints,
            final(self).clients == old(self).clients,
            final(self).outbox == old(self).outbox,
            final(self).history == old(self).history,
            final(self).history_cap == old(self).history_cap,
    {
        self.endpoints = endpoints;
    }
}

/// A lease is held and still running at `now`.
pub open spec fn lease_running(lock: Option<WriteLock>, now: u64) -> bool {
    lock is Some && lock.unwrap().is_active(now)
}

/// `"id=" + id + " kind=" + kind`, the value of join and leave events.
pub open spec fn membership_value(id: ClientId, kind: Seq<char>) -> Seq<char> {
    "id="@ + uuid_hyphenated(id.0) + " kind="@ + kind
}

fn membership_text(id: ClientId, kind: &str) -> (s: String)
    ensures
        s@ == membership_value(id, kind@),
{
    let a = concat_strs("id=", uuid_text(id.0).as_str());
    let b = concat_strs(a.as_str(), " kind=");
    concat_strs(b.as_str(), kind)
}

/// `"ttl_ms=" + ms`, the value of lease events.
pub open spec fn ttl_value(ms: u64) -> Seq<char> {
    "ttl_ms="@ + decimal(ms as nat)
}

fn ttl_text(ms: u64) -> (s: String)
    ensures
        s@ == ttl_value(ms),
{
    concat_strs("ttl_ms=", decimal_string(ms).as_str())
}

impl BrokerCore {
    /// Register a client (replacing one with the same identifier) and queue
    /// its join event. Returns the capacity its RX queue gets: the requested
    /// one, else the policy's, and at least one.
    pub fn register_client(
        &mut self,
        id: ClientId,
        name: String,
        kind: String,
        can_read: bool,
        can_write: bool,
        queue_cap: Option<usize>,
        primary_eligible: bool,
    ) -> (cap: usize)
        requires
            old(self).wf(),
        ensures
            final(self).wf(),
            cap == ({
                let c = match queue_cap {
                    Some(c) => c,
                    None => old(self).policy.client_queue,
                };
                if c == 0 {
                    1
                } else {
                    c
                }
            }),
            final(self).clients@.len() > 0,
            final(self).clients@.last().info == (ClientInfo {
                id,
                name,
                kind,
                can_read,
                can_write,
                primary_eligible,
            }),
            final(self).clients@.last().assembler@.len() == 0,
            final(self).clients@.drop_last() == match slot_of(old(self).clients@, id) {
                Some(i) => old(self).clients@.remove(i),
                None => old(self).clients@,
            },
            pushed_one(old(self).outbox@, final(self).outbox@, old(self).connection_epoch),
            is_control_event(
                final(self).outbox@.last().payload,
                Some(name@),
                "client_joined"@,
                Some(membership_value(id, kind@)),
            ),
            final(self).lock == old(self).lock,
            final(self).handoff == old(self).handoff,
            final(self).connection_epoch == old(self).connection_epoch,
            final(self).port == old(self).port,
            final(self).policy == old(self).policy,
            final(self).stats == old(self).stats,
    {
        let requested = match queue_cap {
            Some(c) => c,
            None => self.policy.client_queue,
        };
        let cap = if requested == 0 {
            1
        } else {
            requested
        };
        match self.position(id) {
            Some(i) => {
                let _ = self.clients.remove(i);
            },
            None => {},
        }
        let ghost kept = self.clients@;
        let value = membership_text(id, kind.as_str());
        let actor = name.clone();
        self.clients.push(
            ClientSlot {
                info: ClientInfo { id, name, kind, can_read, can_write, primary_eligible },
                assembler: FrameAssembler::new(),
            },
        );
        proof {
            assert(self.clients@.drop_last() =~= kept);
            assert forall|a: int, b: int| 0 <= a < b < self.clients@.len() implies self.clients@[a].info.id
                != self.clients@[b].info.id by {
                if b == self.clients@.len() - 1 {
                    if slot_of(old(self).clients@, id) is None {
                        assert(self.clients@[a] == old(self).clients@[a]);
                    } else {
                        let i = slot_of(old(self).clients@, id).unwrap();
                        if a < i {
                            assert(self.clients@[a] == old(self).clients@[a]);
                            assert(old(self).clients@[a].info.id != old(self).clients@[i].info.id);
                        } else {
                            assert(self.clients@[a] == old(self).clients@[a + 1]);
                            assert(old(self).clients@[a + 1].info.id != old(self).clients@[i].info.id);
                        }
                    }
                } else {
                    if slot_of(old(self).clients@, id) is Some {
                        let i = slot_of(old(self).clients@, id).unwrap();
                        let oa = if a < i { a } else { a + 1 };
                        let ob = if b < i { b } else { b + 1 };
                        assert(self.clients@[a] == old(self).clients@[oa]);
                        assert(self.clients@[b] == old(self).clients@[ob]);
                    }
                }
            }
        }
        let epoch = self.connection_epoch;
        self.push_event(epoch, control_event(Some(actor), "client_joined", Some(value)));
        proof {
            assert(self.outbox@.subrange(0, old(self).outbox@.len() as int) =~= old(self).outbox@);
        }
        cap
    }

    /// Remove client `id` and queue its leave event. A lease is a bearer
    /// credential of its own and is not revoked by any disconnect.
    pub fn unregister_client(&mut self, id: ClientId) -> (removed: Option<ClientInfo>)
        requires
            old(self).wf(),
        ensures
            final(self).wf(),
            match slot_of(old(self).clients@, id) {
                Some(i) => {
                    &&& removed == Some(old(self).clients@[i].info)
                    &&& final(self).clients@ == old(self).clients@.remove(i)
                    &&& pushed_one(old(self).outbox@, final(self).outbox@, old(self).connection_epoch)
                    &&& is_control_event(
                        final(self).outbox@.last().payload,
                        Some(old(self).clients@[i].info.name@),
                        "client_left"@,
                        Some(membership_value(id, old(self).clients@[i].info.kind@)),
                    )
                },
                None => removed is None && final(self).clients@ == old(self).clients@
                    && final(self).outbox@ == old(self).outbox@,
            },
            final(self).history == old(self).history,
            final(self).history_cap == old(self).history_cap,
            final(self).lock == old(self).lock,
            final(self).handoff == old(self).handoff,
            final(self).connection_epoch == old(self).connection_epoch,
            final(self).port == old(self).port,
            final(self).policy == old(self).policy,
            final(self).stats == old(self).stats,
    {
        match self.position(id) {
            None => None,
            Some(i) => {
                let slot = self.clients.remove(i);
                proof {
                    assert forall|a: int, b: int| 0 <= a < b < self.clients@.len() implies self.clients@[a].info.id
                        != self.clients@[b].info.id by {
                        let oa = if a < i { a } else { a + 1 };
                        let ob = if b < i { b } else { b + 1 };
                        assert(self.clients@[a] == old(self).clients@[oa]);
                        assert(self.clients@[b] == old(self).clients@[ob]);
                    }
                }
                let value = membership_text(id, slot.info.kind.as_str());
                let epoch = self.connection_epoch;
                self.push_event(
                    epoch,
                    control_event(Some(slot.info.name.clone()), "client_left", Some(value)),
                );
                proof {
                    assert(self.outbox@.subrange(0, old(self).outbox@.len() as int) =~= old(self).outbox@);
                }
                Some(slot.info)
            },
        }
    }

    /// Grant a lease to `client` with a fresh random token, unless a handoff
    /// is active or another lease is running; an expired lease is replaced.
    /// A refusal leaves the current lease as it was.
    pub fn acquire_lock(&mut self, client: &str, now: u64) -> (r: Result<WriteLockView, String>)
        requires
            old(self).wf(),
        ensures
            final(self).wf(),
            label_fault(client@) matches Some(m) ==> (r matches Err(e) && e@ == m),
            label_fault(client@) is None && old(self).handoff is Some ==> (r matches Err(e) && e@
                == "serial handoff is active; acquire a lease after resume"@),
            label_fault(client@) is None && old(self).handoff is None && lease_running(old(self).lock, now)
                ==> (r matches Err(e) && e@ == "write lease held by '"@ + old(self).lock.unwrap().owner@
                + "'; renew it with its lease token"@),
            r is Ok ==> (label_fault(client@) is None && old(self).handoff is None && !lease_running(
                old(self).lock,
                now,
            )),
            label_fault(client@) is None && old(self).handoff is None && !lease_running(old(self).lock, now)
                ==> (r is Ok || (r matches Err(e) && e@ == "random source unavailable"@)),
            r matches Ok(v) ==> {
                &&& v.owner@ == client@
                &&& v.lease_token@.len() == 32
                &&& forall|i: int| 0 <= i < 32 ==> is_lower_hex(#[trigger] v.lease_token@[i])
                &&& v.expires_ms == old(self).policy.write_lock_ms
                &&& final(self).lock is Some
                &&& final(self).lock.unwrap().owner@ == client@
                &&& final(self).lock.unwrap().token == v.lease_token
                &&& final(self).lock.unwrap().expires_at == deadline_after(now, ttl_of(old(self).policy))
                &&& pushed_one(old(self).outbox@, final(self).outbox@, old(self).connection_epoch)
                &&& is_control_event(
                    final(self).outbox@.last().payload,
                    Some(client@),
                    "lease_acquired"@,
                    Some(ttl_value(old(self).policy.write_lock_ms)),
                )
            },
            r is Err ==> final(self).outbox@ == old(self).outbox@ && final(self).lock == old(self).lock,
            final(self).clients == old(self).clients,
            final(self).handoff == old(self).handoff,
            final(self).connection_epoch == old(self).connection_epoch,
            final(self).port == old(self).port,
            final(self).policy == old(self).policy,
            final(self).stats == old(self).stats,
    {
        match validate_actor_label(client) {
            Err(e) => {
                return Err(e);
            },
            Ok(()) => {},
        }
        if self.handoff.is_some() {
            return Err(owned("serial handoff is active; acquire a lease after resume"));
        }
        match &self.lock {
            Some(l) => {
                if l.active(now) {
                    let a = concat_strs("write lease held by '", l.owner.as_str());
                    return Err(concat_strs(a.as_str(), "'; renew it with its lease token"));
                }
            },
            None => {},
        }
        let token = match new_bearer_token() {
            Some(t) => t,
            None => {
                return Err(owned("random source unavailable"));
            },
        };
        let expires_at = now.saturating_add(self.policy.lock_ttl());
        self.lock = Some(WriteLock { owner: owned(client), token: token.clone(), expires_at });
        let expires_ms = self.policy.write_lock_ms;
        let epoch = self.connection_epoch;
        self.push_event(
            epoch,
            control_event(Some(owned(client)), "lease_acquired", Some(ttl_text(expires_ms))),
        );
        proof {
            assert(self.outbox@.subrange(0, old(self).outbox@.len() as int) =~= old(self).outbox@);
        }
        Ok(WriteLockView { owner: owned(client), expires_ms, lease_token: token })
    }

    /// Extend the running lease whose token is `lease_token` by a full TTL.
    pub fn renew_lock(&mut self, lease_token: &str, now: u64) -> (r: Result<WriteLockView, String>)
        requires
            old(self).wf(),
        ensures
            final(self).wf(),
            old(self).lock is None ==> (r matches Err(e) && e@ == "no active write lease"@),
            old(self).lock is Some && !lease_running(old(self).lock, now) ==> (r matches Err(e) && e@
                == "write lease expired"@) && final(self).lock is None,
            lease_running(old(self).lock, now) && old(self).lock.unwrap().token@ != lease_token@ ==> (r matches Err(
                e,
            ) && e@ == "invalid lease token"@) && final(self).lock == old(self).lock,
            lease_running(old(self).lock, now) && old(self).lock.unwrap().token@ == lease_token@ ==> {
                let l = old(self).lock.unwrap();
                &&& r matches Ok(v) && v.owner == l.owner && v.lease_token == l.token
                    && v.expires_ms == old(self).policy.write_lock_ms
                &&& final(self).lock == Some(
                    WriteLock { expires_at: deadline_after(now, ttl_of(old(self).policy)), ..l },
                )
                &&& pushed_one(old(self).outbox@, final(self).outbox@, old(self).connection_epoch)
                &&& is_control_event(
                    final(self).outbox@.last().payload,
                    Some(l.owner@),
                    "lease_renewed"@,
                    Some(ttl_value(old(self).policy.write_lock_ms)),
                )
            },
            r is Err ==> final(self).outbox@ == old(self).outbox@,
            final(self).clients == old(self).clients,
            final(self).handoff == old(self).handoff,
            final(self).connection_epoch == old(self).connection_epoch,
            final(self).port == old(self).port,
            final(self).policy == old(self).policy,
            final(self).stats == old(self).stats,
    {
        let ttl = self.policy.lock_ttl();
        let expires_ms = self.policy.write_lock_ms;
        let epoch = self.connection_epoch;
        let view = match &mut self.lock {
            None => {
                return Err(owned("no active write lease"));
            },
            Some(lock) => {
                if !lock.active(now) {
                    self.lock = None;
                    return Err(owned("write lease expired"));
                }
                if !lock.authorizes(Some(lease_token), now) {
                    return Err(owned("invalid lease token"));
                }
                lock.expires_at = now.saturating_add(ttl);
                WriteLockView { owner: lock.owner.clone(), expires_ms, lease_token: lock.token.clone() }
            },
        };
        self.push_event(
            epoch,
            control_event(Some(view.owner.clone()), "lease_renewed", Some(ttl_text(expires_ms))),
        );
        proof {
            assert(self.outbox@.subrange(0, old(self).outbox@.len() as int) =~= old(self).outbox@);
        }
        Ok(view)
    }

    /// Release the running lease; only its token can. Releasing when no lease
    /// is running succeeds and drops an expired one.
    pub fn release_lock(&mut self, lease_token: Option<&str>, now: u64) -> (r: Result<(), String>)
        requires
            old(self).wf(),
        ensures
            final(self).wf(),
            lease_running(old(self).lock, now) ==> match lease_token {
                None => (r matches Err(e) && e@ == "lease token is required"@) && final(self).lock
                    == old(self).lock && final(self).outbox@ == old(self).outbox@,
                Some(t) => if t@ == old(self).lock.unwrap().token@ {
                    &&& r is Ok
                    &&& final(self).lock is None
                    &&& pushed_one(old(self).outbox@, final(self).outbox@, old(self).connection_epoch)
                    &&& is_control_event(final(self).outbox@.last().payload, Some(old(self).lock.unwrap().owner@), "lease_released"@, None)
                } else {
                    (r matches Err(e) && e@ == "invalid lease token"@) && final(self).lock == old(self).lock
                        && final(self).outbox@ == old(self).outbox@
                },
            },
            !lease_running(old(self).lock, now) ==> r is Ok && final(self).lock is None
                && final(self).outbox@ == old(self).outbox@,
            final(self).clients == old(self).clients,
            final(self).handoff == old(self).handoff,
            final(self).connection_epoch == old(self).connection_epoch,
            final(self).port == old(self).port,
            final(self).policy == old(self).policy,
            final(self).stats == old(self).stats,
    {
        let owner = match &self.lock {
            Some(lock) => {
                if lock.active(now) {
                    match lease_token {
                        None => {
                            return Err(owned("lease token is required"));
                        },
                        Some(token) => {
                            if !lock.authorizes(Some(token), now) {
                                return Err(owned("invalid lease token"));
                            }
                        },
                    }
                    Some(lock.owner.clone())
                } else {
                    None
                }
            },
            None => None,
        };
        self.lock = None;
        match owner {
            Some(o) => {
                let epoch = self.connection_epoch;
                self.push_event(epoch, control_event(Some(o), "lease_released", None));
                proof {
                    assert(self.outbox@.subrange(0, old(self).outbox@.len() as int) =~= old(self).outbox@);
                }
            },
            None => {},
        }
        Ok(())
    }
}

/// A handoff that was accepted and recorded, before the serial owner acknowledged it.
#[derive(Debug, Clone)]
pub struct HandoffStart {
    pub handoff_token: String,
    pub path: String,
    pub connection_epoch: u64,
    /// How long to wait for the serial owner, in milliseconds.
    pub timeout_ms: u64,
}

/// What a request to the serial owner concerns; it names the refusals.
#[derive(Debug, Clone, Copy, PartialEq, Eq, Structural)]
pub enum OwnerRequest {
    Control,
    Configuration,
}

/// A BREAK whose duration lies outside 1..=1000 ms.
pub open spec fn bad_break(c: ControlCommand) -> bool {
    match c {
        ControlCommand::Break { duration_ms } => !(1 <= duration_ms <= 1000),
        _ => false,
    }
}

/// Why a lease-gated serial-owner request is refused, if it is.
pub open spec fn owner_gate_fault(b: BrokerCore, what: OwnerRequest, lease_token: Option<Seq<char>>, now: u64, control_available: bool) -> Option<Seq<char>> {
    let word = match what {
        OwnerRequest::Control => "control"@,
        OwnerRequest::Configuration => "configuration"@,
    };
    if b.handoff is Some {
        Some("serial handoff is active; "@ + word + " is temporarily unavailable"@)
    } else if !b.port.connected {
        Some("serial port is disconnected; "@ + word + " was not queued"@)
    } else if lease_token is None {
        Some(word + " requires an active write lease token"@)
    } else if !(b.lock is Some && b.lock.unwrap().grants(lease_token, now)) {
        Some(word + " lease expired, was released, or was replaced"@)
    } else if !control_available {
        Some("serial owner control channel is unavailable"@)
    } else {
        None
    }
}

/// The owner's acknowledgement timeout: the write timeout, at least 1 ms.
pub open spec fn owner_timeout(p: Policy) -> u64 {
    if p.write_timeout_ms == 0 {
        1
    } else {
        p.write_timeout_ms
    }
}

/// The ledger value of applied serial settings.
pub open spec fn settings_value(s: SerialSettings) -> Seq<char> {
    "baud="@ + decimal(s.baud as nat) + " databits="@ + decimal(s.databits as nat) + " parity="@
        + s.parity@ + " stopbits="@ + decimal(s.stopbits as nat) + " flow="@ + s.flow@
}

fn settings_text(s: &SerialSettings) -> (t: String)
    ensures
        t@ == settings_value(*s),
{
    let a = concat_strs("baud=", decimal_string(s.baud as u64).as_str());
    let b = concat_strs(a.as_str(), " databits=");
    let c = concat_strs(b.as_str(), decimal_string(s.databits as u64).as_str());
    let d = concat_strs(c.as_str(), " parity=");
    let e = concat_strs(d.as_str(), s.parity.as_str());
    let f = concat_strs(e.as_str(), " stopbits=");
    let g = concat_strs(f.as_str(), decimal_string(s.stopbits as u64).as_str());
    let h = concat_strs(g.as_str(), " flow=");
    concat_strs(h.as_str(), s.flow.as_str())
}

/// `a` and `b` agree on clients, epoch, port, policy, counters and history.
pub open spec fn same_registry(a: BrokerCore, b: BrokerCore) -> bool {
    &&& a.clients == b.clients
    &&& a.connection_epoch == b.connection_epoch
    &&& a.port == b.port
    &&& a.policy == b.policy
    &&& a.stats == b.stats
    &&& a.history == b.history
    &&& a.history_cap == b.history_cap
}

impl BrokerCore {
    fn owner_gate(&self, what: OwnerRequest, lease_token: Option<&str>, now: u64, control_available: bool) -> (r: Result<(u64, u64), String>)
        ensures
            match owner_gate_fault(*self, what, crate::policy::opt_str_view(lease_token), now, control_available) {
                Some(m) => r matches Err(e) && e@ == m,
                None => r == Ok::<(u64, u64), String>((self.connection_epoch, owner_timeout(self.policy))),
            },
    {
        let word = match what {
            OwnerRequest::Control => "control",
            OwnerRequest::Configuration => "configuration",
        };
        if self.handoff.is_some() {
            let a = concat_strs("serial handoff is active; ", word);
            return Err(concat_strs(a.as_str(), " is temporarily unavailable"));
        }
        if !self.port.connected {
            let a = concat_strs("serial port is disconnected; ", word);
            return Err(concat_strs(a.as_str(), " was not queued"));
        }
        let token = match lease_token {
            None => {
                return Err(concat_strs(word, " requires an active write lease token"));
            },
            Some(t) => t,
        };
        let granted = match &self.lock {
            Some(l) => l.authorizes(Some(token), now),
            None => false,
        };
        if !granted {
            return Err(concat_strs(word, " lease expired, was released, or was replaced"));
        }
        if !control_available {
            return Err(owned("serial owner control channel is unavailable"));
        }
        let timeout = if self.policy.write_timeout_ms == 0 {
            1
        } else {
            self.policy.write_timeout_ms
        };
        Ok((self.connection_epoch, timeout))
    }

    /// Check a control-line command before it goes to the serial owner; the
    /// caller must hold the running lease. Returns the connection epoch and
    /// the acknowledgement timeout.
    pub fn serial_control_gate(&self, actor: &str, lease_token: Option<&str>, command: &ControlCommand, now: u64, control_available: bool) -> (r: Result<(u64, u64), String>)
        ensures
            label_fault(actor@) matches Some(m) ==> (r matches Err(e) && e@ == m),
            label_fault(actor@) is None && bad_break(*command) ==> (r matches Err(e) && e@ == "break duration_ms must be between 1 and 1000"@),
            label_fault(actor@) is None && !bad_break(*command) ==> match owner_gate_fault(*self, OwnerRequest::Control, crate::policy::opt_str_view(lease_token), now, control_available) {
                Some(m) => r matches Err(e) && e@ == m,
                None => r == Ok::<(u64, u64), String>((self.connection_epoch, owner_timeout(self.policy))),
            },
    {
        match validate_actor_label(actor) {
            Err(e) => {
                return Err(e);
            },
            Ok(()) => {},
        }
        match command.validate() {
            Err(e) => {
                return Err(e);
            },
            Ok(()) => {},
        }
        self.owner_gate(OwnerRequest::Control, lease_token, now, control_available)
    }

    /// Check new line settings before they go to the serial owner; the caller
    /// must hold the running lease.
    pub fn serial_configure_gate(&self, actor: &str, lease_token: Option<&str>, settings: &SerialSettings, now: u64, control_available: bool) -> (r: Result<(u64, u64), String>)
        ensures
            label_fault(actor@) matches Some(m) ==> (r matches Err(e) && e@ == m),
            label_fault(actor@) is None && settings_fault(*settings) is Some ==> (r matches Err(e) && e@ == settings_fault(*settings).unwrap()),
            label_fault(actor@) is None && settings_fault(*settings) is None ==> match owner_gate_fault(*self, OwnerRequest::Configuration, crate::policy::opt_str_view(lease_token), now, control_available) {
                Some(m) => r matches Err(e) && e@ == m,
                None => r == Ok::<(u64, u64), String>((self.connection_epoch, owner_timeout(self.policy))),
            },
    {
        match validate_actor_label(actor) {
            Err(e) => {
                return Err(e);
            },
            Ok(()) => {},
        }
        match settings.validate() {
            Err(e) => {
                return Err(e);
            },
            Ok(()) => {},
        }
        self.owner_gate(OwnerRequest::Configuration, lease_token, now, control_available)
    }

    /// Record the serial owner's answer to a control command.
    pub fn control_outcome(&mut self, actor: &str, command: &ControlCommand, connection_epoch: u64, result: Result<(), String>) -> (r: Result<(), String>)
        ensures
            r == result,
            pushed_one(old(self).outbox@, final(self).outbox@, connection_epoch),
            match result {
                Ok(()) => is_control_event(final(self).outbox@.last().payload, Some(actor@), audit_name_of(*command), Some(audit_value_of(*command))),
                Err(e) => is_control_event(final(self).outbox@.last().payload, Some(actor@), audit_name_of(*command) + "_rejected"@, Some(e@)),
            },
            same_registry(*old(self), *final(self)),
            final(self).lock == old(self).lock,
            final(self).handoff == old(self).handoff,
    {
        let payload = match &result {
            Ok(()) => control_event(Some(owned(actor)), command.audit_name(), Some(command.audit_value())),
            Err(e) => {
                let name = concat_strs(command.audit_name(), "_rejected");
                control_event(Some(owned(actor)), name.as_str(), Some(e.clone()))
            },
        };
        self.push_event(connection_epoch, payload);
        proof {
            assert(self.outbox@.subrange(0, old(self).outbox@.len() as int) =~= old(self).outbox@);
        }
        result
    }

    /// Record the serial owner's answer to new line settings.
    pub fn configure_outcome(&mut self, actor: &str, settings: &SerialSettings, connection_epoch: u64, result: Result<(), String>) -> (r: Result<(), String>)
        ensures
            r == result,
            pushed_one(old(self).outbox@, final(self).outbox@, connection_epoch),
            match result {
                Ok(()) => is_control_event(final(self).outbox@.last().payload, Some(actor@), "serial_configured"@, Some(settings_value(*settings))),
                Err(e) => is_control_event(final(self).outbox@.last().payload, Some(actor@), "serial_configure_rejected"@, Some(e@)),
            },
            same_registry(*old(self), *final(self)),
            final(self).lock == old(self).lock,
            final(self).handoff == old(self).handoff,
    {
        let payload = match &result {
            Ok(()) => control_event(Some(owned(actor)), "serial_configured", Some(settings_text(settings))),
            Err(e) => control_event(Some(owned(actor)), "serial_configure_rejected", Some(e.clone())),
        };
        self.push_event(connection_epoch, payload);
        proof {
            assert(self.outbox@.subrange(0, old(self).outbox@.len() as int) =~= old(self).outbox@);
        }
        result
    }

    /// Queue a control event of the current connection epoch.
    pub fn record_control(&mut self, actor: Option<String>, name: &str, value: Option<String>)
        ensures
            pushed_one(old(self).outbox@, final(self).outbox@, old(self).connection_epoch),
            is_control_event(final(self).outbox@.last().payload, opt_view(actor), name@, opt_view(value)),
            same_registry(*old(self), *final(self)),
            final(self).lock == old(self).lock,
            final(self).handoff == old(self).handoff,
    {
        let epoch = self.connection_epoch;
        self.push_event(epoch, control_event(actor, name, value));
        proof {
            assert(self.outbox@.subrange(0, old(self).outbox@.len() as int) =~= old(self).outbox@);
        }
    }

    /// Note that durable persistence degraded. The first time, a persistence
    /// gap is queued (once per broker) and `true` returned.
    pub fn persistence_degraded(&mut self, connection_epoch: u64, reason: String) -> (first: bool)
        ensures
            first == !old(self).persistence_gap_reported,
            final(self).persistence_gap_reported,
            first ==> pushed_one(old(self).outbox@, final(self).outbox@, connection_epoch)
                && final(self).outbox@.last().payload == EventPayload::Gap(GapPayload {
                    scope: GapScope::Persistence,
                    certainty: GapCertainty::NotDelivered,
                    reason,
                    bytes: None,
                    actor: None,
                    client_ids: final(self).outbox@.last().payload->Gap_0.client_ids,
                })
                && final(self).outbox@.last().payload->Gap_0.client_ids@.len() == 0,
            !first ==> final(self).outbox@ == old(self).outbox@,
            same_registry(*old(self), *final(self)),
            final(self).lock == old(self).lock,
            final(self).handoff == old(self).handoff,
    {
        if self.persistence_gap_reported {
            return false;
        }
        self.persistence_gap_reported = true;
        let payload = EventPayload::Gap(
            GapPayload {
                scope: GapScope::Persistence,
                certainty: GapCertainty::NotDelivered,
                reason,
                bytes: None,
                actor: None,
                client_ids: Vec::new(),
            },
        );
        self.push_event(connection_epoch, payload);
        proof {
            assert(self.outbox@.subrange(0, old(self).outbox@.len() as int) =~= old(self).outbox@);
        }
        true
    }

    /// Accept a bounded handoff of the physical port to an external tool.
    /// The caller must hold the running lease; a fresh random handoff token
    /// is generated, and the handoff is active from now on.
    pub fn begin_handoff(&mut self, actor: &str, lease_token: Option<&str>, duration_ms: u64, now: u64, control_available: bool) -> (r: Result<HandoffStart, String>)
        requires
            old(self).wf(),
        ensures
            final(self).wf(),
            same_registry(*old(self), *final(self)),
            final(self).lock == old(self).lock,
            final(self).outbox == old(self).outbox,
            label_fault(actor@) matches Some(m) ==> (r matches Err(e) && e@ == m),
            label_fault(actor@) is None && !(1 <= duration_ms <= 600_000) ==> (r matches Err(e) && e@ == "handoff duration_ms must be between 1 and 600000"@),
            label_fault(actor@) is None && 1 <= duration_ms <= 600_000 ==> ({
                let token = crate::policy::opt_str_view(lease_token);
                if old(self).handoff is Some {
                    r matches Err(e) && e@ == "a serial handoff is already active"@
                } else if !old(self).port.connected {
                    r matches Err(e) && e@ == "serial port is disconnected; handoff was not queued"@
                } else if token is None {
                    r matches Err(e) && e@ == "handoff requires an active write lease token"@
                } else if !(old(self).lock is Some && old(self).lock.unwrap().grants(token, now)) {
                    r matches Err(e) && e@ == "handoff lease expired, was released, or was replaced"@
                } else if !control_available {
                    r matches Err(e) && e@ == "serial owner control channel is unavailable"@
                } else {
                    r is Ok || (r matches Err(e) && e@ == "random source unavailable"@)
                }
            }),
            r is Err ==> final(self).handoff == old(self).handoff,
            r matches Ok(h) ==> {
                &&& h.handoff_token@.len() == 32
                &&& forall|i: int| 0 <= i < 32 ==> is_lower_hex(#[trigger] h.handoff_token@[i])
                &&& h.path == old(self).port.path
                &&& h.connection_epoch == old(self).connection_epoch
                &&& h.timeout_ms == owner_timeout(old(self).policy)
                &&& final(self).handoff == Some(HandoffState {
                    token: h.handoff_token,
                    path: h.path,
                    expires_at: deadline_after(now, duration_ms),
                })
            },
    {
        match validate_actor_label(actor) {
            Err(e) => {
                return Err(e);
            },
            Ok(()) => {},
        }
        if duration_ms < 1 || duration_ms > 600_000 {
            return Err(owned("handoff duration_ms must be between 1 and 600000"));
        }
        if self.handoff.is_some() {
            return Err(owned("a serial handoff is already active"));
        }
        if !self.port.connected {
            return Err(owned("serial port is disconnected; handoff was not queued"));
        }
        let token = match lease_token {
            None => {
                return Err(owned("handoff requires an active write lease token"));
            },
            Some(t) => t,
        };
        let granted = match &self.lock {
            Some(l) => l.authorizes(Some(token), now),
            None => false,
        };
        if !granted {
            return Err(owned("handoff lease expired, was released, or was replaced"));
        }
        if !control_available {
            return Err(owned("serial owner control channel is unavailable"));
        }
        let handoff_token = match new_bearer_token() {
            Some(t) => t,
            None => {
                return Err(owned("random source unavailable"));
            },
        };
        let path = self.port.path.clone();
        self.handoff = Some(
            HandoffState {
                token: handoff_token.clone(),
                path: path.clone(),
                expires_at: now.saturating_add(duration_ms),
            },
        );
        let timeout_ms = if self.policy.write_timeout_ms == 0 {
            1
        } else {
            self.policy.write_timeout_ms
        };
        Ok(HandoffStart { handoff_token, path, connection_epoch: self.connection_epoch, timeout_ms })
    }

    /// The serial owner refused or missed the handoff: drop it (if it is
    /// still this one) and queue the refusal.
    pub fn handoff_failed(&mut self, start: &HandoffStart, actor: &str, error: &str)
        ensures
            same_registry(*old(self), *final(self)),
            final(self).lock == old(self).lock,
            final(self).handoff == if old(self).handoff is Some && old(self).handoff.unwrap().token@ == start.handoff_token@ {
                None
            } else {
                old(self).handoff
            },
            pushed_one(old(self).outbox@, final(self).outbox@, start.connection_epoch),
            is_control_event(final(self).outbox@.last().payload, Some(actor@), "handoff_rejected"@, Some(error@)),
    {
        let matches_token = match &self.handoff {
            Some(h) => str_eq(h.token.as_str(), start.handoff_token.as_str()),
            None => false,
        };
        if matches_token {
            self.handoff = None;
        }
        self.push_event(start.connection_epoch, control_event(Some(owned(actor)), "handoff_rejected", Some(owned(error))));
        proof {
            assert(self.outbox@.subrange(0, old(self).outbox@.len() as int) =~= old(self).outbox@);
        }
    }

    /// The serial owner released the port: the handoff's time-to-live starts
    /// now, and the running lease is revoked so no queued write can race the
    /// external tool.
    pub fn handoff_acknowledged(&mut self, start: HandoffStart, actor: &str, duration_ms: u64, now: u64) -> (v: HandoffView)
        ensures
            same_registry(*old(self), *final(self)),
            final(self).lock is None,
            final(self).handoff == match old(self).handoff {
                Some(h) => Some(HandoffState { expires_at: deadline_after(now, duration_ms), ..h }),
                None => None,
            },
            v.path == start.path,
            v.expires_ms == duration_ms,
            v.handoff_token == start.handoff_token,
            old(self).lock is None ==> pushed_one(old(self).outbox@, final(self).outbox@, start.connection_epoch),
            final(self).outbox@.len() == old(self).outbox@.len() + if old(self).lock is Some { 2int } else { 1int },
            final(self).outbox@.subrange(0, old(self).outbox@.len() as int) == old(self).outbox@,
            is_control_event(final(self).outbox@[old(self).outbox@.len() as int].payload, Some(actor@), "handoff_started"@, Some("duration_ms="@ + decimal(duration_ms as nat))),
            old(self).lock is Some ==> is_control_event(final(self).outbox@.last().payload, Some(old(self).lock.unwrap().owner@), "lease_released_for_handoff"@, None),
    {
        match &mut self.handoff {
            Some(h) => {
                h.expires_at = now.saturating_add(duration_ms);
            },
            None => {},
        }
        let mut released: Option<WriteLock> = None;
        std::mem::swap(&mut released, &mut self.lock);
        let value = concat_strs("duration_ms=", decimal_string(duration_ms).as_str());
        self.push_event(start.connection_epoch, control_event(Some(owned(actor)), "handoff_started", Some(value)));
        let ghost mid = self.outbox@;
        match released {
            Some(l) => {
                self.push_event(start.connection_epoch, control_event(Some(l.owner), "lease_released_for_handoff", None));
            },
            None => {},
        }
        proof {
            assert(mid.subrange(0, old(self).outbox@.len() as int) =~= old(self).outbox@);
            assert(self.outbox@.subrange(0, old(self).outbox@.len() as int) =~= old(self).outbox@);
            assert(self.outbox@[old(self).outbox@.len() as int] == mid[old(self).outbox@.len() as int]);
        }
        HandoffView { path: start.path, expires_ms: duration_ms, handoff_token: start.handoff_token }
    }

    /// Check a resume request: the handoff token must match the running
    /// handoff; an expired handoff fails closed and is dropped.
    pub fn resume_handoff_gate(&mut self, handoff_token: &str, now: u64, control_available: bool) -> (r: Result<(u64, u64), String>)
        ensures
            same_registry(*old(self), *final(self)),
            final(self).lock == old(self).lock,
            final(self).outbox == old(self).outbox,
            (handoff_token@.len() == 0 || utf8_len(handoff_token@) > 128) ==> (r matches Err(e) && e@ == "invalid handoff token"@) && final(self).handoff == old(self).handoff,
            !(handoff_token@.len() == 0 || utf8_len(handoff_token@) > 128) ==> match old(self).handoff {
                None => r matches Err(e) && e@ == "no active serial handoff"@,
                Some(h) => if h.expires_at <= now {
                    (r matches Err(e) && e@ == "handoff token expired"@) && final(self).handoff is None
                } else if h.token@ != handoff_token@ {
                    (r matches Err(e) && e@ == "invalid handoff token"@) && final(self).handoff == old(self).handoff
                } else if !control_available {
                    (r matches Err(e) && e@ == "serial owner control channel is unavailable"@) && final(self).handoff == old(self).handoff
                } else {
                    r == Ok::<(u64, u64), String>((old(self).connection_epoch, owner_timeout(old(self).policy))) && final(self).handoff == old(self).handoff
                },
            },
    {
        let cs = chars_of(handoff_token);
        if cs.len() == 0 || utf8_len_exceeds(cs.as_slice(), 128) {
            return Err(owned("invalid handoff token"));
        }
        let (expired, same) = match &self.handoff {
            None => {
                return Err(owned("no active serial handoff"));
            },
            Some(h) => (h.expires_at <= now, str_eq(h.token.as_str(), handoff_token)),
        };
        if expired {
            self.handoff = None;
            return Err(owned("handoff token expired"));
        }
        if !same {
            return Err(owned("invalid handoff token"));
        }
        if !control_available {
            return Err(owned("serial owner control channel is unavailable"));
        }
        let timeout = if self.policy.write_timeout_ms == 0 {
            1
        } else {
            self.policy.write_timeout_ms
        };
        Ok((self.connection_epoch, timeout))
    }

    /// The serial owner resumed: the handoff ends and is recorded.
    pub fn handoff_resumed(&mut self, connection_epoch: u64)
        ensures
            same_registry(*old(self), *final(self)),
            final(self).lock == old(self).lock,
            final(self).handoff is None,
            pushed_one(old(self).outbox@, final(self).outbox@, connection_epoch),
            is_control_event(final(self).outbox@.last().payload, None, "handoff_resumed"@, None),
    {
        self.handoff = None;
        self.push_event(connection_epoch, control_event(None, "handoff_resumed", None));
        proof {
            assert(self.outbox@.subrange(0, old(self).outbox@.len() as int) =~= old(self).outbox@);
        }
    }

    /// End a handoff whose time-to-live ran out; returns whether one did.
    pub fn expire_handoff(&mut self, now: u64) -> (expired: bool)
        ensures
            same_registry(*old(self), *final(self)),
            final(self).lock == old(self).lock,
            final(self).outbox == old(self).outbox,
            expired == (old(self).handoff is Some && old(self).handoff.unwrap().expires_at <= now),
            final(self).handoff == if expired {
                None
            } else {
                old(self).handoff
            },
    {
        let expired = match &self.handoff {
            Some(h) => h.expires_at <= now,
            None => false,
        };
        if expired {
            self.handoff = None;
        }
        expired
    }

    /// Drop any handoff.
    pub fn abort_handoff(&mut self)
        ensures
            same_registry(*old(self), *final(self)),
            final(self).lock == old(self).lock,
            final(self).outbox == old(self).outbox,
            final(self).handoff is None,
    {
        self.handoff = None;
    }
}

/// An admitted client write: the frames to hand to the serial owner, in order.
#[derive(Debug)]
pub struct AdmittedWrite {
    pub actor: String,
    pub primary_eligible: bool,
    pub frames: Vec<Vec<u8>>,
    pub connection_epoch: u64,
    pub write_timeout_ms: u64,
}

/// The lease after dropping an expired one.
pub open spec fn purged(lock: Option<WriteLock>, now: u64) -> Option<WriteLock> {
    if lease_running(lock, now) {
        lock
    } else {
        None
    }
}

/// Whether the registered client `info` holds the primary capability.
pub open spec fn is_primary(p: Policy, info: ClientInfo) -> bool {
    info.primary_eligible && p.primary is Some && p.primary.unwrap()@ == info.name@
}

/// The admission verdict for a write by `info` with `token` at `now`.
pub open spec fn write_verdict(b: BrokerCore, info: ClientInfo, token: Option<Seq<char>>, now: u64) -> Verdict {
    verdict_for(
        b.policy.mode,
        opt_view(b.policy.primary),
        is_primary(b.policy, info),
        primary_present(b.clients@, b.policy.primary),
        purged(b.lock, now),
        token,
        now,
    )
}

/// The denial reason for a write by `info` with `token` at `now`.
pub open spec fn write_denial(b: BrokerCore, info: ClientInfo, token: Option<Seq<char>>, now: u64) -> Seq<char> {
    reason_for(
        b.policy.mode,
        opt_view(b.policy.primary),
        is_primary(b.policy, info),
        primary_present(b.clients@, b.policy.primary),
        purged(b.lock, now),
        token,
        now,
    )
}

/// Why a client write is refused before framing, if it is, and whether the
/// refusal counts as a TX denial.
pub open spec fn tx_gate_fault(b: BrokerCore, id: ClientId, token: Option<Seq<char>>, now: u64) -> Option<(Seq<char>, bool)> {
    if b.handoff is Some {
        Some(("serial handoff is active; write was not queued"@, true))
    } else if !b.port.connected {
        Some(("serial port '"@ + b.port.path@ + "' is disconnected; write was not queued"@, true))
    } else if slot_of(b.clients@, id) is None {
        Some(("client not registered"@, false))
    } else if !b.clients@[slot_of(b.clients@, id).unwrap()].info.can_write {
        Some(("client is read-only"@, true))
    } else if !(write_verdict(b, b.clients@[slot_of(b.clients@, id).unwrap()].info, token, now) is Allow) {
        Some((write_denial(b, b.clients@[slot_of(b.clients@, id).unwrap()].info, token, now), true))
    } else {
        None
    }
}

/// Counted denial: `n + 1` wrapping, as the atomic counter does.
pub open spec fn bump(n: u64) -> u64 {
    n.wrapping_add(1)
}

/// The message of an oversized single write.
pub open spec fn oversize_message(atomic: bool, max: usize) -> Seq<char> {
    (if atomic {
        "atomic write exceeds tx.max_write_bytes ("@
    } else {
        "stream write exceeds tx.max_write_bytes ("@
    }) + decimal(max as nat) + ")"@
}

/// Whether a write goes through the line/frame assembler.
pub open spec fn assembles(mode: TxMode, atomic: bool) -> bool {
    !atomic && (mode is QueueByLine || mode is QueueByFrame)
}

impl BrokerCore {
    fn deny(&mut self)
        ensures
            final(self).stats == (StatsView { tx_denies: bump(old(self).stats.tx_denies), ..old(self).stats }),
            final(self).clients == old(self).clients,
            final(self).lock == old(self).lock,
            final(self).handoff == old(self).handoff,
            final(self).outbox == old(self).outbox,
            final(self).connection_epoch == old(self).connection_epoch,
            final(self).port == old(self).port,
            final(self).policy == old(self).policy,
            final(self).history == old(self).history,
            final(self).history_cap == old(self).history_cap,
            final(self).persistence_gap_reported == old(self).persistence_gap_reported,
    {
        self.stats.tx_denies = self.stats.tx_denies.wrapping_add(1);
    }

    /// Admit and frame a client write (the decision part of a client TX).
    /// An expired lease is dropped first. An empty write is accepted with
    /// nothing to send (an empty API write body is refused before it gets
    /// here, by `write_body_bytes`). Denials are counted, except for an
    /// unknown client.
    /// Stream writes in line or frame mode go through the client's
    /// assembler; atomic writes and raw modes are one bounded frame.
    pub fn admit_client_write(&mut self, id: ClientId, data: &[u8], lease_token: Option<&str>, atomic: bool, now: u64) -> (r: Result<Option<AdmittedWrite>, String>)
        requires
            old(self).wf(),
        ensures
            final(self).wf(),
            final(self).handoff == old(self).handoff,
            final(self).outbox == old(self).outbox,
            final(self).connection_epoch == old(self).connection_epoch,
            final(self).port == old(self).port,
            final(self).policy == old(self).policy,
            final(self).history == old(self).history,
            data@.len() == 0 ==> (r matches Ok(None)) && final(self).clients == old(self).clients
                && final(self).lock == old(self).lock && final(self).stats == old(self).stats,
            data@.len() > 0 ==> final(self).lock == purged(old(self).lock, now),
            data@.len() > 0 ==> match tx_gate_fault(*old(self), id, opt_str_view(lease_token), now) {
                Some((m, counted)) => {
                    &&& r matches Err(e) && e@ == m
                    &&& final(self).clients == old(self).clients
                    &&& final(self).stats == if counted {
                        StatsView { tx_denies: bump(old(self).stats.tx_denies), ..old(self).stats }
                    } else {
                        old(self).stats
                    }
                },
                None => {
                    let i = slot_of(old(self).clients@, id).unwrap();
                    let info = old(self).clients@[i].info;
                    let p = old(self).policy;
                    &&& final(self).clients@.len() == old(self).clients@.len()
                    &&& forall|j: int| 0 <= j < old(self).clients@.len() && j != i ==> final(self).clients@[j] == old(self).clients@[j]
                    &&& final(self).clients@[i].info == info
                    &&& if assembles(p.mode, atomic) {
                        let s = assemble(old(self).clients@[i].assembler@, data@, p.frame_delim, p.max_frame_bytes as nat);
                        &&& final(self).clients@[i].assembler@ == s.buf
                        &&& if s.overflowed {
                            &&& r matches Err(e) && e@ == frame_overflow_message(p.max_frame_bytes as nat)
                            &&& final(self).stats == (StatsView { tx_denies: bump(old(self).stats.tx_denies), ..old(self).stats })
                        } else {
                            &&& r matches Ok(Some(w)) && w.frames@.len() == s.frames.len()
                                && (forall|k: int| 0 <= k < s.frames.len() ==> #[trigger] w.frames@[k]@ == s.frames[k])
                                && w.actor@ == info.name@ && w.primary_eligible == info.primary_eligible
                                && w.connection_epoch == old(self).connection_epoch
                                && w.write_timeout_ms == p.write_timeout_ms
                            &&& final(self).stats == old(self).stats
                        }
                    } else {
                        &&& final(self).clients@[i].assembler@ == old(self).clients@[i].assembler@
                        &&& if data@.len() > p.max_write_bytes {
                            &&& r matches Err(e) && e@ == oversize_message(atomic, p.max_write_bytes)
                            &&& final(self).stats == (StatsView { tx_denies: bump(old(self).stats.tx_denies), ..old(self).stats })
                        } else {
                            &&& r matches Ok(Some(w)) && w.frames@.len() == 1 && w.frames@[0]@ == data@
                                && w.actor@ == info.name@ && w.primary_eligible == info.primary_eligible
                                && w.connection_epoch == old(self).connection_epoch
                                && w.write_timeout_ms == p.write_timeout_ms
                            &&& final(self).stats == old(self).stats
                        }
                    }
                },
            },
    {
        if data.len() == 0 {
            return Ok(None);
        }
        let expired = match &self.lock {
            Some(l) => !l.active(now),
            None => false,
        };
        if expired {
            self.lock = None;
        }
        if self.handoff.is_some() {
            self.deny();
            return Err(owned("serial handoff is active; write was not queued"));
        }
        if !self.port.connected {
            self.deny();
            let a = concat_strs("serial port '", self.port.path.as_str());
            return Err(concat_strs(a.as_str(), "' is disconnected; write was not queued"));
        }
        let i = match self.position(id) {
            None => {
                return Err(owned("client not registered"));
            },
            Some(i) => i,
        };
        if !self.clients[i].info.can_write {
            self.deny();
            return Err(owned("client is read-only"));
        }
        let primary_connected = self.primary_connected();
        let decision = {
            let info = &self.clients[i].info;
            let client_is_primary = info.primary_eligible && match &self.policy.primary {
                Some(p) => str_eq(p.as_str(), info.name.as_str()),
                None => false,
            };
            let primary: Option<&str> = match &self.policy.primary {
                Some(p) => Some(p.as_str()),
                None => None,
            };
            let ctx = AdmitContext {
                mode: self.policy.mode,
                client: info.name.as_str(),
                primary,
                client_is_primary,
                primary_connected,
                lock: match &self.lock {
                    Some(l) => Some(l),
                    None => None,
                },
                lease_token,
                now,
            };
            proof {
                assert(opt_str_view(ctx.primary) == opt_view(self.policy.primary));
                assert(crate::policy::lock_of(ctx) == self.lock);
            }
            admit_write(ctx)
        };
        match decision {
            AdmitDecision::Deny { reason } => {
                self.deny();
                return Err(reason);
            },
            AdmitDecision::Allow => {},
        }
        let mode = self.policy.mode;
        let max_write = self.policy.max_write_bytes;
        let actor = self.clients[i].info.name.clone();
        let primary_eligible = self.clients[i].info.primary_eligible;
        let epoch = self.connection_epoch;
        let write_timeout_ms = self.policy.write_timeout_ms;
        let assemble_now = !atomic && match mode {
            TxMode::QueueByLine | TxMode::QueueByFrame => true,
            _ => false,
        };
        if assemble_now {
            let delim = self.policy.frame_delim;
            let max_frame = self.policy.max_frame_bytes;
            let ghost before = self.clients@;
            let mut slot = self.clients.remove(i);
            let pushed = slot.assembler.push(data, delim, max_frame);
            self.clients.insert(i, slot);
            proof {
                assert forall|j: int| 0 <= j < before.len() && j != i implies self.clients@[j] == before[j] by {
                    if j < i {
                        assert(self.clients@[j] == before[j]);
                    } else {
                        assert(self.clients@[j] == before[j]);
                    }
                }
                assert forall|a: int, b: int| 0 <= a < b < self.clients@.len() implies self.clients@[a].info.id
                    != self.clients@[b].info.id by {
                    assert(self.clients@[a].info == before[a].info);
                    assert(self.clients@[b].info == before[b].info);
                }
            }
            match pushed {
                Err(e) => {
                    self.deny();
                    Err(e)
                },
                Ok(frames) => Ok(Some(AdmittedWrite { actor, primary_eligible, frames, connection_epoch: epoch, write_timeout_ms })),
            }
        } else {
            if data.len() > max_write {
                self.deny();
                let head = if atomic {
                    "atomic write exceeds tx.max_write_bytes ("
                } else {
                    "stream write exceeds tx.max_write_bytes ("
                };
                let a = concat_strs(head, decimal_string(max_write as u64).as_str());
                return Err(concat_strs(a.as_str(), ")"));
            }
            let mut frames: Vec<Vec<u8>> = Vec::new();
            frames.push(crate::text::bytes_to_vec(data));
            Ok(Some(AdmittedWrite { actor, primary_eligible, frames, connection_epoch: epoch, write_timeout_ms }))
        }
    }
}

/// The authority a queued device write was admitted under.
#[derive(Debug, Clone)]
pub struct WriteTicket {
    pub client_id: ClientId,
    pub connection_epoch: u64,
    pub lease_token: Option<String>,
    pub primary_eligible: bool,
    /// Monotonic deadline in milliseconds.
    pub deadline: u64,
    pub actor: String,
}

/// Why the serial owner must not perform a queued write, if it must not.
pub open spec fn device_write_fault(b: BrokerCore, w: WriteTicket, now: u64) -> Option<Seq<char>> {
    let i = slot_of(b.clients@, w.client_id);
    if b.handoff is Some {
        Some("serial handoff is active; write was not attempted"@)
    } else if !b.port.connected || w.connection_epoch != b.connection_epoch {
        Some("stale connection epoch"@)
    } else if now >= w.deadline {
        Some("write deadline expired before the device write"@)
    } else if i is None {
        Some("originating client disconnected before the device write"@)
    } else if !b.clients@[i.unwrap()].info.can_write || b.clients@[i.unwrap()].info.name@ != w.actor@
        || b.clients@[i.unwrap()].info.primary_eligible != w.primary_eligible {
        Some("originating client authority changed before the device write"@)
    } else if w.lease_token is Some && !(b.lock is Some && b.lock.unwrap().grants(opt_view(w.lease_token), now)) {
        Some("write lease expired, was released, or was replaced"@)
    } else if !(verdict_for(
        b.policy.mode,
        opt_view(b.policy.primary),
        w.primary_eligible && b.policy.primary is Some && b.policy.primary.unwrap()@ == w.actor@,
        primary_present(b.clients@, b.policy.primary),
        b.lock,
        opt_view(w.lease_token),
        now,
    ) is Allow) {
        Some(reason_for(
            b.policy.mode,
            opt_view(b.policy.primary),
            w.primary_eligible && b.policy.primary is Some && b.policy.primary.unwrap()@ == w.actor@,
            primary_present(b.clients@, b.policy.primary),
            b.lock,
            opt_view(w.lease_token),
            now,
        ))
    } else {
        None
    }
}

/// A plan for offering one RX chunk to the reading clients.
#[derive(Debug)]
pub struct RxPlan {
    pub connection_epoch: u64,
    pub recipients: Vec<ClientId>,
    pub slow_client: SlowClientPolicy,
    pub block_ms: u64,
}

/// The identifiers of the clients that read, in registry order.
pub open spec fn readers(s: Seq<ClientSlot>) -> Seq<ClientId>
    decreases s.len(),
{
    if s.len() == 0 {
        Seq::empty()
    } else if s.last().info.can_read {
        readers(s.drop_last()).push(s.last().info.id)
    } else {
        readers(s.drop_last())
    }
}

/// The last `cap` bytes of `s`.
pub open spec fn keep_last(s: Seq<u8>, cap: nat) -> Seq<u8> {
    if s.len() <= cap {
        s
    } else {
        s.subrange(s.len() - cap, s.len() as int)
    }
}

/// The RX history after `data` arrives: the newest `cap` bytes (none when `cap` is zero).
pub open spec fn history_after(h: Seq<u8>, data: Seq<u8>, cap: nat) -> Seq<u8> {
    if cap == 0 {
        h
    } else {
        keep_last(h + data, cap)
    }
}

/// Counters of one RX delivery.
pub struct Tally {
    pub oldest: u64,
    pub newest: u64,
    pub blocked: u64,
    pub disconnects: u64,
}

/// What a sequence of delivery outcomes adds up to (counters wrap).
pub open spec fn tally(s: Seq<(ClientId, FanoutResult)>) -> Tally
    decreases s.len(),
{
    if s.len() == 0 {
        Tally { oldest: 0, newest: 0, blocked: 0, disconnects: 0 }
    } else {
        let t = tally(s.drop_last());
        match s.last().1 {
            FanoutResult::DroppedOldest => Tally { oldest: t.oldest.wrapping_add(1), ..t },
            FanoutResult::DroppedNewest => Tally { newest: t.newest.wrapping_add(1), ..t },
            FanoutResult::BlockedThenQueued => Tally { blocked: t.blocked.wrapping_add(1), ..t },
            FanoutResult::Disconnected { dropped, blocked } => Tally {
                newest: t.newest.wrapping_add(dropped),
                blocked: t.blocked.wrapping_add(if blocked { 1u64 } else { 0u64 }),
                disconnects: t.disconnects.wrapping_add(1),
                ..t
            },
            _ => t,
        }
    }
}

/// The clients that lost a chunk.
pub open spec fn gap_clients(s: Seq<(ClientId, FanoutResult)>) -> Seq<ClientId>
    decreases s.len(),
{
    if s.len() == 0 {
        Seq::empty()
    } else {
        let g = gap_clients(s.drop_last());
        match s.last().1 {
            FanoutResult::DroppedOldest | FanoutResult::DroppedNewest => g.push(s.last().0),
            FanoutResult::Disconnected { dropped, .. } => if dropped > 0 {
                g.push(s.last().0)
            } else {
                g
            },
            _ => g,
        }
    }
}

/// The clients whose queue is gone.
pub open spec fn dead_clients(s: Seq<(ClientId, FanoutResult)>) -> Seq<ClientId>
    decreases s.len(),
{
    if s.len() == 0 {
        Seq::empty()
    } else {
        let d = dead_clients(s.drop_last());
        match s.last().1 {
            FanoutResult::Disconnected { .. } | FanoutResult::Closed => d.push(s.last().0),
            _ => d,
        }
    }
}

/// The reason of a client-delivery gap.
pub open spec fn delivery_gap_reason(oldest: u64, newest: u64) -> Seq<char> {
    "slow-client policy dropped delivery (oldest="@ + decimal(oldest as nat) + ", newest="@
        + decimal(newest as nat) + ")"@
}

impl EndpointView {
    /// A copy of this view.
    pub fn duplicate(&self) -> (r: Self)
        ensures
            r == *self,
    {
        EndpointView {
            kind: self.kind.clone(),
            name: self.name.clone(),
            address: self.address.clone(),
            can_read: self.can_read,
            can_write: self.can_write,
            note: self.note.clone(),
        }
    }
}

impl BrokerCore {
    /// The serial owner's final gate before the host write: the write's
    /// client, epoch, deadline and lease must all still hold, and admission
    /// must still allow it.
    pub fn validate_device_write(&self, w: &WriteTicket, now: u64) -> (r: Result<(), String>)
        requires
            self.wf(),
        ensures
            match device_write_fault(*self, *w, now) {
                Some(m) => r matches Err(e) && e@ == m,
                None => r is Ok,
            },
    {
        if self.handoff.is_some() {
            return Err(owned("serial handoff is active; write was not attempted"));
        }
        if !self.port.connected || w.connection_epoch != self.connection_epoch {
            return Err(owned("stale connection epoch"));
        }
        if now >= w.deadline {
            return Err(owned("write deadline expired before the device write"));
        }
        let i = match self.position(w.client_id) {
            None => {
                return Err(owned("originating client disconnected before the device write"));
            },
            Some(i) => i,
        };
        let info = &self.clients[i].info;
        if !info.can_write || !str_eq(info.name.as_str(), w.actor.as_str())
            || info.primary_eligible != w.primary_eligible {
            return Err(owned("originating client authority changed before the device write"));
        }
        let token: Option<&str> = match &w.lease_token {
            Some(t) => Some(t.as_str()),
            None => None,
        };
        match token {
            Some(t) => {
                let granted = match &self.lock {
                    Some(l) => l.authorizes(Some(t), now),
                    None => false,
                };
                if !granted {
                    return Err(owned("write lease expired, was released, or was replaced"));
                }
            },
            None => {},
        }
        let primary: Option<&str> = match &self.policy.primary {
            Some(p) => Some(p.as_str()),
            None => None,
        };
        let client_is_primary = w.primary_eligible && match primary {
            Some(p) => str_eq(p, w.actor.as_str()),
            None => false,
        };
        let ctx = AdmitContext {
            mode: self.policy.mode,
            client: w.actor.as_str(),
            primary,
            client_is_primary,
            primary_connected: self.primary_connected(),
            lock: match &self.lock {
                Some(l) => Some(l),
                None => None,
            },
            lease_token: token,
            now,
        };
        proof {
            assert(opt_str_view(ctx.primary) == opt_view(self.policy.primary));
            assert(crate::policy::lock_of(ctx) == self.lock);
            assert(opt_str_view(ctx.lease_token) == opt_view(w.lease_token));
        }
        match admit_write(ctx) {
            AdmitDecision::Allow => Ok(()),
            AdmitDecision::Deny { reason } => Err(reason),
        }
    }

    /// The serial owner wrote `data` for `w`: queue its TX event and count the bytes.
    pub fn tx_written(&mut self, w: &WriteTicket, data: &[u8])
        requires
            data@.len() <= isize::MAX,
        ensures
            pushed_one(old(self).outbox@, final(self).outbox@, w.connection_epoch),
            final(self).outbox@.last().payload matches EventPayload::Tx(t) && t.actor@ == w.actor@
                && opt_view(t.client_id) == Some(uuid_hyphenated(w.client_id.0))
                && crate::schema::payload_bytes(t.bytes) == Some(data@),
            final(self).stats == (StatsView { tx_bytes: old(self).stats.tx_bytes.wrapping_add(data@.len() as u64), ..old(self).stats }),
            final(self).clients == old(self).clients,
            final(self).lock == old(self).lock,
            final(self).handoff == old(self).handoff,
            final(self).connection_epoch == old(self).connection_epoch,
    {
        let payload = EventPayload::tx_from(w.actor.as_str(), Some(uuid_text(w.client_id.0)), data);
        self.push_event(w.connection_epoch, payload);
        self.stats.tx_bytes = self.stats.tx_bytes.wrapping_add(data.len() as u64);
        proof {
            assert(self.outbox@.subrange(0, old(self).outbox@.len() as int) =~= old(self).outbox@);
        }
    }

    /// The host write for `w` failed; what reached the device is unknown.
    /// Queues a TX-outcome gap and returns the message for the waiting caller.
    pub fn tx_failed(&mut self, w: &WriteTicket, data: &[u8], reason: &str) -> (message: String)
        requires
            data@.len() <= isize::MAX,
        ensures
            message@ == "device write failed; side effect may be partial or unknown: "@ + reason@,
            pushed_one(old(self).outbox@, final(self).outbox@, w.connection_epoch),
            final(self).outbox@.last().payload matches EventPayload::Gap(g) && g.scope
                == GapScope::TxOutcome && g.certainty == GapCertainty::PartialOrUnknown && g.reason@
                == reason@ && (g.bytes matches Some(b) && crate::schema::payload_bytes(b) == Some(data@))
                && opt_view(g.actor) == Some(w.actor@) && g.client_ids@.len() == 1
                && g.client_ids@[0]@ == uuid_hyphenated(w.client_id.0),
            final(self).stats == old(self).stats,
            final(self).clients == old(self).clients,
            final(self).lock == old(self).lock,
            final(self).handoff == old(self).handoff,
    {
        let mut ids: Vec<String> = Vec::new();
        ids.push(uuid_text(w.client_id.0));
        let payload = EventPayload::Gap(
            GapPayload {
                scope: GapScope::TxOutcome,
                certainty: GapCertainty::PartialOrUnknown,
                reason: owned(reason),
                bytes: Some(BytesPayload::from_bytes(data)),
                actor: Some(w.actor.clone()),
                client_ids: ids,
            },
        );
        self.push_event(w.connection_epoch, payload);
        proof {
            assert(self.outbox@.subrange(0, old(self).outbox@.len() as int) =~= old(self).outbox@);
        }
        concat_strs("device write failed; side effect may be partial or unknown: ", reason)
    }

    /// A serial read failed: what the device sent meanwhile is unknown.
    /// Queues an RX-observation gap on the current connection.
    pub fn serial_read_gap(&mut self, reason: &str)
        ensures
            pushed_one(old(self).outbox@, final(self).outbox@, old(self).connection_epoch),
            final(self).outbox@.last().payload matches EventPayload::Gap(g) && g.scope
                == GapScope::RxObservation && g.certainty == GapCertainty::Unknown && g.reason@
                == reason@ && g.bytes is None && g.actor is None && g.client_ids@.len() == 0,
            final(self).connection_epoch == old(self).connection_epoch,
            final(self).stats == old(self).stats,
            final(self).clients == old(self).clients,
            final(self).lock == old(self).lock,
            final(self).handoff == old(self).handoff,
    {
        let payload = EventPayload::Gap(
            GapPayload {
                scope: GapScope::RxObservation,
                certainty: GapCertainty::Unknown,
                reason: owned(reason),
                bytes: None,
                actor: None,
                client_ids: Vec::new(),
            },
        );
        let epoch = self.connection_epoch;
        self.push_event(epoch, payload);
        proof {
            assert(self.outbox@.subrange(0, old(self).outbox@.len() as int) =~= old(self).outbox@);
        }
    }

    /// The serial owner refused `w` before any host write: nothing reached
    /// the device. Queues the refusal, counts a denial and returns the
    /// message for the waiting caller.
    pub fn tx_not_written(&mut self, w: &WriteTicket, byte_count: usize, reason: &str) -> (message: String)
        ensures
            message@ == "device write was not attempted: "@ + reason@,
            pushed_one(old(self).outbox@, final(self).outbox@, w.connection_epoch),
            is_control_event(
                final(self).outbox@.last().payload,
                Some(w.actor@),
                "write_rejected"@,
                Some("client_id="@ + uuid_hyphenated(w.client_id.0) + " bytes="@ + decimal(byte_count as nat) + " reason="@ + reason@),
            ),
            final(self).stats == (StatsView { tx_denies: bump(old(self).stats.tx_denies), ..old(self).stats }),
            final(self).clients == old(self).clients,
            final(self).lock == old(self).lock,
            final(self).handoff == old(self).handoff,
    {
        let a = concat_strs("client_id=", uuid_text(w.client_id.0).as_str());
        let b = concat_strs(a.as_str(), " bytes=");
        let c = concat_strs(b.as_str(), decimal_string(byte_count as u64).as_str());
        let d = concat_strs(c.as_str(), " reason=");
        let value = concat_strs(d.as_str(), reason);
        self.push_event(w.connection_epoch, control_event(Some(w.actor.clone()), "write_rejected", Some(value)));
        self.deny();
        proof {
            assert(self.outbox@.subrange(0, old(self).outbox@.len() as int) =~= old(self).outbox@);
        }
        concat_strs("device write was not attempted: ", reason)
    }

    /// The identifiers of the reading clients.
    fn reading_clients(&self) -> (ids: Vec<ClientId>)
        ensures
            ids@ == readers(self.clients@),
    {
        let mut ids: Vec<ClientId> = Vec::new();
        let mut i: usize = 0;
        while i < self.clients.len()
            invariant
                i <= self.clients@.len(),
                ids@ == readers(self.clients@.subrange(0, i as int)),
            decreases self.clients@.len() - i,
        {
            proof {
                assert(self.clients@.subrange(0, i + 1).drop_last() =~= self.clients@.subrange(0, i as int));
            }
            if self.clients[i].info.can_read {
                ids.push(self.clients[i].info.id);
            }
            i = i + 1;
        }
        assert(self.clients@.subrange(0, i as int) =~= self.clients@);
        ids
    }

    /// Append `data` to the RX history, keeping the newest `history_cap` bytes.
    fn remember(&mut self, data: &[u8])
        requires
            old(self).wf(),
        ensures
            final(self).wf(),
            final(self).history@ == history_after(old(self).history@, data@, old(self).history_cap as nat),
            final(self).history_cap == old(self).history_cap,
            final(self).clients == old(self).clients,
            final(self).outbox == old(self).outbox,
            final(self).stats == old(self).stats,
            final(self).lock == old(self).lock,
            final(self).handoff == old(self).handoff,
            final(self).connection_epoch == old(self).connection_epoch,
            final(self).policy == old(self).policy,
            final(self).port == old(self).port,
    {
        if self.history_cap == 0 {
            return;
        }
        let cap = self.history_cap;
        let ghost h = self.history@;
        let mut i: usize = 0;
        while i < data.len()
            invariant
                cap == self.history_cap,
                cap > 0,
                i <= data@.len(),
                self.history@ == keep_last(h + data@.subrange(0, i as int), cap as nat),
                self.history@.len() <= cap,
                h.len() <= cap,
                self.clients == old(self).clients,
                self.outbox == old(self).outbox,
                self.stats == old(self).stats,
                self.lock == old(self).lock,
                self.handoff == old(self).handoff,
                self.connection_epoch == old(self).connection_epoch,
                self.policy == old(self).policy,
                self.port == old(self).port,
                unique_ids(self.clients@),
            decreases data@.len() - i,
        {
            let ghost before = self.history@;
            let ghost all = h + data@.subrange(0, i as int);
            let ghost next = h + data@.subrange(0, i + 1);
            assert(next =~= all.push(data@[i as int]));
            if self.history.len() >= cap {
                let _ = self.history.pop_front();
            }
            self.history.push_back(data[i]);
            proof {
                if all.len() + 1 <= cap {
                    assert(self.history@ =~= next);
                } else {
                    assert(self.history@ =~= next.subrange(next.len() - cap, next.len() as int));
                }
            }
            i = i + 1;
        }
        assert(data@.subrange(0, i as int) =~= data@);
    }

    /// The device produced `data`: queue its RX event, count it, remember it,
    /// and plan its delivery to every reading client.
    pub fn on_device_rx(&mut self, data: &[u8]) -> (plan: Option<RxPlan>)
        requires
            old(self).wf(),
            data@.len() <= isize::MAX,
        ensures
            final(self).wf(),
            data@.len() == 0 ==> plan is None && final(self).outbox == old(self).outbox
                && final(self).history == old(self).history && final(self).stats == old(self).stats,
            data@.len() > 0 ==> {
                &&& plan matches Some(p) && p.connection_epoch == old(self).connection_epoch
                    && p.recipients@ == readers(old(self).clients@) && p.slow_client
                    == old(self).policy.slow_client && p.block_ms == old(self).policy.slow_block_ms
                &&& pushed_one(old(self).outbox@, final(self).outbox@, old(self).connection_epoch)
                &&& final(self).outbox@.last().payload matches EventPayload::Rx(b)
                    && crate::schema::payload_bytes(b) == Some(data@)
                &&& final(self).stats == (StatsView { rx_bytes: old(self).stats.rx_bytes.wrapping_add(data@.len() as u64), ..old(self).stats })
                &&& final(self).history@ == history_after(old(self).history@, data@, old(self).history_cap as nat)
            },
            final(self).clients == old(self).clients,
            final(self).lock == old(self).lock,
            final(self).handoff == old(self).handoff,
            final(self).connection_epoch == old(self).connection_epoch,
            final(self).history_cap == old(self).history_cap,
    {
        if data.len() == 0 {
            return None;
        }
        let epoch = self.connection_epoch;
        self.push_event(epoch, EventPayload::rx(data));
        let ghost mid = self.outbox@;
        self.stats.rx_bytes = self.stats.rx_bytes.wrapping_add(data.len() as u64);
        self.remember(data);
        proof {
            assert(self.outbox@.subrange(0, old(self).outbox@.len() as int) =~= old(self).outbox@);
        }
        Some(RxPlan {
            connection_epoch: epoch,
            recipients: self.reading_clients(),
            slow_client: self.policy.slow_client,
            block_ms: self.policy.slow_block_ms,
        })
    }

    /// The RX history, oldest byte first.
    pub fn history_bytes(&self) -> (bytes: Vec<u8>)
        ensures
            bytes@ == self.history@,
    {
        let mut out: Vec<u8> = Vec::new();
        let mut i: usize = 0;
        while i < self.history.len()
            invariant
                i <= self.history@.len(),
                out@ == self.history@.subrange(0, i as int),
            decreases self.history@.len() - i,
        {
            out.push(self.history[i]);
            i = i + 1;
        }
        assert(out@ =~= self.history@);
        out
    }
}

proof fn lemma_push_contains(s: Seq<ClientId>, x: ClientId, y: ClientId)
    ensures
        s.push(x).contains(y) == (s.contains(y) || y == x),
{
    if s.contains(y) {
        let w = choose|w: int| 0 <= w < s.len() && s[w] == y;
        assert(s.push(x)[w] == y);
    }
    if y == x {
        assert(s.push(x)[s.len() as int] == y);
    }
    if s.push(x).contains(y) && y != x {
        let w = choose|w: int| 0 <= w < s.len() + 1 && s.push(x)[w] == y;
        assert(w < s.len());
        assert(s[w] == y);
    }
}

/// Removing slot `i` keeps every other client and drops exactly the one at `i`.
proof fn lemma_remove_slot(s: Seq<ClientSlot>, i: int, x: ClientId)
    requires
        unique_ids(s),
        0 <= i < s.len(),
    ensures
        unique_ids(s.remove(i)),
        (slot_of(s.remove(i), x) is Some) == (slot_of(s, x) is Some && x != s[i].info.id),
{
    let r = s.remove(i);
    assert forall|a: int, b: int| 0 <= a < b < r.len() implies r[a].info.id != r[b].info.id by {
        let oa = if a < i { a } else { a + 1 };
        let ob = if b < i { b } else { b + 1 };
        assert(r[a] == s[oa]);
        assert(r[b] == s[ob]);
    }
    if slot_of(s, x) is Some && x != s[i].info.id {
        let k = choose|k: int| 0 <= k < s.len() && s[k].info.id == x;
        assert(k != i);
        let rk = if k < i { k } else { k - 1 };
        assert(r[rk] == s[k]);
    }
    if slot_of(r, x) is Some {
        let k = choose|k: int| 0 <= k < r.len() && r[k].info.id == x;
        let ok = if k < i { k } else { k + 1 };
        assert(r[k] == s[ok]);
        assert(ok != i);
    }
}

/// Each client queue by its abstract state.
pub open spec fn queue_views(qs: Seq<(ClientId, FanoutQueue)>) -> Seq<(ClientId, FanoutView)> {
    qs.map_values(|p: (ClientId, FanoutQueue)| (p.0, p.1@))
}

/// Every queue is a valid bounded queue.
pub open spec fn queues_valid(qs: Seq<(ClientId, FanoutView)>) -> bool {
    forall|k: int| 0 <= k < qs.len() ==> (#[trigger] qs[k]).1.valid()
}

/// `k` is the first queue of client `id`.
pub open spec fn first_queue(qs: Seq<(ClientId, FanoutView)>, id: ClientId, k: int) -> bool {
    &&& 0 <= k < qs.len()
    &&& qs[k].0 == id
    &&& forall|j: int| 0 <= j < k ==> qs[j].0 != id
}

/// Offering one chunk to the queues of `recipients`, in their order: the
/// queues afterwards, and each offered client's outcome. A recipient with no
/// queue is passed over; `waited_for` lists the clients whose queue the
/// caller waited on under the `block` policy.
pub open spec fn fan_out(
    qs: Seq<(ClientId, FanoutView)>,
    recipients: Seq<ClientId>,
    data: Seq<u8>,
    policy: SlowClientPolicy,
    waited_for: Seq<ClientId>,
) -> (Seq<(ClientId, FanoutView)>, Seq<(ClientId, FanoutResult)>)
    decreases recipients.len(),
{
    if recipients.len() == 0 {
        (qs, Seq::empty())
    } else {
        let (q1, outs) = fan_out(qs, recipients.drop_last(), data, policy, waited_for);
        let id = recipients.last();
        if exists|k: int| first_queue(q1, id, k) {
            let k = choose|k: int| first_queue(q1, id, k);
            let (v, r) = offer_outcome(q1[k].1, data, policy, waited_for.contains(id));
            (q1.update(k, (id, v)), outs.push((id, r)))
        } else {
            (q1, outs)
        }
    }
}

proof fn lemma_readers_are_clients(s: Seq<ClientSlot>)
    ensures
        forall|m: int| 0 <= m < readers(s).len() ==> exists|i: int| 0 <= i < s.len() && s[i].info.id == #[trigger] readers(s)[m],
        unique_ids(s) ==> forall|a: int, b: int| 0 <= a < b < readers(s).len() ==> readers(s)[a] != readers(s)[b],
    decreases s.len(),
{
    if s.len() > 0 {
        let init = s.drop_last();
        lemma_readers_are_clients(init);
        let r0 = readers(init);
        let r = readers(s);
        assert forall|m: int| 0 <= m < r.len() implies exists|i: int| 0 <= i < s.len() && s[i].info.id == #[trigger] r[m] by {
            if m < r0.len() {
                assert(r[m] == r0[m]);
                let i = choose|i: int| 0 <= i < init.len() && init[i].info.id == r0[m];
                assert(s[i] == init[i]);
            } else {
                assert(s[s.len() - 1].info.id == r[m]);
            }
        }
        if unique_ids(s) {
            assert(unique_ids(init)) by {
                assert forall|i: int, j: int| 0 <= i < j < init.len() implies init[i].info.id != init[j].info.id by {
                    assert(init[i] == s[i] && init[j] == s[j]);
                }
            }
            assert forall|a: int, b: int| 0 <= a < b < r.len() implies r[a] != r[b] by {
                if b >= r0.len() {
                    assert(r[a] == r0[a]);
                    let i = choose|i: int| 0 <= i < init.len() && init[i].info.id == r0[a];
                    assert(s[i] == init[i]);
                    assert(r[b] == s.last().info.id);
                } else {
                    assert(r[a] == r0[a] && r[b] == r0[b]);
                }
            }
        }
    }
}

/// `out` is what offering the chunk to the first queue of its client, one of
/// `rs`, gives.
pub open spec fn offered_outcome(
    qs: Seq<(ClientId, FanoutView)>,
    out: (ClientId, FanoutResult),
    rs: Seq<ClientId>,
    data: Seq<u8>,
    policy: SlowClientPolicy,
    waited_for: Seq<ClientId>,
) -> bool {
    exists|k: int|
        first_queue(qs, out.0, k) && rs.contains(out.0) && out.1 == offer_outcome(qs[k].1, data, policy, waited_for.contains(out.0)).1
}

proof fn lemma_fan_out_each(
    qs: Seq<(ClientId, FanoutView)>,
    recipients: Seq<ClientId>,
    data: Seq<u8>,
    policy: SlowClientPolicy,
    waited_for: Seq<ClientId>,
)
    requires
        forall|a: int, b: int| 0 <= a < b < recipients.len() ==> recipients[a] != recipients[b],
    ensures
        ({
            let (q2, outs) = fan_out(qs, recipients, data, policy, waited_for);
            &&& q2.len() == qs.len()
            &&& forall|k: int|
                0 <= k < qs.len() ==> {
                    &&& (#[trigger] q2[k]).0 == qs[k].0
                    &&& if first_queue(qs, qs[k].0, k) && recipients.contains(qs[k].0) {
                        q2[k].1 == offer_outcome(qs[k].1, data, policy, waited_for.contains(qs[k].0)).0
                    } else {
                        q2[k].1 == qs[k].1
                    }
                }
            &&& forall|m: int|
                0 <= m < outs.len() ==> offered_outcome(qs, #[trigger] outs[m], recipients, data, policy, waited_for)
        }),
    decreases recipients.len(),
{
    if recipients.len() > 0 {
        let init = recipients.drop_last();
        let id = recipients.last();
        lemma_fan_out_each(qs, init, data, policy, waited_for);
        let (q1, outs1) = fan_out(qs, init, data, policy, waited_for);
        let (q2, outs) = fan_out(qs, recipients, data, policy, waited_for);
        assert(!init.contains(id)) by {
            if init.contains(id) {
                let a = choose|a: int| 0 <= a < init.len() && init[a] == id;
                assert(recipients[a] == init[a]);
            }
        }
        // ids are kept, so the first queue of a client is the same in q1 and qs
        assert forall|x: ClientId, k: int| first_queue(q1, x, k) == first_queue(qs, x, k) by {
            if 0 <= k < qs.len() {
                assert(q1[k].0 == qs[k].0);
                assert forall|j: int| 0 <= j < k implies q1[j].0 == qs[j].0 by {
                    assert(q1[j].0 == qs[j].0);
                }
            }
        }
        assert forall|x: ClientId| #[trigger] recipients.contains(x) == (init.contains(x) || x == id) by {
            if recipients.contains(x) {
                let a = choose|a: int| 0 <= a < recipients.len() && recipients[a] == x;
                if a < init.len() {
                    assert(init[a] == x);
                }
            }
            if init.contains(x) {
                let a = choose|a: int| 0 <= a < init.len() && init[a] == x;
                assert(recipients[a] == x);
            }
            if x == id {
                assert(recipients[recipients.len() - 1] == x);
            }
        }
        if exists|k: int| first_queue(q1, id, k) {
            let k = choose|k: int| first_queue(q1, id, k);
            assert(first_queue(qs, id, k));
            assert(q1[k].1 == qs[k].1);
            assert forall|k2: int| 0 <= k2 < qs.len() implies {
                &&& (#[trigger] q2[k2]).0 == qs[k2].0
                &&& if first_queue(qs, qs[k2].0, k2) && recipients.contains(qs[k2].0) {
                    q2[k2].1 == offer_outcome(qs[k2].1, data, policy, waited_for.contains(qs[k2].0)).0
                } else {
                    q2[k2].1 == qs[k2].1
                }
            } by {
                if k2 == k {
                } else {
                    assert(q2[k2] == q1[k2]);
                    if first_queue(qs, qs[k2].0, k2) && qs[k2].0 == id {
                        assert(k2 == k) by {
                            if k2 < k {
                                assert(qs[k2].0 != id);
                            } else {
                                assert(qs[k].0 != id);
                            }
                        }
                    }
                }
            }
            assert forall|m: int| 0 <= m < outs.len() implies offered_outcome(qs, #[trigger] outs[m], recipients, data, policy, waited_for) by {
                if m < outs1.len() {
                    assert(outs[m] == outs1[m]);
                    assert(offered_outcome(qs, outs1[m], init, data, policy, waited_for));
                    let k3 = choose|k3: int|
                        first_queue(qs, outs1[m].0, k3) && init.contains(outs1[m].0) && outs1[m].1
                            == offer_outcome(qs[k3].1, data, policy, waited_for.contains(outs1[m].0)).1;
                    assert(recipients.contains(outs1[m].0));
                    assert(first_queue(qs, outs[m].0, k3));
                } else {
                    assert(outs[m] == (id, offer_outcome(q1[k].1, data, policy, waited_for.contains(id)).1));
                    assert(recipients.contains(id));
                    assert(first_queue(qs, outs[m].0, k));
                }
            }
        } else {
            assert forall|k2: int| 0 <= k2 < qs.len() implies {
                &&& (#[trigger] q2[k2]).0 == qs[k2].0
                &&& if first_queue(qs, qs[k2].0, k2) && recipients.contains(qs[k2].0) {
                    q2[k2].1 == offer_outcome(qs[k2].1, data, policy, waited_for.contains(qs[k2].0)).0
                } else {
                    q2[k2].1 == qs[k2].1
                }
            } by {
                if first_queue(qs, qs[k2].0, k2) && qs[k2].0 == id {
                    assert(first_queue(q1, id, k2));
                }
            }
            assert forall|m: int| 0 <= m < outs.len() implies offered_outcome(qs, #[trigger] outs[m], recipients, data, policy, waited_for) by {
                assert(outs[m] == outs1[m]);
                assert(offered_outcome(qs, outs1[m], init, data, policy, waited_for));
                let k3 = choose|k3: int|
                    first_queue(qs, outs1[m].0, k3) && init.contains(outs1[m].0) && outs1[m].1
                        == offer_outcome(qs[k3].1, data, policy, waited_for.contains(outs1[m].0)).1;
                assert(recipients.contains(outs1[m].0));
                assert(first_queue(qs, outs[m].0, k3));
            }
        }
    }
}

/// One RX chunk reaches each reading client once: offered to the readers in
/// registry order, the first queue of each reader ends up exactly as
/// offering the chunk to it alone leaves it (appended when it has room; else
/// what the slow-client policy does), every other queue is untouched, and
/// each outcome counted is that reader's own.
pub proof fn law_each_reader_is_offered_the_chunk_once(
    clients: Seq<ClientSlot>,
    qs: Seq<(ClientId, FanoutView)>,
    data: Seq<u8>,
    policy: SlowClientPolicy,
    waited_for: Seq<ClientId>,
)
    requires
        unique_ids(clients),
    ensures
        ({
            let rs = readers(clients);
            let (q2, outs) = fan_out(qs, rs, data, policy, waited_for);
            &&& q2.len() == qs.len()
            &&& forall|k: int|
                0 <= k < qs.len() ==> {
                    &&& (#[trigger] q2[k]).0 == qs[k].0
                    &&& if first_queue(qs, qs[k].0, k) && rs.contains(qs[k].0) {
                        q2[k].1 == offer_outcome(qs[k].1, data, policy, waited_for.contains(qs[k].0)).0
                    } else {
                        q2[k].1 == qs[k].1
                    }
                }
            &&& forall|m: int| 0 <= m < outs.len() ==> offered_outcome(qs, #[trigger] outs[m], rs, data, policy, waited_for)
        }),
{
    lemma_readers_are_clients(clients);
    lemma_fan_out_each(qs, readers(clients), data, policy, waited_for);
}

/// The clients whose queue is open and at capacity, in queue order.
pub open spec fn full_queue_owners(qs: Seq<(ClientId, FanoutView)>) -> Seq<ClientId>
    decreases qs.len(),
{
    if qs.len() == 0 {
        Seq::empty()
    } else {
        let rest = full_queue_owners(qs.drop_last());
        let q = qs.last().1;
        if !q.closed && q.pending.len() >= q.capacity {
            rest.push(qs.last().0)
        } else {
            rest
        }
    }
}

fn listed(ids: &Vec<ClientId>, id: ClientId) -> (b: bool)
    ensures
        b == ids@.contains(id),
{
    let mut i: usize = 0;
    while i < ids.len()
        invariant
            i <= ids@.len(),
            forall|j: int| 0 <= j < i ==> ids@[j] != id,
        decreases ids@.len() - i,
    {
        if ids[i] == id {
            assert(ids@[i as int] == id);
            return true;
        }
        i = i + 1;
    }
    false
}

impl BrokerCore {
    /// Account one RX chunk's delivery outcomes, in the order the clients
    /// were offered it: count drops, blocks and disconnects, unregister the
    /// clients whose queue is gone, and queue a client-delivery gap naming
    /// the clients that lost the chunk. Returns the unregistered clients.
    pub fn rx_delivered(&mut self, connection_epoch: u64, data: &[u8], outcomes: &Vec<(ClientId, FanoutResult)>) -> (dead: Vec<ClientId>)
        requires
            old(self).wf(),
            data@.len() <= isize::MAX,
        ensures
            final(self).wf(),
            dead@ == dead_clients(outcomes@),
            ({
                let t = tally(outcomes@);
                final(self).stats == StatsView {
                    rx_drops: old(self).stats.rx_drops.wrapping_add(t.oldest.wrapping_add(t.newest)),
                    rx_drop_oldest: old(self).stats.rx_drop_oldest.wrapping_add(t.oldest),
                    rx_drop_newest: old(self).stats.rx_drop_newest.wrapping_add(t.newest),
                    rx_block_events: old(self).stats.rx_block_events.wrapping_add(t.blocked),
                    slow_disconnects: old(self).stats.slow_disconnects.wrapping_add(t.disconnects),
                    ..old(self).stats
                }
            }),
            forall|x: ClientId|
                #![trigger slot_of(final(self).clients@, x)]
                (slot_of(final(self).clients@, x) is Some) == (slot_of(old(self).clients@, x) is Some
                    && !dead_clients(outcomes@).contains(x)),
            final(self).outbox@.len() >= old(self).outbox@.len(),
            final(self).outbox@.subrange(0, old(self).outbox@.len() as int) == old(self).outbox@,
            gap_clients(outcomes@).len() > 0 ==> ({
                let t = tally(outcomes@);
                &&& final(self).outbox@.last().connection_epoch == connection_epoch
                &&& final(self).outbox@.last().payload matches EventPayload::Gap(g)
                    && g.scope == GapScope::ClientDelivery && g.certainty == GapCertainty::NotDelivered
                    && g.reason@ == delivery_gap_reason(t.oldest, t.newest)
                    && (g.bytes matches Some(b) && crate::schema::payload_bytes(b) == Some(data@))
                    && g.actor is None && g.client_ids@.len() == gap_clients(outcomes@).len()
                    && forall|k: int| 0 <= k < g.client_ids@.len() ==> #[trigger] g.client_ids@[k]@
                        == uuid_hyphenated(gap_clients(outcomes@)[k].0)
            }),
            final(self).lock == old(self).lock,
            final(self).handoff == old(self).handoff,
            final(self).connection_epoch == old(self).connection_epoch,
            final(self).history == old(self).history,
            final(self).history_cap == old(self).history_cap,
    {
        let mut oldest: u64 = 0;
        let mut newest: u64 = 0;
        let mut blocked: u64 = 0;
        let mut disconnects: u64 = 0;
        let mut gaps: Vec<String> = Vec::new();
        let mut dead: Vec<ClientId> = Vec::new();
        let mut i: usize = 0;
        while i < outcomes.len()
            invariant
                i <= outcomes@.len(),
                ({
                    let t = tally(outcomes@.subrange(0, i as int));
                    oldest == t.oldest && newest == t.newest && blocked == t.blocked && disconnects == t.disconnects
                }),
                dead@ == dead_clients(outcomes@.subrange(0, i as int)),
                gaps@.len() == gap_clients(outcomes@.subrange(0, i as int)).len(),
                forall|k: int| 0 <= k < gaps@.len() ==> #[trigger] gaps@[k]@ == uuid_hyphenated(gap_clients(outcomes@.subrange(0, i as int))[k].0),
            decreases outcomes@.len() - i,
        {
            let ghost prev = outcomes@.subrange(0, i as int);
            proof {
                assert(outcomes@.subrange(0, i + 1).drop_last() =~= prev);
            }
            let (id, result) = outcomes[i];
            let ghost gprev = gaps@;
            match result {
                FanoutResult::DroppedOldest => {
                    oldest = oldest.wrapping_add(1);
                    gaps.push(uuid_text(id.0));
                },
                FanoutResult::DroppedNewest => {
                    newest = newest.wrapping_add(1);
                    gaps.push(uuid_text(id.0));
                },
                FanoutResult::BlockedThenQueued => {
                    blocked = blocked.wrapping_add(1);
                },
                FanoutResult::Disconnected { dropped, blocked: was_blocked } => {
                    newest = newest.wrapping_add(dropped);
                    blocked = blocked.wrapping_add(if was_blocked { 1 } else { 0 });
                    disconnects = disconnects.wrapping_add(1);
                    if dropped > 0 {
                        gaps.push(uuid_text(id.0));
                    }
                    dead.push(id);
                },
                FanoutResult::Closed => {
                    dead.push(id);
                },
                _ => {},
            }
            proof {
                let g = gap_clients(outcomes@.subrange(0, i + 1));
                assert forall|k: int| 0 <= k < gaps@.len() implies #[trigger] gaps@[k]@ == uuid_hyphenated(g[k].0) by {
                    if k < gprev.len() {
                        assert(gaps@[k] == gprev[k]);
                    }
                }
            }
            i = i + 1;
        }
        proof {
            assert(outcomes@.subrange(0, i as int) =~= outcomes@);
        }
        self.stats.rx_drops = self.stats.rx_drops.wrapping_add(oldest.wrapping_add(newest));
        self.stats.rx_drop_oldest = self.stats.rx_drop_oldest.wrapping_add(oldest);
        self.stats.rx_drop_newest = self.stats.rx_drop_newest.wrapping_add(newest);
        self.stats.rx_block_events = self.stats.rx_block_events.wrapping_add(blocked);
        self.stats.slow_disconnects = self.stats.slow_disconnects.wrapping_add(disconnects);
        let ghost counted = self.stats;
        let ghost start = self.clients@;
        let mut j: usize = 0;
        while j < dead.len()
            invariant
                j <= dead@.len(),
                unique_ids(self.clients@),
                self.history@.len() <= self.history_cap,
                self.history == old(self).history,
                self.history_cap == old(self).history_cap,
                self.stats == counted,
                self.lock == old(self).lock,
                self.handoff == old(self).handoff,
                self.connection_epoch == old(self).connection_epoch,
                start == old(self).clients@,
                self.outbox@.len() >= old(self).outbox@.len(),
                self.outbox@.subrange(0, old(self).outbox@.len() as int) == old(self).outbox@,
                forall|x: ClientId|
                    #![trigger slot_of(self.clients@, x)]
                    (slot_of(self.clients@, x) is Some) == (slot_of(start, x) is Some && !dead@.subrange(0, j as int).contains(x)),
            decreases dead@.len() - j,
        {
            let ghost before = self.clients@;
            let ghost before_out = self.outbox@;
            let x = dead[j];
            let removed = self.unregister_client(x);
            proof {
                assert(dead@.subrange(0, j + 1) =~= dead@.subrange(0, j as int).push(x));
                let dj = dead@.subrange(0, j as int);
                let dj1 = dead@.subrange(0, j + 1);
                assert(dj1 =~= dj.push(x));
                assert forall|y: ClientId| #![trigger slot_of(self.clients@, y)]
                    (slot_of(self.clients@, y) is Some) == (slot_of(start, y) is Some && !dj1.contains(y)) by {
                    assert((slot_of(before, y) is Some) == (slot_of(start, y) is Some && !dj.contains(y)));
                    lemma_push_contains(dj, x, y);
                    match slot_of(before, x) {
                        Some(k) => {
                            lemma_remove_slot(before, k, y);
                            assert(before[k].info.id == x);
                        },
                        None => {
                            assert(self.clients@ == before);
                            if y == x {
                                assert(slot_of(before, y) is None);
                            }
                        },
                    }
                }
                assert(self.outbox@.subrange(0, old(self).outbox@.len() as int) =~= old(self).outbox@) by {
                    assert(before_out.subrange(0, old(self).outbox@.len() as int) == old(self).outbox@);
                    if self.outbox@.len() > before_out.len() {
                        assert(self.outbox@.subrange(0, before_out.len() as int) == before_out);
                    }
                }
            }
            j = j + 1;
        }
        proof {
            assert(dead@.subrange(0, j as int) =~= dead@);
        }
        if gaps.len() > 0 {
            let o = decimal_string(oldest);
            let n = decimal_string(newest);
            let a = concat_strs("slow-client policy dropped delivery (oldest=", o.as_str());
            let b = concat_strs(a.as_str(), ", newest=");
            let c = concat_strs(b.as_str(), n.as_str());
            let reason = concat_strs(c.as_str(), ")");
            let ghost before_out = self.outbox@;
            let payload = EventPayload::Gap(
                GapPayload {
                    scope: GapScope::ClientDelivery,
                    certainty: GapCertainty::NotDelivered,
                    reason,
                    bytes: Some(BytesPayload::from_bytes(data)),
                    actor: None,
                    client_ids: gaps,
                },
            );
            self.push_event(connection_epoch, payload);
            proof {
                assert(self.outbox@.subrange(0, before_out.len() as int) =~= before_out);
                assert(self.outbox@.subrange(0, old(self).outbox@.len() as int) =~= before_out.subrange(0, old(self).outbox@.len() as int));
            }
        }
        dead
    }

    /// The reader queues to wait on before offering the next chunk: under
    /// the `block` policy every full one, in order; under the other
    /// policies none.
    pub fn queues_to_wait_on(&self, queues: &Vec<(ClientId, FanoutQueue)>) -> (ids: Vec<ClientId>)
        ensures
            self.policy.slow_client != SlowClientPolicy::Block ==> ids@.len() == 0,
            self.policy.slow_client == SlowClientPolicy::Block ==> ids@ == full_queue_owners(queue_views(queues@)),
    {
        let mut ids: Vec<ClientId> = Vec::new();
        if self.policy.slow_client != SlowClientPolicy::Block {
            return ids;
        }
        let mut i: usize = 0;
        while i < queues.len()
            invariant
                i <= queues@.len(),
                ids@ == full_queue_owners(queue_views(queues@).take(i as int)),
            decreases queues@.len() - i,
        {
            let ghost qv = queue_views(queues@);
            proof {
                assert(qv.take(i + 1).drop_last() =~= qv.take(i as int));
                assert(qv.take(i + 1).last() == qv[i as int]);
                assert(qv[i as int] == (queues@[i as int].0, queues@[i as int].1@));
            }
            if queues[i].1.is_full() {
                ids.push(queues[i].0);
            }
            i = i + 1;
        }
        proof {
            assert(queue_views(queues@).take(i as int) =~= queue_views(queues@));
        }
        ids
    }

    /// The device produced `data`: record it as `on_device_rx` does, offer it
    /// to the queue of every reading client in registry order under the
    /// slow-client policy, and account the outcomes as `rx_delivered` does.
    /// Under the `block` policy the caller waits, without the broker, for room
    /// in the full queues, and lists in `waited_for` the clients it waited on;
    /// a queue still full then loses its client. Returns the unregistered
    /// clients, whose queues the caller closes.
    pub fn deliver_rx(
        &mut self,
        queues: &mut Vec<(ClientId, FanoutQueue)>,
        data: &[u8],
        waited_for: &Vec<ClientId>,
    ) -> (dead: Vec<ClientId>)
        requires
            old(self).wf(),
            data@.len() <= isize::MAX,
            queues_valid(queue_views(old(queues)@)),
        ensures
            final(self).wf(),
            queues_valid(queue_views(final(queues)@)),
            data@.len() == 0 ==> {
                &&& dead@.len() == 0
                &&& queue_views(final(queues)@) == queue_views(old(queues)@)
                &&& final(self).outbox == old(self).outbox
                &&& final(self).history == old(self).history
                &&& final(self).stats == old(self).stats
                &&& final(self).clients == old(self).clients
            },
            data@.len() > 0 ==> ({
                let (qs, outs) = fan_out(
                    queue_views(old(queues)@),
                    readers(old(self).clients@),
                    data@,
                    old(self).policy.slow_client,
                    waited_for@,
                );
                let t = tally(outs);
                let n = old(self).outbox@.len() as int;
                &&& queue_views(final(queues)@) == qs
                &&& dead@ == dead_clients(outs)
                &&& final(self).stats == StatsView {
                    rx_bytes: old(self).stats.rx_bytes.wrapping_add(data@.len() as u64),
                    rx_drops: old(self).stats.rx_drops.wrapping_add(t.oldest.wrapping_add(t.newest)),
                    rx_drop_oldest: old(self).stats.rx_drop_oldest.wrapping_add(t.oldest),
                    rx_drop_newest: old(self).stats.rx_drop_newest.wrapping_add(t.newest),
                    rx_block_events: old(self).stats.rx_block_events.wrapping_add(t.blocked),
                    slow_disconnects: old(self).stats.slow_disconnects.wrapping_add(t.disconnects),
                    ..old(self).stats
                }
                &&& final(self).history@ == history_after(old(self).history@, data@, old(self).history_cap as nat)
                &&& final(self).outbox@.len() > n
                &&& final(self).outbox@.subrange(0, n) == old(self).outbox@
                &&& final(self).outbox@[n].connection_epoch == old(self).connection_epoch
                &&& final(self).outbox@[n].payload matches EventPayload::Rx(b)
                    && crate::schema::payload_bytes(b) == Some(data@)
                &&& gap_clients(outs).len() > 0 ==> {
                    &&& final(self).outbox@.last().connection_epoch == old(self).connection_epoch
                    &&& final(self).outbox@.last().payload matches EventPayload::Gap(g)
                        && g.scope == GapScope::ClientDelivery && g.certainty == GapCertainty::NotDelivered
                        && g.reason@ == delivery_gap_reason(t.oldest, t.newest)
                        && (g.bytes matches Some(b) && crate::schema::payload_bytes(b) == Some(data@))
                        && g.actor is None && g.client_ids@.len() == gap_clients(outs).len()
                        && forall|k: int| 0 <= k < g.client_ids@.len() ==> #[trigger] g.client_ids@[k]@
                            == uuid_hyphenated(gap_clients(outs)[k].0)
                }
                &&& forall|x: ClientId|
                    #![trigger slot_of(final(self).clients@, x)]
                    (slot_of(final(self).clients@, x) is Some) == (slot_of(old(self).clients@, x) is Some
                        && !dead_clients(outs).contains(x))
            }),
            final(self).lock == old(self).lock,
            final(self).handoff == old(self).handoff,
            final(self).connection_epoch == old(self).connection_epoch,
            final(self).history_cap == old(self).history_cap,
    {
        let plan = match self.on_device_rx(data) {
            None => {
                return Vec::new();
            },
            Some(p) => p,
        };
        let ghost q0 = queue_views(queues@);
        let ghost mid = *self;
        let mut outcomes: Vec<(ClientId, FanoutResult)> = Vec::new();
        let mut i: usize = 0;
        while i < plan.recipients.len()
            invariant
                i <= plan.recipients@.len(),
                queues_valid(queue_views(queues@)),
                (queue_views(queues@), outcomes@) == fan_out(
                    q0,
                    plan.recipients@.subrange(0, i as int),
                    data@,
                    plan.slow_client,
                    waited_for@,
                ),
                *self == mid,
            decreases plan.recipients@.len() - i,
        {
            let id = plan.recipients[i];
            let ghost prev = queue_views(queues@);
            let ghost prev_out = outcomes@;
            proof {
                assert(plan.recipients@.subrange(0, i + 1).drop_last() =~= plan.recipients@.subrange(0, i as int));
                assert(plan.recipients@.subrange(0, i + 1).last() == id);
            }
            let mut k: usize = 0;
            while k < queues.len() && queues[k].0 != id
                invariant
                    k <= queues@.len(),
                    queue_views(queues@) == prev,
                    forall|j: int| 0 <= j < k ==> prev[j].0 != id,
                decreases queues@.len() - k,
            {
                k = k + 1;
            }
            if k < queues.len() {
                let waited = listed(waited_for, id);
                assert(first_queue(prev, id, k as int));
                let ghost kk = choose|j: int| first_queue(prev, id, j);
                assert(kk == k as int) by {
                    if kk < k as int {
                        assert(prev[kk].0 != id);
                    }
                    if kk > k as int {
                        assert(prev[k as int].0 != id);
                    }
                }
                let (qid, mut q) = queues.remove(k);
                let r = q.offer(data, plan.slow_client, waited);
                let ghost v = q@;
                queues.insert(k, (qid, q));
                outcomes.push((id, r));
                proof {
                    assert(queue_views(queues@) =~= prev.update(k as int, (id, v)));
                }
            } else {
                proof {
                    assert forall|j: int| !first_queue(prev, id, j) by {
                        if first_queue(prev, id, j) {
                            assert(prev[j].0 != id);
                        }
                    }
                }
            }
            i = i + 1;
        }
        proof {
            assert(plan.recipients@.subrange(0, i as int) =~= plan.recipients@);
        }
        self.rx_delivered(plan.connection_epoch, data, &outcomes)
    }

    /// The status endpoint's snapshot at `now`. The lease token and the
    /// handoff token never appear in it.
    pub fn snapshot(&self, now: u64) -> (snap: StatusSnapshot)
        requires
            self.wf(),
        ensures
            snap.port.path == self.port.path,
            snap.port.baud == self.port.baud,
            snap.port.connected == self.port.connected,
            snap.port.epoch == self.connection_epoch,
            snap.port.detail == self.port.detail,
            match self.handoff {
                Some(h) => snap.handoff matches Some(v) && v.active && v.path == h.path && v.expires_ms == if h.expires_at > now {
                    (h.expires_at - now) as u64
                } else {
                    0u64
                },
                None => snap.handoff is None,
            },
            snap.tx_mode@ == match self.policy.mode {
                TxMode::QueueByLine => "queue_by_line"@,
                TxMode::QueueByFrame => "queue_by_frame"@,
                TxMode::Exclusive => "exclusive"@,
                TxMode::PrimaryWins => "primary_wins"@,
            },
            lease_running(self.lock, now) ==> snap.lock_owner == Some(self.lock.unwrap().owner)
                && snap.lock_expires_ms == Some((self.lock.unwrap().expires_at - now) as u64),
            !lease_running(self.lock, now) ==> snap.lock_owner is None && snap.lock_expires_ms is None,
            snap.endpoints@ == self.endpoints@,
            snap.clients@.len() == self.clients@.len(),
            forall|i: int|
                0 <= i < self.clients@.len() ==> {
                    let c = #[trigger] snap.clients@[i];
                    let info = self.clients@[i].info;
                    &&& c.id@ == uuid_hyphenated(info.id.0)
                    &&& c.name == info.name
                    &&& c.kind == info.kind
                    &&& c.can_read == info.can_read
                    &&& c.can_write == info.can_write
                    &&& c.primary_eligible == info.primary_eligible
                },
            snap.stats == self.stats,
    {
        let (lock_owner, lock_expires_ms) = match &self.lock {
            Some(l) => {
                if l.active(now) {
                    (Some(l.owner.clone()), Some(l.expires_at - now))
                } else {
                    (None, None)
                }
            },
            None => (None, None),
        };
        let handoff = match &self.handoff {
            Some(h) => Some(
                HandoffStatusView {
                    active: true,
                    path: h.path.clone(),
                    expires_ms: if h.expires_at > now {
                        h.expires_at - now
                    } else {
                        0
                    },
                },
            ),
            None => None,
        };
        let mut endpoints: Vec<EndpointView> = Vec::new();
        let mut i: usize = 0;
        while i < self.endpoints.len()
            invariant
                i <= self.endpoints@.len(),
                endpoints@ == self.endpoints@.subrange(0, i as int),
            decreases self.endpoints@.len() - i,
        {
            endpoints.push(self.endpoints[i].duplicate());
            i = i + 1;
        }
        assert(endpoints@ =~= self.endpoints@);
        let mut clients: Vec<ClientView> = Vec::new();
        let mut k: usize = 0;
        while k < self.clients.len()
            invariant
                k <= self.clients@.len(),
                clients@.len() == k,
                forall|j: int|
                    0 <= j < k ==> {
                        let c = #[trigger] clients@[j];
                        let info = self.clients@[j].info;
                        &&& c.id@ == uuid_hyphenated(info.id.0)
                        &&& c.name == info.name
                        &&& c.kind == info.kind
                        &&& c.can_read == info.can_read
                        &&& c.can_write == info.can_write
                        &&& c.primary_eligible == info.primary_eligible
                    },
            decreases self.clients@.len() - k,
        {
            let info = &self.clients[k].info;
            clients.push(
                ClientView {
                    id: uuid_text(info.id.0),
                    name: info.name.clone(),
                    kind: info.kind.clone(),
                    can_read: info.can_read,
                    can_write: info.can_write,
                    primary_eligible: info.primary_eligible,
                },
            );
            k = k + 1;
        }
        StatusSnapshot {
            port: PortStatusView {
                path: self.port.path.clone(),
                baud: self.port.baud,
                connected: self.port.connected,
                epoch: self.connection_epoch,
                detail: self.port.detail.clone(),
            },
            handoff,
            tx_mode: owned(self.policy.mode.name()),
            lock_owner,
            lock_expires_ms,
            endpoints,
            clients,
            stats: self.stats,
        }
    }
}

/// A reconnect invalidates every write admitted on the previous connection:
/// after the epoch moves on, the serial owner's gate refuses it.
pub proof fn law_reconnect_invalidates_queued_writes(after: BrokerCore, w: WriteTicket, now: u64)
    requires
        w.connection_epoch != after.connection_epoch,
    ensures
        device_write_fault(after, w, now) is Some,
{
}

/// A queued write made under a lease is refused once that lease is gone
/// (released, expired or revoked by a handoff).
pub proof fn law_lease_bound_writes_need_the_lease(b: BrokerCore, w: WriteTicket, now: u64)
    requires
        w.lease_token is Some,
        !lease_running(b.lock, now) || b.lock.unwrap().token@ != w.lease_token.unwrap()@,
    ensures
        device_write_fault(b, w, now) is Some,
{
}

/// A queued write is refused once its client connection is gone, even if a
/// client with the same name is registered again under a new identifier.
pub proof fn law_unregistered_client_cannot_write(b: BrokerCore, w: WriteTicket, now: u64)
    requires
        slot_of(b.clients@, w.client_id) is None,
    ensures
        device_write_fault(b, w, now) is Some,
{
}

/// The primary capability comes only from the registration: a client
/// registered as not primary-eligible is never the primary, whatever name
/// it carries.
pub proof fn law_primary_needs_eligibility(p: Policy, info: ClientInfo)
    requires
        !info.primary_eligible,
    ensures
        !is_primary(p, info),
{
}

/// While a handoff is active no write is admitted, queued or performed.
pub proof fn law_handoff_blocks_writes(b: BrokerCore, id: ClientId, token: Option<Seq<char>>, w: WriteTicket, now: u64)
    requires
        b.handoff is Some,
    ensures
        tx_gate_fault(b, id, token, now) is Some,
        device_write_fault(b, w, now) is Some,
{
}

} // verus!
