//! The bounded, sequenced event ledger.
//!
//! Events get consecutive sequence numbers within a session and are kept in a
//! ring bounded both in count and in encoded bytes; the oldest events leave
//! first. Durable persistence is optional: a failed durable write marks
//! persistence as degraded but the event still reaches the ring, and the
//! error carries it (see [`LedgerError::recorded_event`]). Writing segments,
//! encoding events and the live broadcast are the host program's part; this
//! module decides what the ledger holds and answers.

use vstd::prelude::*;

use std::collections::VecDeque;

use crate::codec::{new_session_id, rfc3339_valid, utc_now_rfc3339};
use crate::schema::{
    filter_accepts, payload_fault, same_event, EventEnvelope, EventFilter, EventPayload,
    SchemaError, SchemaFault,
};
use crate::store::StoreOptions;
use crate::text::owned;

verus! {

/// The page size used when a query asks for zero events.
pub const DEFAULT_QUERY_LIMIT: usize = 1000;

/// The largest page a query can get.
pub const MAX_QUERY_LIMIT: usize = 100000;

/// Bounds of the in-memory ring.
#[derive(Clone, Copy, Debug, PartialEq, Eq, Structural)]
pub struct MemoryOptions {
    pub max_events: usize,
    pub max_bytes: usize,
}

impl Default for MemoryOptions {
    fn default() -> (m: Self)
        ensures
            m.max_events == 65_536,
            m.max_bytes == 64 * 1024 * 1024,
    {
        MemoryOptions { max_events: 65_536, max_bytes: 64 * 1024 * 1024 }
    }
}

/// Why the ledger refused or only partly carried out a request.
#[derive(Debug)]
pub enum LedgerError {
    InvalidOptions(String),
    InvalidEvent(SchemaError),
    Sealed,
    SequenceExhausted,
    OpenStore(String),
    /// The event is in the ring and was delivered, but its durable write
    /// failed or persistence had already degraded.
    PersistenceDegraded { event_seq: u64, event: Box<EventEnvelope>, detail: String },
    SealFailed(String),
    CheckpointFailed(String),
    /// The random source or the clock gave nothing to work with.
    Unavailable(String),
}

impl LedgerError {
    /// The event that was recorded in memory although its durable write did not happen.
    pub fn recorded_event(&self) -> (r: Option<&EventEnvelope>)
        ensures
            (r is Some) == (self is PersistenceDegraded),
            r matches Some(e) ==> *e == *self->event,
    {
        match self {
            LedgerError::PersistenceDegraded { event, .. } => Some(&**event),
            _ => None,
        }
    }
}

impl MemoryOptions {
    /// Both bounds must be positive.
    pub fn validate(&self) -> (r: Result<(), LedgerError>)
        ensures
            self.max_events == 0 ==> (r matches Err(LedgerError::InvalidOptions(m)) && m@
                == "memory max_events must be greater than zero"@),
            self.max_events > 0 && self.max_bytes == 0 ==> (r matches Err(
                LedgerError::InvalidOptions(m),
            ) && m@ == "memory max_bytes must be greater than zero"@),
            r is Ok <==> (self.max_events > 0 && self.max_bytes > 0),
    {
        if self.max_events == 0 {
            return Err(LedgerError::InvalidOptions(owned("memory max_events must be greater than zero")));
        }
        if self.max_bytes == 0 {
            return Err(LedgerError::InvalidOptions(owned("memory max_bytes must be greater than zero")));
        }
        Ok(())
    }
}

/// How a ledger is opened.
#[derive(Clone, Debug)]
pub struct LedgerOptions {
    /// Reopen this session; `None` starts a fresh one.
    pub session_id: Option<u128>,
    pub memory: MemoryOptions,
    pub stream_capacity: usize,
    pub store: Option<StoreOptions>,
}

impl Default for LedgerOptions {
    fn default() -> (o: Self)
        ensures
            o.session_id is None,
            o.memory.max_events == 65_536,
            o.memory.max_bytes == 64 * 1024 * 1024,
            o.stream_capacity == 4_096,
            o.store is None,
    {
        LedgerOptions {
            session_id: None,
            memory: MemoryOptions::default(),
            stream_capacity: 4_096,
            store: None,
        }
    }
}

/// The state of durable persistence.
#[derive(Clone, Copy, Debug, PartialEq, Eq, Structural)]
pub enum PersistenceState {
    Disabled,
    Active,
    Degraded,
    Sealed,
}

/// An event in the ring with the size it was accounted at.
#[derive(Debug)]
pub struct RetainedEvent {
    pub event: EventEnvelope,
    pub bytes: usize,
}

/// Total accounted bytes of ring entries.
pub open spec fn sum_bytes(s: Seq<RetainedEvent>) -> nat
    decreases s.len(),
{
    if s.len() == 0 {
        0
    } else {
        s[0].bytes as nat + sum_bytes(s.subrange(1, s.len() as int))
    }
}

/// Entries fit the ring's bounds.
pub open spec fn fits(s: Seq<RetainedEvent>, m: MemoryOptions) -> bool {
    s.len() <= m.max_events && sum_bytes(s) <= m.max_bytes
}

/// Sequence numbers are positive and strictly increasing.
pub open spec fn ordered(s: Seq<RetainedEvent>) -> bool {
    &&& forall|i: int| 0 <= i < s.len() ==> #[trigger] s[i].event.seq >= 1
    &&& forall|i: int, j: int| 0 <= i < j < s.len() ==> s[i].event.seq < s[j].event.seq
}

/// The events of ring entries, oldest first.
pub open spec fn ring_events(s: Seq<RetainedEvent>) -> Seq<EventEnvelope> {
    s.map_values(|r: RetainedEvent| r.event)
}

/// `kept` is what is left of `all` after dropping the fewest oldest entries
/// needed to fit the bounds; `k` entries were dropped.
pub open spec fn evicted_to_fit(all: Seq<RetainedEvent>, m: MemoryOptions, kept: Seq<RetainedEvent>, k: int) -> bool {
    &&& 0 <= k <= all.len()
    &&& kept == all.subrange(k, all.len() as int)
    &&& fits(kept, m)
    &&& forall|j: int| 0 <= j < k ==> !fits(#[trigger] all.subrange(j, all.len() as int), m)
}

/// The abstract state of a ledger.
pub struct LedgerView {
    pub session_id: u128,
    pub newest_seq: u64,
    pub ring: Seq<RetainedEvent>,
    pub evicted_events: u64,
    pub memory: MemoryOptions,
    pub has_store: bool,
    pub persistence: PersistenceState,
    pub persistence_error: Option<String>,
    pub sealed: bool,
}

impl LedgerView {
    /// What every ledger state satisfies.
    pub open spec fn valid(self) -> bool {
        &&& self.memory.max_events > 0
        &&& self.memory.max_bytes > 0
        &&& fits(self.ring, self.memory)
        &&& ordered(self.ring)
        &&& (self.ring.len() > 0 ==> self.ring.last().event.seq == self.newest_seq)
        &&& (self.has_store <==> !(self.persistence is Disabled))
        &&& (self.persistence is Sealed ==> self.sealed)
    }

    /// The sequence number of the oldest retained event.
    pub open spec fn oldest(self) -> Option<u64> {
        if self.ring.len() > 0 {
            Some(self.ring[0].event.seq)
        } else {
            None
        }
    }

    /// Whether a durable write is attempted for the next event.
    pub open spec fn persists(self) -> bool {
        self.has_store && !(self.persistence is Degraded)
    }
}

/// The ledger: session identity, sequence counter, bounded ring and persistence state.
pub struct Ledger {
    session_id: u128,
    newest_seq: u64,
    ring: VecDeque<RetainedEvent>,
    ring_bytes: u128,
    evicted_events: u64,
    memory: MemoryOptions,
    has_store: bool,
    persistence_state: PersistenceState,
    persistence_error: Option<String>,
    persistence_directory: Option<String>,
    sealed: bool,
}

impl View for Ledger {
    type V = LedgerView;

    closed spec fn view(&self) -> LedgerView {
        LedgerView {
            session_id: self.session_id,
            newest_seq: self.newest_seq,
            ring: self.ring@,
            evicted_events: self.evicted_events,
            memory: self.memory,
            has_store: self.has_store,
            persistence: self.persistence_state,
            persistence_error: self.persistence_error,
            sealed: self.sealed,
        }
    }
}

/// An optional string as optional text.
pub open spec fn opt_text(o: Option<String>) -> Option<Seq<char>> {
    match o {
        Some(s) => Some(s@),
        None => None,
    }
}

impl Ledger {
    /// The directory of the durable store the ledger was opened with, if any.
    pub closed spec fn directory(&self) -> Option<Seq<char>> {
        opt_text(self.persistence_directory)
    }
}

proof fn lemma_sum_push(s: Seq<RetainedEvent>, x: RetainedEvent)
    ensures
        sum_bytes(s.push(x)) == sum_bytes(s) + x.bytes,
    decreases s.len(),
{
    if s.len() > 0 {
        assert(s.push(x).subrange(1, s.len() as int + 1) =~= s.subrange(1, s.len() as int).push(x));
        assert(s.push(x)[0] == s[0]);
        lemma_sum_push(s.subrange(1, s.len() as int), x);
    } else {
        assert(s.push(x).subrange(1, 1) =~= Seq::<RetainedEvent>::empty());
        assert(sum_bytes(Seq::<RetainedEvent>::empty()) == 0);
        assert(s.push(x)[0] == x);
    }
}

impl Ledger {
    /// Internal consistency: the byte total is exact and the view is valid.
    pub closed spec fn wf(&self) -> bool {
        &&& self@.valid()
        &&& self.ring_bytes == sum_bytes(self.ring@)
        &&& self.persistence_directory is Some <==> self.has_store
    }

    /// Make `entry` the newest event: push it and drop the oldest entries
    /// until the ring fits again.
    fn retain(&mut self, entry: RetainedEvent)
        requires
            old(self).wf(),
            entry.event.seq >= 1,
            old(self)@.ring.len() > 0 ==> old(self)@.ring.last().event.seq < entry.event.seq,
        ensures
            final(self).wf(),
            final(self)@.newest_seq == entry.event.seq,
            exists|k: int|
                evicted_to_fit(old(self)@.ring.push(entry), old(self)@.memory, final(self)@.ring, k)
                    && saturated_sum(old(self)@.evicted_events, k, final(self)@.evicted_events),
            final(self).session_id == old(self).session_id,
            final(self).memory == old(self).memory,
            final(self).has_store == old(self).has_store,
            final(self).persistence_state == old(self).persistence_state,
            final(self).persistence_error == old(self).persistence_error,
            final(self).persistence_directory == old(self).persistence_directory,
            final(self).sealed == old(self).sealed,
    {
        let ghost old_ring = self.ring@;
        let bytes = entry.bytes;
        self.newest_seq = entry.event.seq;
        proof {
            lemma_sum_push(old_ring, entry);
        }
        self.ring.push_back(entry);
        self.ring_bytes = self.ring_bytes + bytes as u128;
        let ghost all = self.ring@;
        let ghost mut k: int = 0;
        let ghost start_evicted = self.evicted_events;
        assert(start_evicted == old(self)@.evicted_events);
        assert(all.subrange(0, all.len() as int) =~= all);
        while self.ring.len() > self.memory.max_events || self.ring_bytes > self.memory.max_bytes as u128
            invariant
                0 <= k <= all.len(),
                all == old(self)@.ring.push(entry),
                all.last() == entry,
                self.ring@ == all.subrange(k, all.len() as int),
                self.newest_seq == entry.event.seq,
                self.session_id == old(self).session_id,
                self.memory == old(self).memory,
                self.has_store == old(self).has_store,
                self.persistence_state == old(self).persistence_state,
                self.persistence_error == old(self).persistence_error,
                self.persistence_directory == old(self).persistence_directory,
                self.sealed == old(self).sealed,
                old(self).wf(),
                entry.event.seq >= 1,
                old(self)@.ring.len() > 0 ==> old(self)@.ring.last().event.seq < entry.event.seq,
                self.ring_bytes == sum_bytes(self.ring@),
                forall|j: int| 0 <= j < k ==> !fits(#[trigger] all.subrange(j, all.len() as int), self.memory),
                self.evicted_events as int == if start_evicted + k > u64::MAX {
                    u64::MAX as int
                } else {
                    start_evicted + k
                },
            decreases self.ring@.len(),
        {
            assert(!fits(all.subrange(k, all.len() as int), self.memory));
            let evicted = self.ring.pop_front();
            match evicted {
                Some(e) => {
                    assert(all.subrange(k, all.len() as int).subrange(1, all.len() - k) =~= all.subrange(k + 1, all.len() as int));
                    self.ring_bytes = self.ring_bytes - e.bytes as u128;
                    self.evicted_events = self.evicted_events.saturating_add(1);
                    proof {
                        k = k + 1;
                    }
                },
                None => {
                    assert(false);
                },
            }
        }
        proof {
            let r = self.ring@;
            assert forall|i: int, j: int| 0 <= i < j < r.len() implies r[i].event.seq < r[j].event.seq by {
                assert(r[i] == all[i + k]);
                assert(r[j] == all[j + k]);
            }
            assert forall|i: int| 0 <= i < r.len() implies #[trigger] r[i].event.seq >= 1 by {
                assert(r[i] == all[i + k]);
            }
            if r.len() > 0 {
                assert(r.last() == all.last());
            }
            assert(evicted_to_fit(all, self.memory, r, k));
            assert(all == old(self)@.ring.push(entry));
            assert(saturated_sum(start_evicted, k, self.evicted_events));
            assert(self@.ring == r);
            assert(self@.evicted_events == self.evicted_events);
            assert(evicted_to_fit(old(self)@.ring.push(entry), old(self)@.memory, self@.ring, k));
        }
    }
}


/// `x` is the envelope the ledger assigns next for this payload: the
/// canonical schema, version and port, this session, the next sequence
/// number, the given epoch and monotonic time, and a parseable timestamp.
pub open spec fn is_next_event(v: LedgerView, x: EventEnvelope, epoch: u64, payload: EventPayload, mono_us: u64) -> bool {
    &&& x.schema@ == "ohmyserial.event"@
    &&& x.version == 1
    &&& x.session_id == v.session_id
    &&& x.seq == v.newest_seq + 1
    &&& rfc3339_valid(x.ts_utc@)
    &&& x.mono_us == mono_us
    &&& x.port_id@ == "default"@
    &&& x.connection_epoch == epoch
    &&& x.event == payload
}

/// `c` is `a + b` held at `u64::MAX`.
pub open spec fn saturated_sum(a: u64, b: int, c: u64) -> bool {
    c as int == if a + b > u64::MAX {
        u64::MAX as int
    } else {
        a + b
    }
}

/// Evicting to fit after each push gives the same ring as evicting to fit once.
proof fn lemma_evict_compose(
    prefix: Seq<RetainedEvent>,
    entry: RetainedEvent,
    m: MemoryOptions,
    before: Seq<RetainedEvent>,
    k: int,
    after: Seq<RetainedEvent>,
    kk: int,
)
    requires
        evicted_to_fit(prefix, m, before, k),
        evicted_to_fit(before.push(entry), m, after, kk),
    ensures
        evicted_to_fit(prefix.push(entry), m, after, k + kk),
{
    let all = prefix.push(entry);
    assert(before.push(entry) =~= all.subrange(k, all.len() as int));
    assert(after =~= all.subrange(k + kk, all.len() as int));
    assert forall|j: int| 0 <= j < k + kk implies !fits(#[trigger] all.subrange(j, all.len() as int), m) by {
        if j < k {
            assert(all.subrange(j, all.len() as int) =~= prefix.subrange(j, prefix.len() as int).push(entry));
            if fits(all.subrange(j, all.len() as int), m) {
                lemma_fits_shrinks(prefix.subrange(j, prefix.len() as int), entry, m);
            }
        } else {
            assert(all.subrange(j, all.len() as int) =~= before.push(entry).subrange(j - k, before.len() as int + 1));
        }
    }
}

/// Whether persisted events have positive, strictly increasing sequence numbers.
fn prior_ordered(prior: &VecDeque<RetainedEvent>) -> (r: bool)
    ensures
        r == ordered(prior@),
{
    let mut i: usize = 0;
    while i < prior.len()
        invariant
            i <= prior@.len(),
            ordered(prior@.subrange(0, i as int)),
        decreases prior@.len() - i,
    {
        let seq = prior[i].event.seq;
        if seq == 0 {
            assert(prior@[i as int].event.seq < 1);
            return false;
        }
        if i > 0 && prior[i - 1].event.seq >= seq {
            assert(!(prior@[i - 1].event.seq < prior@[i as int].event.seq));
            return false;
        }
        proof {
            let t = prior@.subrange(0, i as int);
            let t2 = prior@.subrange(0, i + 1);
            assert forall|a: int, b: int| 0 <= a < b < t2.len() implies t2[a].event.seq < t2[b].event.seq by {
                if b < i {
                    assert(t2[a] == t[a] && t2[b] == t[b]);
                } else if a < i - 1 {
                    assert(t[a].event.seq < t[i - 1].event.seq);
                }
            }
        }
        i = i + 1;
    }
    assert(prior@.subrange(0, i as int) =~= prior@);
    true
}

proof fn lemma_fits_shrinks(s: Seq<RetainedEvent>, x: RetainedEvent, m: MemoryOptions)
    requires
        fits(s.push(x), m),
    ensures
        fits(s, m),
{
    lemma_sum_push(s, x);
}

impl Ledger {
    /// A memory-only ledger for a fresh session.
    pub fn memory(memory: MemoryOptions) -> (r: Result<Ledger, LedgerError>)
        ensures
            (memory.max_events == 0 || memory.max_bytes == 0) ==> r matches Err(
                LedgerError::InvalidOptions(_),
            ),
            (memory.max_events > 0 && memory.max_bytes > 0) ==> (r matches Err(LedgerError::Unavailable(m))
                && m@ == "random source unavailable"@) || (r matches Ok(l) && l.wf()
                && l@.newest_seq == 0 && l@.ring.len() == 0 && l@.evicted_events == 0
                && l@.memory == memory && !l@.has_store && l@.persistence is Disabled
                && l@.persistence_error is None && !l@.sealed),
    {
        let mut options = LedgerOptions::default();
        options.memory = memory;
        Ledger::open(options, VecDeque::new())
    }

    /// Open a ledger. `prior` holds the events a reopened session already
    /// persisted, oldest first, each with its encoded size; they are
    /// retained as if appended in order.
    pub fn open(options: LedgerOptions, prior: VecDeque<RetainedEvent>) -> (r: Result<Ledger, LedgerError>)
        ensures
            options.memory.max_events == 0 ==> (r matches Err(LedgerError::InvalidOptions(m)) && m@
                == "memory max_events must be greater than zero"@),
            options.memory.max_events > 0 && options.memory.max_bytes == 0 ==> (r matches Err(
                LedgerError::InvalidOptions(m),
            ) && m@ == "memory max_bytes must be greater than zero"@),
            options.memory.max_events > 0 && options.memory.max_bytes > 0
                && options.stream_capacity == 0 ==> (r matches Err(LedgerError::InvalidOptions(m))
                && m@ == "stream_capacity must be greater than zero"@),
            options.memory.max_events > 0 && options.memory.max_bytes > 0
                && options.stream_capacity > 0 && !ordered(prior@) ==> (r matches Err(
                LedgerError::OpenStore(m),
            ) && m@ == "persisted events are not in sequence order"@),
            options.memory.max_events > 0 && options.memory.max_bytes > 0
                && options.stream_capacity > 0 && ordered(prior@) ==> (options.session_id is None && (r matches Err(
                LedgerError::Unavailable(m),
            ) && m@ == "random source unavailable"@)) || (r matches Ok(l) && {
                &&& l.wf()
                &&& l.directory() == match options.store {
                    Some(st) => Some(st.directory@),
                    None => None,
                }
                &&& options.session_id matches Some(id) ==> l@.session_id == id
                &&& l@.newest_seq == if prior@.len() == 0 {
                    0
                } else {
                    prior@.last().event.seq
                }
                &&& exists|k: int|
                    evicted_to_fit(prior@, options.memory, l@.ring, k) && l@.evicted_events == k
                &&& l@.memory == options.memory
                &&& l@.has_store == options.store is Some
                &&& l@.persistence == if options.store is Some {
                    PersistenceState::Active
                } else {
                    PersistenceState::Disabled
                }
                &&& l@.persistence_error is None
                &&& !l@.sealed
            }),
    {
        match options.memory.validate() {
            Err(e) => {
                return Err(e);
            },
            Ok(()) => {},
        }
        if options.stream_capacity == 0 {
            return Err(LedgerError::InvalidOptions(owned("stream_capacity must be greater than zero")));
        }
        if !prior_ordered(&prior) {
            return Err(LedgerError::OpenStore(owned("persisted events are not in sequence order")));
        }
        let session_id = match options.session_id {
            Some(id) => id,
            None => match new_session_id() {
                Some(id) => id,
                None => {
                    return Err(LedgerError::Unavailable(owned("random source unavailable")));
                },
            },
        };
        let has_store = options.store.is_some();
        let persistence_directory = match &options.store {
            Some(store) => Some(owned(store.directory.as_str())),
            None => None,
        };
        let mut ledger = Ledger {
            session_id,
            newest_seq: 0,
            ring: VecDeque::new(),
            ring_bytes: 0,
            evicted_events: 0,
            memory: options.memory,
            has_store,
            persistence_state: if has_store {
                PersistenceState::Active
            } else {
                PersistenceState::Disabled
            },
            persistence_error: None,
            persistence_directory,
            sealed: false,
        };
        let ghost all = prior@;
        let ghost mut k: int = 0;
        let ghost mut taken: int = 0;
        let mut rest = prior;
        let total = rest.len();
        proof {
            assert(all.subrange(0, 0) =~= ledger.ring@);
            assert(sum_bytes(ledger.ring@) == 0);
            assert(fits(ledger.ring@, options.memory));
            assert(ledger@.ring =~= all.subrange(0, 0).subrange(0, 0));
            assert(evicted_to_fit(all.subrange(0, 0), options.memory, ledger@.ring, 0));
            assert(rest@ =~= all.subrange(0, all.len() as int));
        }
        while rest.len() > 0
            invariant
                0 <= taken <= all.len(),
                all.len() == total,
                rest@ == all.subrange(taken, all.len() as int),
                ledger.wf(),
                ordered(all),
                0 <= k <= taken,
                evicted_to_fit(all.subrange(0, taken), options.memory, ledger@.ring, k),
                ledger@.evicted_events == k,
                ledger@.newest_seq == if taken == 0 {
                    0
                } else {
                    all[taken - 1].event.seq
                },
                ledger@.memory == options.memory,
                ledger@.session_id == session_id,
                ledger@.has_store == has_store,
                ledger@.persistence == if has_store {
                    PersistenceState::Active
                } else {
                    PersistenceState::Disabled
                },
                ledger@.persistence_error is None,
                !ledger@.sealed,
                has_store == options.store is Some,
                options.session_id matches Some(id) ==> session_id == id,
                ledger.directory() == match options.store {
                    Some(st) => Some(st.directory@),
                    None => None,
                },
            decreases rest@.len(),
        {
            let entry = match rest.pop_front() {
                Some(e) => e,
                None => {
                    assert(false);
                    return Err(LedgerError::OpenStore(owned("persisted events are not in sequence order")));
                },
            };
            let ghost before = ledger@.ring;
            let ghost prefix = all.subrange(0, taken);
            proof {
                assert(entry == all[taken]);
                assert(entry.event.seq >= 1);
                if before.len() > 0 {
                    // the newest retained event is the last one taken
                    assert(before.last() == prefix.last());
                    assert(prefix.last() == all[taken - 1]);
                }
            }
            ledger.retain(entry);
            proof {
                let kk = choose|kk: int|
                    evicted_to_fit(before.push(entry), options.memory, ledger@.ring, kk)
                        && saturated_sum(k as u64, kk, ledger@.evicted_events);
                lemma_evict_compose(prefix, entry, options.memory, before, k, ledger@.ring, kk);
                assert(all.subrange(0, taken + 1) =~= prefix.push(entry));
                assert(rest@ =~= all.subrange(taken + 1, all.len() as int));
                k = k + kk;
                taken = taken + 1;
            }
        }
        proof {
            assert(all.subrange(0, taken) =~= all);
            if all.len() > 0 {
                assert(all.last() == all[taken - 1]);
            }
        }
        Ok(ledger)
    }
}

impl Ledger {
    /// The envelope the next append assigns to `payload`: the next sequence
    /// number of this session and the current time. Nothing changes.
    pub fn prepare_append(&self, connection_epoch: u64, payload: EventPayload, mono_us: u64) -> (r: Result<EventEnvelope, LedgerError>)
        requires
            self.wf(),
        ensures
            self@.sealed ==> r matches Err(LedgerError::Sealed),
            !self@.sealed && self@.newest_seq == u64::MAX ==> r matches Err(
                LedgerError::SequenceExhausted,
            ),
            !self@.sealed && self@.newest_seq < u64::MAX ==> match payload_fault(payload) {
                Some(f) => (r matches Err(LedgerError::Unavailable(m)) && m@ == "system clock unavailable"@) || (
                r matches Err(LedgerError::InvalidEvent(e)) && e.fault() == f),
                None => (r matches Err(LedgerError::Unavailable(m)) && m@ == "system clock unavailable"@) || (
                r matches Ok(x) && is_next_event(self@, x, connection_epoch, payload, mono_us)),
            },
    {
        if self.sealed {
            return Err(LedgerError::Sealed);
        }
        if self.newest_seq == u64::MAX {
            return Err(LedgerError::SequenceExhausted);
        }
        let ts = match utc_now_rfc3339() {
            Some(ts) => ts,
            None => {
                return Err(LedgerError::Unavailable(owned("system clock unavailable")));
            },
        };
        let event = EventEnvelope::new(
            self.session_id,
            self.newest_seq + 1,
            ts,
            mono_us,
            connection_epoch,
            payload,
        );
        match event.validate() {
            Ok(()) => Ok(event),
            Err(e) => Err(LedgerError::InvalidEvent(e)),
        }
    }

    /// Record `event`, prepared by [`Ledger::prepare_append`] and accounted
    /// at `encoded_len` bytes. `durable` is the outcome of the durable write,
    /// which the host attempts exactly when `self@.persists()`; otherwise it
    /// is ignored.
    ///
    /// The event always reaches the ring. The result is the recorded event,
    /// or `PersistenceDegraded` carrying it when the durable write failed now
    /// or persistence had already degraded with a recorded error.
    pub fn commit_append(&mut self, event: EventEnvelope, encoded_len: usize, durable: Result<(), String>) -> (r: Result<EventEnvelope, LedgerError>)
        requires
            old(self).wf(),
            !old(self)@.sealed,
            old(self)@.newest_seq < u64::MAX,
            event.seq == old(self)@.newest_seq + 1,
        ensures
            final(self).directory() == old(self).directory(),
            final(self).wf(),
            final(self)@.newest_seq == event.seq,
            final(self)@.session_id == old(self)@.session_id,
            final(self)@.memory == old(self)@.memory,
            final(self)@.has_store == old(self)@.has_store,
            !final(self)@.sealed,
            exists|k: int|
                evicted_to_fit(
                    old(self)@.ring.push(RetainedEvent { event, bytes: encoded_len }),
                    old(self)@.memory,
                    final(self)@.ring,
                    k,
                ) && saturated_sum(old(self)@.evicted_events, k, final(self)@.evicted_events),
            old(self)@.persistence is Degraded ==> {
                &&& final(self)@.persistence == old(self)@.persistence
                &&& final(self)@.persistence_error == old(self)@.persistence_error
                &&& match old(self)@.persistence_error {
                    Some(d) => r matches Err(LedgerError::PersistenceDegraded { event_seq, event: e, detail }) && event_seq == event.seq && same_event(*e, event) && detail == d,
                    None => r matches Ok(e) && same_event(e, event),
                }
            },
            old(self)@.persists() ==> match durable {
                Ok(()) => {
                    &&& r matches Ok(e) && same_event(e, event)
                    &&& final(self)@.persistence == old(self)@.persistence
                    &&& final(self)@.persistence_error == old(self)@.persistence_error
                },
                Err(d) => {
                    &&& r matches Err(LedgerError::PersistenceDegraded { event_seq, event: e, detail }) && event_seq == event.seq && same_event(*e, event) && detail == d
                    &&& final(self)@.persistence is Degraded
                    &&& final(self)@.persistence_error == Some(d)
                },
            },
            !old(self)@.has_store ==> {
                &&& r matches Ok(e) && same_event(e, event)
                &&& final(self)@.persistence == old(self)@.persistence
                &&& final(self)@.persistence_error == old(self)@.persistence_error
            },
    {
        let seq = event.seq;
        let failure: Option<String> = if self.persistence_state == PersistenceState::Degraded {
            match &self.persistence_error {
                Some(d) => Some(d.clone()),
                None => None,
            }
        } else if self.has_store {
            match durable {
                Ok(()) => None,
                Err(d) => {
                    self.persistence_state = PersistenceState::Degraded;
                    self.persistence_error = Some(d.clone());
                    Some(d)
                },
            }
        } else {
            None
        };
        let copy = event.duplicate();
        proof {
            if old(self)@.ring.len() > 0 {
                assert(old(self)@.ring.last().event.seq == old(self)@.newest_seq);
            }
        }
        let ghost mid = self@;
        let ghost entry = RetainedEvent { event, bytes: encoded_len };
        self.retain(RetainedEvent { event, bytes: encoded_len });
        proof {
            let k = choose|k: int|
                evicted_to_fit(mid.ring.push(entry), mid.memory, self@.ring, k) && saturated_sum(
                    mid.evicted_events,
                    k,
                    self@.evicted_events,
                );
            assert(mid.ring == old(self)@.ring);
            assert(mid.evicted_events == old(self)@.evicted_events);
            assert(mid.memory == old(self)@.memory);
            assert(evicted_to_fit(old(self)@.ring.push(entry), old(self)@.memory, self@.ring, k));
            assert(saturated_sum(old(self)@.evicted_events, k, self@.evicted_events));
        }
        match failure {
            Some(detail) => Err(
                LedgerError::PersistenceDegraded { event_seq: seq, event: Box::new(copy), detail },
            ),
            None => Ok(copy),
        }
    }
}

/// A cursor query over the ring.
#[derive(Clone, Debug)]
pub struct EventQuery {
    /// Return events with sequence numbers strictly greater than this cursor.
    pub after_seq: u64,
    /// Optional inclusive upper sequence bound.
    pub through_seq: Option<u64>,
    /// Zero uses the default; values above the hard maximum are clamped.
    pub limit: usize,
    pub filter: EventFilter,
}

impl Default for EventQuery {
    fn default() -> (q: Self)
        ensures
            q.after_seq == 0,
            q.through_seq is None,
            q.limit == 0,
            q.filter.event_types@.len() == 0,
            q.filter.connection_epoch is None,
            q.filter.actor is None,
            q.filter.contains_bytes is None,
    {
        EventQuery { after_seq: 0, through_seq: None, limit: 0, filter: EventFilter::default() }
    }
}

/// One page of query results.
#[derive(Debug)]
pub struct QueryPage {
    pub events: Vec<EventEnvelope>,
    /// The requested cursor predates the retained prefix of the ring.
    pub incomplete: bool,
    pub missing_through_seq: Option<u64>,
    pub oldest_available_seq: Option<u64>,
    pub newest_seq: u64,
    pub next_after_seq: u64,
    pub has_more: bool,
}

/// `seq` lies after the query's cursor and not past its upper bound.
pub open spec fn in_window(q: EventQuery, seq: u64) -> bool {
    &&& seq > q.after_seq
    &&& match q.through_seq {
        Some(t) => seq <= t,
        None => true,
    }
}

/// The events of `s` that a query selects, in order.
pub open spec fn selected_events(s: Seq<EventEnvelope>, q: EventQuery) -> Seq<EventEnvelope>
    decreases s.len(),
{
    if s.len() == 0 {
        Seq::empty()
    } else {
        let m = selected_events(s.drop_last(), q);
        if in_window(q, s.last().seq) && filter_accepts(q.filter, s.last()) {
            m.push(s.last())
        } else {
            m
        }
    }
}

/// The sequence number of the last event of `s` inside the query's window.
pub open spec fn last_in_window(s: Seq<EventEnvelope>, q: EventQuery) -> Option<u64>
    decreases s.len(),
{
    if s.len() == 0 {
        None
    } else if in_window(q, s.last().seq) {
        Some(s.last().seq)
    } else {
        last_in_window(s.drop_last(), q)
    }
}

/// The page size a query gets.
pub open spec fn page_limit(limit: usize) -> int {
    if limit == 0 {
        1000
    } else if limit > 100000 {
        100000
    } else {
        limit as int
    }
}

/// The events a query returns: the first page of selected events.
pub open spec fn page_events(s: Seq<EventEnvelope>, q: EventQuery) -> Seq<EventEnvelope> {
    let m = selected_events(s, q);
    if m.len() > page_limit(q.limit) {
        m.take(page_limit(q.limit))
    } else {
        m
    }
}

/// Where the next page starts: after the last returned event when the page
/// is full, else after the last event inside the window, else the cursor.
pub open spec fn page_cursor(s: Seq<EventEnvelope>, q: EventQuery) -> u64 {
    let m = selected_events(s, q);
    if m.len() >= page_limit(q.limit) {
        m[page_limit(q.limit) - 1].seq
    } else {
        match last_in_window(s, q) {
            Some(x) => x,
            None => q.after_seq,
        }
    }
}

/// The first sequence number a cursor asks for.
pub open spec fn requested_next(after: u64) -> u64 {
    if after == u64::MAX {
        u64::MAX
    } else {
        (after + 1) as u64
    }
}

/// Some selected event lies after `cursor` and up to the query's upper bound.
pub open spec fn more_after(s: Seq<EventEnvelope>, q: EventQuery, cursor: u64, newest: u64) -> bool {
    let upper = match q.through_seq {
        Some(t) => t,
        None => newest,
    };
    exists|i: int|
        0 <= i < s.len() && #[trigger] s[i].seq > cursor && s[i].seq <= upper && filter_accepts(
            q.filter,
            s[i],
        )
}

/// `a` and `b` hold the same events, position by position.
pub open spec fn same_events(a: Seq<EventEnvelope>, b: Seq<EventEnvelope>) -> bool {
    a.len() == b.len() && forall|i: int| 0 <= i < a.len() ==> same_event(#[trigger] a[i], b[i])
}

proof fn lemma_selected_prefix(s: Seq<EventEnvelope>, q: EventQuery, j: int)
    requires
        0 <= j <= s.len(),
    ensures
        selected_events(s.take(j), q).len() <= selected_events(s, q).len(),
        selected_events(s, q).take(selected_events(s.take(j), q).len() as int) == selected_events(
            s.take(j),
            q,
        ),
    decreases s.len(),
{
    if j == s.len() {
        assert(s.take(j) =~= s);
        assert(selected_events(s, q).take(selected_events(s, q).len() as int) =~= selected_events(s, q));
    } else {
        lemma_selected_prefix(s.drop_last(), q, j);
        assert(s.drop_last().take(j) =~= s.take(j));
        let a = selected_events(s.take(j), q);
        let b = selected_events(s.drop_last(), q);
        if in_window(q, s.last().seq) && filter_accepts(q.filter, s.last()) {
            assert(b.push(s.last()).take(a.len() as int) =~= b.take(a.len() as int));
        }
    }
}

proof fn lemma_selected_tail(s: Seq<EventEnvelope>, q: EventQuery, j: int)
    requires
        0 <= j <= s.len(),
        forall|k: int| j <= k < s.len() ==> !in_window(q, #[trigger] s[k].seq),
    ensures
        selected_events(s, q) == selected_events(s.take(j), q),
        last_in_window(s, q) == last_in_window(s.take(j), q),
    decreases s.len(),
{
    if j == s.len() {
        assert(s.take(j) =~= s);
    } else {
        assert(!in_window(q, s[s.len() - 1].seq));
        lemma_selected_tail(s.drop_last(), q, j);
        assert(s.drop_last().take(j) =~= s.take(j));
    }
}

/// The limit a query uses.
fn effective_limit(limit: usize) -> (n: usize)
    ensures
        n == page_limit(limit),
{
    if limit == 0 {
        DEFAULT_QUERY_LIMIT
    } else if limit > MAX_QUERY_LIMIT {
        MAX_QUERY_LIMIT
    } else {
        limit
    }
}

impl Ledger {
    /// The retained events, oldest first.
    pub open spec fn events(&self) -> Seq<EventEnvelope> {
        ring_events(self@.ring)
    }

    /// Answer a cursor query from the ring.
    pub fn query(&self, q: &EventQuery) -> (page: QueryPage)
        requires
            self.wf(),
        ensures
            same_events(page.events@, page_events(self.events(), *q)),
            page.next_after_seq == page_cursor(self.events(), *q),
            page.has_more == more_after(self.events(), *q, page.next_after_seq, self@.newest_seq),
            page.incomplete == (self@.newest_seq >= requested_next(q.after_seq) && match self@.oldest() {
                Some(o) => requested_next(q.after_seq) < o,
                None => true,
            }),
            page.missing_through_seq == if page.incomplete {
                Some(
                    match self@.oldest() {
                        Some(o) => (o - 1) as u64,
                        None => self@.newest_seq,
                    },
                )
            } else {
                None
            },
            page.oldest_available_seq == self@.oldest(),
            page.newest_seq == self@.newest_seq,
    {
        let ghost s = self.events();
        let n = effective_limit(q.limit);
        let oldest: Option<u64> = if self.ring.len() > 0 {
            Some(self.ring[0].event.seq)
        } else {
            None
        };
        let next = q.after_seq.saturating_add(1);
        let incomplete = self.newest_seq >= next && match oldest {
            Some(o) => next < o,
            None => true,
        };
        let missing_through_seq = if incomplete {
            Some(
                match oldest {
                    Some(o) => o - 1,
                    None => self.newest_seq,
                },
            )
        } else {
            None
        };
        proof {
            if self.ring@.len() > 0 {
                assert(self.ring@[0].event.seq >= 1);
            }
        }
        let mut events: Vec<EventEnvelope> = Vec::new();
        let mut cursor = q.after_seq;
        let mut i: usize = 0;
        let mut stop = false;
        while i < self.ring.len() && !stop
            invariant
                self.wf(),
                s == self.events(),
                s.len() == self.ring@.len(),
                n == page_limit(q.limit),
                i <= s.len(),
                !stop ==> same_events(events@, selected_events(s.take(i as int), *q)),
                !stop ==> events@.len() < n,
                !stop ==> cursor == match last_in_window(s.take(i as int), *q) {
                    Some(x) => x,
                    None => q.after_seq,
                },
                stop ==> same_events(events@, page_events(s, *q)),
                stop ==> cursor == page_cursor(s, *q),
            decreases (s.len() - i) * 2 + if stop { 0int } else { 1int },
        {
            let ghost prev = s.take(i as int);
            let ghost next_prefix = s.take(i + 1);
            proof {
                assert(next_prefix.drop_last() =~= prev);
                assert(next_prefix.last() == s[i as int]);
                assert(s[i as int] == self.ring@[i as int].event);
            }
            let event = &self.ring[i].event;
            let seq = event.seq;
            let beyond = match q.through_seq {
                Some(t) => seq > t,
                None => false,
            };
            if seq > q.after_seq && beyond {
                proof {
                    assert forall|k: int| i <= k < s.len() implies !in_window(*q, #[trigger] s[k].seq) by {
                        if k > i {
                            assert(self.ring@[i as int].event.seq < self.ring@[k].event.seq);
                        }
                    }
                    lemma_selected_tail(s, *q, i as int);
                    assert(selected_events(s, *q).len() < n);
                    assert(page_events(s, *q) == selected_events(s, *q));
                }
                stop = true;
            } else {
                if seq > q.after_seq {
                    cursor = seq;
                    if q.filter.matches(event) {
                        let ghost before = events@;
                        events.push(event.duplicate());
                        proof {
                            assert(selected_events(next_prefix, *q) == selected_events(prev, *q).push(s[i as int]));
                            assert(same_events(events@, selected_events(next_prefix, *q))) by {
                                assert forall|j: int| 0 <= j < events@.len() implies same_event(#[trigger] events@[j], selected_events(next_prefix, *q)[j]) by {
                                    if j < before.len() {
                                        assert(events@[j] == before[j]);
                                    }
                                }
                            }
                        }
                        if events.len() == n {
                            proof {
                                let m = selected_events(s, *q);
                                let mp = selected_events(next_prefix, *q);
                                lemma_selected_prefix(s, *q, i + 1);
                                assert(mp.len() == n);
                                assert(m.take(n as int) == mp);
                                assert(page_events(s, *q) =~= mp);
                                assert(m[n - 1] == mp[n - 1]);
                                assert(mp[n - 1] == s[i as int]);
                            }
                            stop = true;
                        }
                    }
                }
                i = i + 1;
            }
        }
        proof {
            if !stop {
                assert(s.take(s.len() as int) =~= s);
            }
        }
        let upper = match q.through_seq {
            Some(t) => t,
            None => self.newest_seq,
        };
        let mut has_more = false;
        let mut j: usize = 0;
        while j < self.ring.len()
            invariant
                self.wf(),
                s == self.events(),
                s.len() == self.ring@.len(),
                j <= s.len(),
                upper == match q.through_seq {
                    Some(t) => t,
                    None => self@.newest_seq,
                },
                has_more == exists|k: int|
                    0 <= k < j && #[trigger] s[k].seq > cursor && s[k].seq <= upper
                        && filter_accepts(q.filter, s[k]),
            decreases s.len() - j,
        {
            let event = &self.ring[j].event;
            proof {
                assert(s[j as int] == *event);
            }
            if event.seq > cursor && event.seq <= upper && q.filter.matches(event) {
                has_more = true;
            }
            j = j + 1;
        }
        QueryPage {
            events,
            incomplete,
            missing_through_seq,
            oldest_available_seq: oldest,
            newest_seq: self.newest_seq,
            next_after_seq: cursor,
            has_more,
        }
    }
}

/// The query a page of persisted events answers: its window ends at the
/// requested upper bound or the newest sequence, and it returns 1 to 1000
/// events.
pub open spec fn persisted_query(q: EventQuery, newest: u64) -> EventQuery {
    EventQuery {
        after_seq: q.after_seq,
        through_seq: Some(
            match q.through_seq {
                Some(t) => t,
                None => newest,
            },
        ),
        limit: if q.limit < 1 {
            1
        } else if q.limit > 1000 {
            1000
        } else {
            q.limit
        },
        filter: q.filter,
    }
}

/// Answer a cursor query from a persisted session's events (in sequence
/// order), while the ledger's newest sequence is `newest_seq`.
#[verifier::rlimit(40)]
pub fn page_from_persisted(events: &Vec<EventEnvelope>, q: &EventQuery, newest_seq: u64) -> (page: QueryPage)
    requires
        forall|i: int, j: int| 0 <= i < j < events@.len() ==> events@[i].seq < events@[j].seq,
        !(events@.len() == 0 && newest_seq == u64::MAX),
    ensures
        same_events(page.events@, page_events(events@, persisted_query(*q, newest_seq))),
        page.next_after_seq == page_cursor(events@, persisted_query(*q, newest_seq)),
        page.has_more == more_after(events@, persisted_query(*q, newest_seq), page.next_after_seq, newest_seq),
        page.incomplete == (newest_seq >= requested_next(q.after_seq) && (events@.len() == 0
            || requested_next(q.after_seq) < events@[0].seq)),
        page.missing_through_seq == if page.incomplete {
            Some(
                if events@.len() == 0 {
                    newest_seq
                } else {
                    (events@[0].seq - 1) as u64
                },
            )
        } else {
            None
        },
        page.oldest_available_seq == if events@.len() == 0 {
            None
        } else {
            Some(events@[0].seq)
        },
        page.newest_seq == newest_seq,
{
    let ghost s = events@;
    let ghost pq = persisted_query(*q, newest_seq);
    let n: usize = if q.limit < 1 {
        1
    } else if q.limit > 1000 {
        1000
    } else {
        q.limit
    };
    let upper = match q.through_seq {
        Some(t) => t,
        None => newest_seq,
    };
    let oldest: Option<u64> = if events.len() > 0 {
        Some(events[0].seq)
    } else {
        None
    };
    let next = q.after_seq.saturating_add(1);
    let incomplete = newest_seq >= next && match oldest {
        Some(o) => next < o,
        None => true,
    };
    let missing_through_seq = if incomplete {
        Some(
            match oldest {
                Some(o) => o - 1,
                None => newest_seq,
            },
        )
    } else {
        None
    };
    let mut selected: Vec<EventEnvelope> = Vec::new();
    let mut cursor = q.after_seq;
    let mut i: usize = 0;
    let mut stop = false;
    while i < events.len() && !stop
        invariant
            s == events@,
            pq == persisted_query(*q, newest_seq),
            forall|a: int, b: int| 0 <= a < b < s.len() ==> s[a].seq < s[b].seq,
            n == page_limit(pq.limit),
            upper == pq.through_seq.unwrap(),
            i <= s.len(),
            !stop ==> same_events(selected@, selected_events(s.take(i as int), pq)),
            !stop ==> selected@.len() < n,
            !stop ==> cursor == match last_in_window(s.take(i as int), pq) {
                Some(x) => x,
                None => q.after_seq,
            },
            stop ==> same_events(selected@, page_events(s, pq)),
            stop ==> cursor == page_cursor(s, pq),
        decreases (s.len() - i) * 2 + if stop { 0int } else { 1int },
    {
        let ghost prev = s.take(i as int);
        let ghost next_prefix = s.take(i + 1);
        proof {
            assert(next_prefix.drop_last() =~= prev);
            assert(next_prefix.last() == s[i as int]);
        }
        let event = &events[i];
        let seq = event.seq;
        if seq > q.after_seq && seq > upper {
            proof {
                assert forall|k: int| i <= k < s.len() implies !in_window(pq, #[trigger] s[k].seq) by {
                    if k > i {
                        assert(s[i as int].seq < s[k].seq);
                    }
                }
                lemma_selected_tail(s, pq, i as int);
                assert(selected_events(s, pq).len() < n);
                assert(page_events(s, pq) == selected_events(s, pq));
            }
            stop = true;
        } else {
            if seq > q.after_seq {
                cursor = seq;
                if q.filter.matches(event) {
                    let ghost before = selected@;
                    selected.push(event.duplicate());
                    proof {
                        assert(selected_events(next_prefix, pq) == selected_events(prev, pq).push(s[i as int]));
                        assert(same_events(selected@, selected_events(next_prefix, pq))) by {
                            assert forall|j: int| 0 <= j < selected@.len() implies same_event(#[trigger] selected@[j], selected_events(next_prefix, pq)[j]) by {
                                if j < before.len() {
                                    assert(selected@[j] == before[j]);
                                }
                            }
                        }
                    }
                    if selected.len() == n {
                        proof {
                            let m = selected_events(s, pq);
                            let mp = selected_events(next_prefix, pq);
                            lemma_selected_prefix(s, pq, i + 1);
                            assert(mp.len() == n);
                            assert(m.take(n as int) == mp);
                            assert(page_events(s, pq) =~= mp);
                            assert(m[n - 1] == mp[n - 1]);
                            assert(mp[n - 1] == s[i as int]);
                        }
                        stop = true;
                    }
                }
            }
            i = i + 1;
        }
    }
    proof {
        if !stop {
            assert(s.take(s.len() as int) =~= s);
        }
    }
    let mut has_more = false;
    let mut j: usize = 0;
    while j < events.len()
        invariant
            s == events@,
            j <= s.len(),
            upper == pq.through_seq.unwrap(),
            pq == persisted_query(*q, newest_seq),
            has_more == exists|k: int|
                0 <= k < j && #[trigger] s[k].seq > cursor && s[k].seq <= upper && filter_accepts(q.filter, s[k]),
        decreases s.len() - j,
    {
        let event = &events[j];
        if event.seq > cursor && event.seq <= upper && q.filter.matches(event) {
            has_more = true;
        }
        j = j + 1;
    }
    QueryPage {
        events: selected,
        incomplete,
        missing_through_seq,
        oldest_available_seq: oldest,
        newest_seq,
        next_after_seq: cursor,
        has_more,
    }
}

/// A snapshot of a ledger's counters and persistence state.
#[derive(Clone, Debug, PartialEq, Eq)]
pub struct LedgerStatus {
    pub session_id: u128,
    pub newest_seq: u64,
    pub oldest_available_seq: Option<u64>,
    pub retained_events: usize,
    pub retained_bytes: usize,
    pub evicted_events: u64,
    pub persistence: PersistenceState,
    pub persistence_directory: Option<String>,
    pub persistence_error: Option<String>,
    pub sealed: bool,
}

/// `b` holds the same session, events and counters as `a`.
pub open spec fn same_contents(a: LedgerView, b: LedgerView) -> bool {
    &&& a.session_id == b.session_id
    &&& a.newest_seq == b.newest_seq
    &&& a.ring == b.ring
    &&& a.evicted_events == b.evicted_events
    &&& a.memory == b.memory
    &&& a.has_store == b.has_store
}

impl Ledger {
    /// The session, counters and persistence state.
    pub fn status(&self) -> (st: LedgerStatus)
        requires
            self.wf(),
        ensures
            st.session_id == self@.session_id,
            st.newest_seq == self@.newest_seq,
            st.oldest_available_seq == self@.oldest(),
            st.retained_events == self@.ring.len(),
            st.retained_bytes == sum_bytes(self@.ring),
            st.evicted_events == self@.evicted_events,
            st.persistence == self@.persistence,
            st.persistence_directory is Some == self@.has_store,
            opt_text(st.persistence_directory) == self.directory(),
            st.persistence_error == self@.persistence_error,
            st.sealed == self@.sealed,
    {
        LedgerStatus {
            session_id: self.session_id,
            newest_seq: self.newest_seq,
            oldest_available_seq: if self.ring.len() > 0 {
                Some(self.ring[0].event.seq)
            } else {
                None
            },
            retained_events: self.ring.len(),
            retained_bytes: self.ring_bytes as usize,
            evicted_events: self.evicted_events,
            persistence: self.persistence_state,
            persistence_directory: match &self.persistence_directory {
                Some(d) => Some(d.clone()),
                None => None,
            },
            persistence_error: match &self.persistence_error {
                Some(d) => Some(d.clone()),
                None => None,
            },
            sealed: self.sealed,
        }
    }

    /// The session identifier.
    pub fn session_id(&self) -> (id: u128)
        ensures
            id == self@.session_id,
    {
        self.session_id
    }

    /// The directory segments are written to, when persistence is enabled.
    pub fn persistence_directory(&self) -> (d: Option<String>)
        requires
            self.wf(),
        ensures
            d is Some == self@.has_store,
            opt_text(d) == self.directory(),
    {
        match &self.persistence_directory {
            Some(d) => Some(d.clone()),
            None => None,
        }
    }

    /// What a waiter for events after `seq` gets now: the newest sequence
    /// number once a newer event exists or the ledger is sealed.
    pub fn newer_than(&self, seq: u64) -> (r: Option<u64>)
        ensures
            r == if self@.newest_seq > seq || self@.sealed {
                Some(self@.newest_seq)
            } else {
                None
            },
    {
        if self.newest_seq > seq || self.sealed {
            Some(self.newest_seq)
        } else {
            None
        }
    }

    /// Seal the ledger: no event is appended afterwards. Sealing twice is
    /// harmless. Returns whether the host must now seal the durable store
    /// and report the outcome with [`Ledger::finish_seal`].
    pub fn seal(&mut self) -> (store_seal: bool)
        requires
            old(self).wf(),
        ensures
            final(self).directory() == old(self).directory(),
            final(self).wf(),
            final(self)@ == sealed_view(old(self)@),
            store_seal == (!old(self)@.sealed && old(self)@.has_store),
    {
        if self.sealed {
            return false;
        }
        self.sealed = true;
        self.has_store
    }

    /// Record the outcome of sealing the durable store.
    pub fn finish_seal(&mut self, outcome: Result<(), String>) -> (r: Result<(), LedgerError>)
        requires
            old(self).wf(),
            old(self)@.sealed,
        ensures
            final(self).directory() == old(self).directory(),
            final(self).wf(),
            final(self)@.sealed,
            same_contents(old(self)@, final(self)@),
            match outcome {
                Ok(()) => {
                    &&& r is Ok
                    &&& final(self)@.persistence == if old(self)@.persistence is Active {
                        PersistenceState::Sealed
                    } else {
                        old(self)@.persistence
                    }
                    &&& final(self)@.persistence_error == old(self)@.persistence_error
                },
                Err(d) => {
                    &&& r matches Err(LedgerError::SealFailed(m)) && m == d
                    &&& final(self)@.persistence == if old(self)@.has_store {
                        PersistenceState::Degraded
                    } else {
                        PersistenceState::Disabled
                    }
                    &&& final(self)@.persistence_error == if old(self)@.has_store {
                        Some(d)
                    } else {
                        old(self)@.persistence_error
                    }
                },
            },
    {
        match outcome {
            Ok(()) => {
                if self.persistence_state == PersistenceState::Active {
                    self.persistence_state = PersistenceState::Sealed;
                }
                Ok(())
            },
            Err(d) => {
                if self.has_store {
                    self.persistence_state = PersistenceState::Degraded;
                    self.persistence_error = Some(d.clone());
                }
                Err(LedgerError::SealFailed(d))
            },
        }
    }

    /// Whether a checkpoint may run: refused once sealed or degraded;
    /// otherwise `Ok(true)` when the host must checkpoint the durable store
    /// and report with [`Ledger::finish_checkpoint`].
    pub fn begin_checkpoint(&self) -> (r: Result<bool, LedgerError>)
        requires
            self.wf(),
        ensures
            self@.sealed ==> r matches Err(LedgerError::Sealed),
            !self@.sealed && self@.persistence is Degraded ==> (r matches Err(
                LedgerError::CheckpointFailed(m),
            ) && m@ == match self@.persistence_error {
                Some(d) => d@,
                None => "persistence is degraded"@,
            }),
            !self@.sealed && !(self@.persistence is Degraded) ==> r == Ok::<bool, LedgerError>(
                self@.has_store,
            ),
    {
        if self.sealed {
            return Err(LedgerError::Sealed);
        }
        if self.persistence_state == PersistenceState::Degraded {
            let detail = match &self.persistence_error {
                Some(d) => d.clone(),
                None => owned("persistence is degraded"),
            };
            return Err(LedgerError::CheckpointFailed(detail));
        }
        Ok(self.has_store)
    }

    /// Record the outcome of checkpointing the durable store; a failure
    /// degrades persistence.
    pub fn finish_checkpoint(&mut self, outcome: Result<(), String>) -> (r: Result<(), LedgerError>)
        requires
            old(self).wf(),
            old(self)@.has_store,
            !old(self)@.sealed,
        ensures
            final(self).directory() == old(self).directory(),
            final(self).wf(),
            same_contents(old(self)@, final(self)@),
            final(self)@.sealed == old(self)@.sealed,
            match outcome {
                Ok(()) => r is Ok && final(self)@ == old(self)@,
                Err(d) => {
                    &&& r matches Err(LedgerError::CheckpointFailed(m)) && m == d
                    &&& final(self)@.persistence is Degraded
                    &&& final(self)@.persistence_error == Some(d)
                },
            },
    {
        match outcome {
            Ok(()) => Ok(()),
            Err(d) => {
                self.persistence_state = PersistenceState::Degraded;
                self.persistence_error = Some(d.clone());
                Err(LedgerError::CheckpointFailed(d))
            },
        }
    }
}

/// The state after sealing: the same events and persistence, sealed.
pub open spec fn sealed_view(v: LedgerView) -> LedgerView {
    LedgerView { sealed: true, ..v }
}

/// Sealing is idempotent, and a sealed ledger refuses every append:
/// [`Ledger::prepare_append`] answers `Sealed` whenever `sealed` holds.
pub proof fn law_seal_is_idempotent(v: LedgerView)
    ensures
        sealed_view(sealed_view(v)) == sealed_view(v),
        sealed_view(v).sealed,
        same_contents(v, sealed_view(v)),
{
}

proof fn lemma_selected_shape(s: Seq<EventEnvelope>, q: EventQuery)
    requires
        forall|i: int, j: int| 0 <= i < j < s.len() ==> s[i].seq < s[j].seq,
    ensures
        selected_events(s, q).len() <= s.len(),
        forall|i: int|
            0 <= i < selected_events(s, q).len() ==> in_window(q, #[trigger] selected_events(s, q)[i].seq)
                && filter_accepts(q.filter, selected_events(s, q)[i]),
        forall|i: int, j: int|
            0 <= i < j < selected_events(s, q).len() ==> selected_events(s, q)[i].seq
                < selected_events(s, q)[j].seq,
        s.len() > 0 ==> forall|i: int|
            0 <= i < selected_events(s, q).len() ==> #[trigger] selected_events(s, q)[i].seq
                <= s.last().seq,
    decreases s.len(),
{
    if s.len() > 0 {
        let t = s.drop_last();
        lemma_selected_shape(t, q);
        if t.len() > 0 {
            assert(t.last().seq < s.last().seq);
        }
    }
}

/// A page holds only events the query selects, in strictly increasing
/// sequence order, at most the page limit of them; and the next cursor never
/// moves behind the requested one.
pub proof fn law_page_is_ordered_selection(s: Seq<EventEnvelope>, q: EventQuery)
    requires
        forall|i: int, j: int| 0 <= i < j < s.len() ==> s[i].seq < s[j].seq,
    ensures
        page_events(s, q).len() <= page_limit(q.limit),
        forall|i: int|
            0 <= i < page_events(s, q).len() ==> in_window(q, #[trigger] page_events(s, q)[i].seq)
                && filter_accepts(q.filter, page_events(s, q)[i]),
        forall|i: int, j: int|
            0 <= i < j < page_events(s, q).len() ==> page_events(s, q)[i].seq < page_events(
                s,
                q,
            )[j].seq,
        page_cursor(s, q) >= q.after_seq,
{
    lemma_selected_shape(s, q);
    lemma_last_in_window(s, q);
    let m = selected_events(s, q);
    if m.len() >= page_limit(q.limit) {
        assert(in_window(q, m[page_limit(q.limit) - 1].seq));
    }
}

proof fn lemma_last_in_window(s: Seq<EventEnvelope>, q: EventQuery)
    ensures
        last_in_window(s, q) matches Some(x) ==> in_window(q, x),
    decreases s.len(),
{
    if s.len() > 0 {
        lemma_last_in_window(s.drop_last(), q);
    }
}

/// The ring of a valid ledger is ordered by sequence number, so the law
/// above applies to every query the ledger answers.
pub proof fn law_ledger_events_are_ordered(v: LedgerView)
    requires
        v.valid(),
    ensures
        forall|i: int, j: int|
            0 <= i < j < ring_events(v.ring).len() ==> ring_events(v.ring)[i].seq < ring_events(
                v.ring,
            )[j].seq,
        ring_events(v.ring).len() <= v.memory.max_events,
        sum_bytes(v.ring) <= v.memory.max_bytes,
        v.ring.len() > 0 ==> ring_events(v.ring).last().seq == v.newest_seq,
{
}

} // verus!
