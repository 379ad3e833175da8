//! Read-only replay of verified ledger sessions.
//!
//! A replay holds the original envelopes and nothing that can reach a live
//! device. Pacing in `original` mode (the recorded interval divided by a
//! speed factor) and sleeping are the host's: this module yields the
//! recorded interval in microseconds.

use vstd::prelude::*;

use crate::schema::{envelope_fault, EventEnvelope, SchemaError, SchemaFault};
use crate::text::{owned, str_eq};

verus! {

/// How a replay paces its events.
#[derive(Clone, Copy, Debug, PartialEq, Eq, Structural)]
pub enum ReplayMode {
    /// Emit all events without adding delays.
    Immediate,
    /// Preserve monotonic intervals from the capture, scaled by a speed.
    Original,
    /// Emit events only through `ReplayCursor::step`.
    Manual,
}

impl Default for ReplayMode {
    fn default() -> (m: ReplayMode)
        ensures
            m == ReplayMode::Immediate,
    {
        ReplayMode::Immediate
    }
}

/// Why a replay was refused.
#[derive(Debug)]
pub enum ReplayError {
    Read { path: String, detail: String },
    EmptySession,
    Schema(SchemaError),
    MixedSessions { expected: u128, actual: u128, seq: u64 },
    SequenceDiscontinuity { expected: u64, actual: u64 },
    SequenceOverflow { seq: u64 },
    MonotonicClockRegression { previous_seq: u64, previous_mono_us: u64, seq: u64, mono_us: u64 },
    InvalidMode(String),
    ManualPlayRequiresStep,
    ManualStepRequired,
    StepRequiresManualMode,
}

/// The name of a mode.
pub open spec fn mode_name(m: ReplayMode) -> Seq<char> {
    match m {
        ReplayMode::Immediate => "immediate"@,
        ReplayMode::Original => "original"@,
        ReplayMode::Manual => "manual"@,
    }
}

impl ReplayMode {
    /// The mode a name selects: exactly `immediate`, `original` or `manual`.
    pub fn parse(value: &str) -> (r: Result<ReplayMode, ReplayError>)
        ensures
            value@ == "immediate"@ ==> r matches Ok(ReplayMode::Immediate),
            value@ == "original"@ ==> r matches Ok(ReplayMode::Original),
            value@ == "manual"@ ==> r matches Ok(ReplayMode::Manual),
            value@ != "immediate"@ && value@ != "original"@ && value@ != "manual"@ ==> (r matches Err(
                ReplayError::InvalidMode(v),
            ) && v@ == value@),
    {
        proof {
            reveal_strlit("immediate");
            reveal_strlit("original");
            reveal_strlit("manual");
            assert("immediate"@.len() == 9);
            assert("original"@.len() == 8);
            assert("manual"@.len() == 6);
        }
        if str_eq(value, "immediate") {
            Ok(ReplayMode::Immediate)
        } else if str_eq(value, "original") {
            Ok(ReplayMode::Original)
        } else if str_eq(value, "manual") {
            Ok(ReplayMode::Manual)
        } else {
            Err(ReplayError::InvalidMode(owned(value)))
        }
    }

    /// The name of this mode.
    pub fn name(&self) -> (s: &'static str)
        ensures
            s@ == mode_name(*self),
    {
        match self {
            ReplayMode::Immediate => "immediate",
            ReplayMode::Original => "original",
            ReplayMode::Manual => "manual",
        }
    }
}

/// What is wrong with a capture, as data.
pub enum ReplayFault {
    Empty,
    Schema(SchemaFault),
    MixedSessions { expected: u128, actual: u128, seq: u64 },
    SequenceDiscontinuity { expected: u64, actual: u64 },
    SequenceOverflow { seq: u64 },
    MonotonicClockRegression { previous_seq: u64, previous_mono_us: u64, seq: u64, mono_us: u64 },
}

/// `e` reports fault `f`.
pub open spec fn reports(e: ReplayError, f: ReplayFault) -> bool {
    match (e, f) {
        (ReplayError::EmptySession, ReplayFault::Empty) => true,
        (ReplayError::Schema(se), ReplayFault::Schema(sf)) => se.fault() == sf,
        (
            ReplayError::MixedSessions { expected, actual, seq },
            ReplayFault::MixedSessions { expected: x, actual: a, seq: s },
        ) => expected == x && actual == a && seq == s,
        (
            ReplayError::SequenceDiscontinuity { expected, actual },
            ReplayFault::SequenceDiscontinuity { expected: x, actual: a },
        ) => expected == x && actual == a,
        (ReplayError::SequenceOverflow { seq }, ReplayFault::SequenceOverflow { seq: s }) => seq == s,
        (
            ReplayError::MonotonicClockRegression { previous_seq, previous_mono_us, seq, mono_us },
            ReplayFault::MonotonicClockRegression { previous_seq: p, previous_mono_us: pm, seq: s, mono_us: m },
        ) => previous_seq == p && previous_mono_us == pm && seq == s && mono_us == m,
        _ => false,
    }
}

/// What is wrong with event `i` of a capture whose earlier events are fine:
/// its schema, its session (that of the first event), the next sequence
/// number (which must exist and be its own) and its monotonic clock (which
/// must not run backwards).
pub open spec fn fault_at(evs: Seq<EventEnvelope>, i: int) -> Option<ReplayFault> {
    if envelope_fault(evs[i]) is Some {
        Some(ReplayFault::Schema(envelope_fault(evs[i]).unwrap()))
    } else if i == 0 {
        None
    } else if evs[i].session_id != evs[0].session_id {
        Some(ReplayFault::MixedSessions { expected: evs[0].session_id, actual: evs[i].session_id, seq: evs[i].seq })
    } else if evs[i - 1].seq == u64::MAX {
        Some(ReplayFault::SequenceOverflow { seq: evs[i - 1].seq })
    } else if evs[i].seq != evs[i - 1].seq + 1 {
        Some(ReplayFault::SequenceDiscontinuity { expected: (evs[i - 1].seq + 1) as u64, actual: evs[i].seq })
    } else if evs[i].mono_us < evs[i - 1].mono_us {
        Some(
            ReplayFault::MonotonicClockRegression {
                previous_seq: evs[i - 1].seq,
                previous_mono_us: evs[i - 1].mono_us,
                seq: evs[i].seq,
                mono_us: evs[i].mono_us,
            },
        )
    } else {
        None
    }
}

/// The first fault among the first `n` events.
pub open spec fn first_fault(evs: Seq<EventEnvelope>, n: int) -> Option<ReplayFault>
    decreases n,
{
    if n <= 0 {
        None
    } else {
        match first_fault(evs, n - 1) {
            Some(f) => Some(f),
            None => fault_at(evs, n - 1),
        }
    }
}

/// Why a capture cannot be replayed, if it cannot: it is empty, or some
/// event is at fault.
pub open spec fn capture_fault(evs: Seq<EventEnvelope>) -> Option<ReplayFault> {
    if evs.len() == 0 {
        Some(ReplayFault::Empty)
    } else {
        first_fault(evs, evs.len() as int)
    }
}

/// A capture that replays: one session, sequence numbers that step by one
/// and a clock that never runs backwards.
pub open spec fn replayable(evs: Seq<EventEnvelope>) -> bool {
    &&& evs.len() > 0
    &&& forall|i: int| 0 <= i < evs.len() ==> envelope_fault(#[trigger] evs[i]) is None
    &&& forall|i: int| 0 <= i < evs.len() ==> (#[trigger] evs[i]).session_id == evs[0].session_id
    &&& forall|i: int| 0 < i < evs.len() ==> (#[trigger] evs[i]).seq == evs[i - 1].seq + 1
    &&& forall|i: int| 0 < i < evs.len() ==> (#[trigger] evs[i]).mono_us >= evs[i - 1].mono_us
}

/// A validated, immutable capture.
#[derive(Debug)]
pub struct ReplaySession {
    pub source: Option<String>,
    pub session_id: u128,
    pub first_seq: u64,
    pub last_seq: u64,
    pub events: Vec<EventEnvelope>,
}

proof fn lemma_no_fault_means_replayable(evs: Seq<EventEnvelope>, n: int)
    requires
        0 < n <= evs.len(),
        first_fault(evs, n) is None,
    ensures
        replayable(evs.subrange(0, n)),
    decreases n,
{
    let s = evs.subrange(0, n);
    if n > 1 {
        lemma_no_fault_means_replayable(evs, n - 1);
        let p = evs.subrange(0, n - 1);
        assert forall|i: int| 0 <= i < s.len() implies envelope_fault(#[trigger] s[i]) is None by {
            if i < n - 1 {
                assert(s[i] == p[i]);
            }
        }
        assert forall|i: int| 0 <= i < s.len() implies (#[trigger] s[i]).session_id == s[0].session_id by {
            if i < n - 1 {
                assert(s[i] == p[i]);
            }
        }
        assert forall|i: int| 0 < i < s.len() implies (#[trigger] s[i]).seq == s[i - 1].seq + 1 by {
            if i < n - 1 {
                assert(s[i] == p[i]);
                assert(s[i - 1] == p[i - 1]);
            }
        }
        assert forall|i: int| 0 < i < s.len() implies (#[trigger] s[i]).mono_us >= s[i - 1].mono_us by {
            if i < n - 1 {
                assert(s[i] == p[i]);
                assert(s[i - 1] == p[i - 1]);
            }
        }
    }
}

proof fn lemma_fault_prefix(evs: Seq<EventEnvelope>, m: int, n: int)
    requires
        0 <= m <= n,
        first_fault(evs, m) is Some,
    ensures
        first_fault(evs, n) == first_fault(evs, m),
    decreases n - m,
{
    if n > m {
        lemma_fault_prefix(evs, m, n - 1);
    }
}

fn schema_fault(e: &EventEnvelope) -> (r: Result<(), ReplayError>)
    ensures
        match envelope_fault(*e) {
            Some(f) => r matches Err(ReplayError::Schema(se)) && se.fault() == f,
            None => r is Ok,
        },
{
    match e.validate() {
        Ok(()) => Ok(()),
        Err(se) => Err(ReplayError::Schema(se)),
    }
}

impl ReplaySession {
    /// The session is what it was built from.
    pub open spec fn wf(&self) -> bool {
        &&& replayable(self.events@)
        &&& self.session_id == self.events@[0].session_id
        &&& self.first_seq == self.events@[0].seq
        &&& self.last_seq == self.events@.last().seq
    }

    /// Validate envelopes held by a trusted caller: schema, one session,
    /// sequence continuity and a monotonic clock. Disk integrity is the
    /// verified reader's part.
    pub fn from_envelopes(events: Vec<EventEnvelope>) -> (r: Result<ReplaySession, ReplayError>)
        ensures
            match capture_fault(events@) {
                Some(f) => r matches Err(e) && reports(e, f),
                None => r matches Ok(s) && s.wf() && s.events@ == events@ && s.source is None,
            },
    {
        Self::from_validated_events(events, None)
    }

    /// Build a replay from envelopes read from `source`.
    pub fn from_validated_events(events: Vec<EventEnvelope>, source: Option<String>) -> (r: Result<ReplaySession, ReplayError>)
        ensures
            match capture_fault(events@) {
                Some(f) => r matches Err(e) && reports(e, f),
                None => r matches Ok(s) && s.wf() && s.events@ == events@ && s.source == source,
            },
    {
        if events.len() == 0 {
            return Err(ReplayError::EmptySession);
        }
        let n = events.len();
        proof {
            assert(first_fault(events@, 0) is None);
            assert(first_fault(events@, 1) == fault_at(events@, 0));
        }
        match schema_fault(&events[0]) {
            Err(e) => {
                proof {
                    lemma_fault_prefix(events@, 1, n as int);
                }
                return Err(e);
            },
            Ok(()) => {},
        }
        let session_id = events[0].session_id;
        let first_seq = events[0].seq;
        let mut previous_seq = first_seq;
        let mut previous_mono_us = events[0].mono_us;
        let mut i: usize = 1;
        while i < n
            invariant
                1 <= i <= n,
                n == events@.len(),
                session_id == events@[0].session_id,
                previous_seq == events@[i - 1].seq,
                previous_mono_us == events@[i - 1].mono_us,
                first_fault(events@, i as int) is None,
            decreases n - i,
        {
            let ev = &events[i];
            proof {
                assert(first_fault(events@, i + 1) == fault_at(events@, i as int));
            }
            match schema_fault(ev) {
                Err(e) => {
                    proof {
                        lemma_fault_prefix(events@, i + 1, n as int);
                    }
                    return Err(e);
                },
                Ok(()) => {},
            }
            if ev.session_id != session_id {
                proof {
                    lemma_fault_prefix(events@, i + 1, n as int);
                }
                return Err(ReplayError::MixedSessions { expected: session_id, actual: ev.session_id, seq: ev.seq });
            }
            if previous_seq == u64::MAX {
                proof {
                    lemma_fault_prefix(events@, i + 1, n as int);
                }
                return Err(ReplayError::SequenceOverflow { seq: previous_seq });
            }
            let expected = previous_seq + 1;
            if ev.seq != expected {
                proof {
                    lemma_fault_prefix(events@, i + 1, n as int);
                }
                return Err(ReplayError::SequenceDiscontinuity { expected, actual: ev.seq });
            }
            if ev.mono_us < previous_mono_us {
                proof {
                    lemma_fault_prefix(events@, i + 1, n as int);
                }
                return Err(
                    ReplayError::MonotonicClockRegression {
                        previous_seq,
                        previous_mono_us,
                        seq: ev.seq,
                        mono_us: ev.mono_us,
                    },
                );
            }
            previous_seq = ev.seq;
            previous_mono_us = ev.mono_us;
            i = i + 1;
        }
        proof {
            lemma_no_fault_means_replayable(events@, n as int);
            assert(events@.subrange(0, n as int) =~= events@);
        }
        Ok(ReplaySession { source, session_id, first_seq, last_seq: previous_seq, events })
    }

    /// The number of events.
    pub fn len(&self) -> (n: usize)
        ensures
            n == self.events@.len(),
    {
        self.events.len()
    }

    /// Whether the capture holds no event (never, for a built session).
    pub fn is_empty(&self) -> (b: bool)
        ensures
            b == (self.events@.len() == 0),
    {
        self.events.len() == 0
    }

    /// A cursor at the start of the capture, pacing events by `mode`.
    pub fn cursor(&self, mode: ReplayMode) -> (c: ReplayCursor<'_>)
        ensures
            c.events@ == self.events@,
            c.mode == mode,
            c.next_index == 0,
    {
        ReplayCursor { events: &self.events, mode, next_index: 0 }
    }

    /// A manual cursor at the start of the capture.
    pub fn manual_cursor(&self) -> (c: ReplayCursor<'_>)
        ensures
            c.events@ == self.events@,
            c.mode == ReplayMode::Manual,
            c.next_index == 0,
    {
        self.cursor(ReplayMode::Manual)
    }
}

/// An independent position in a capture.
#[derive(Debug)]
pub struct ReplayCursor<'a> {
    pub events: &'a Vec<EventEnvelope>,
    pub mode: ReplayMode,
    pub next_index: usize,
}

impl<'a> ReplayCursor<'a> {
    /// The position is within the capture.
    pub open spec fn wf(&self) -> bool {
        self.next_index <= self.events@.len()
    }

    /// The pacing mode.
    pub fn mode(&self) -> (m: ReplayMode)
        ensures
            m == self.mode,
    {
        self.mode
    }

    /// How many events have been emitted.
    pub fn position(&self) -> (p: usize)
        ensures
            p == self.next_index,
    {
        self.next_index
    }

    /// How many events are left.
    pub fn remaining(&self) -> (n: usize)
        ensures
            n == if self.next_index <= self.events@.len() {
                self.events@.len() - self.next_index
            } else {
                0
            },
    {
        if self.next_index <= self.events.len() {
            self.events.len() - self.next_index
        } else {
            0
        }
    }

    /// Whether every event has been emitted.
    pub fn is_finished(&self) -> (b: bool)
        ensures
            b == (self.next_index == self.events@.len()),
    {
        self.next_index == self.events.len()
    }

    /// The recorded interval, in microseconds, before the next event:
    /// `None` once finished; zero in immediate mode and before the first
    /// event. A manual cursor has no pacing.
    pub fn delay_before_next_us(&self) -> (r: Result<Option<u64>, ReplayError>)
        requires
            self.wf(),
        ensures
            self.mode == ReplayMode::Manual ==> r matches Err(ReplayError::ManualStepRequired),
            self.mode != ReplayMode::Manual && self.next_index == self.events@.len() ==> r matches Ok(None),
            r matches Ok(Some(_)) ==> self.next_index < self.events@.len(),
            self.mode != ReplayMode::Manual && self.next_index < self.events@.len() && (self.mode
                == ReplayMode::Immediate || self.next_index == 0) ==> r == Ok::<Option<u64>, ReplayError>(Some(0)),
            self.mode == ReplayMode::Original && 0 < self.next_index < self.events@.len() ==> ({
                let prev = self.events@[self.next_index - 1];
                let next = self.events@[self.next_index as int];
                if next.mono_us >= prev.mono_us {
                    r == Ok::<Option<u64>, ReplayError>(Some((next.mono_us - prev.mono_us) as u64))
                } else {
                    r matches Err(ReplayError::MonotonicClockRegression { previous_seq, previous_mono_us, seq, mono_us })
                        && previous_seq == prev.seq && previous_mono_us == prev.mono_us && seq == next.seq
                        && mono_us == next.mono_us
                }
            }),
    {
        if self.mode == ReplayMode::Manual {
            return Err(ReplayError::ManualStepRequired);
        }
        if self.next_index == self.events.len() {
            return Ok(None);
        }
        if self.mode == ReplayMode::Immediate || self.next_index == 0 {
            return Ok(Some(0));
        }
        let previous = &self.events[self.next_index - 1];
        let next = &self.events[self.next_index];
        if next.mono_us < previous.mono_us {
            return Err(
                ReplayError::MonotonicClockRegression {
                    previous_seq: previous.seq,
                    previous_mono_us: previous.mono_us,
                    seq: next.seq,
                    mono_us: next.mono_us,
                },
            );
        }
        Ok(Some(next.mono_us - previous.mono_us))
    }

    /// Emit the next event of an immediate or original cursor, once the host
    /// has waited for `delay_before_next_us`.
    pub fn next_event(&mut self) -> (r: Result<Option<EventEnvelope>, ReplayError>)
        requires
            old(self).wf(),
        ensures
            final(self).wf(),
            final(self).events == old(self).events,
            final(self).mode == old(self).mode,
            old(self).mode == ReplayMode::Manual ==> (r matches Err(ReplayError::ManualStepRequired))
                && final(self).next_index == old(self).next_index,
            old(self).mode != ReplayMode::Manual && old(self).next_index == old(self).events@.len() ==> (r matches Ok(None))
                && final(self).next_index == old(self).next_index,
            r matches Ok(Some(e)) ==> crate::schema::same_event(e, old(self).events@[old(self).next_index as int])
                && final(self).next_index == old(self).next_index + 1,
            r is Err ==> final(self).next_index == old(self).next_index,
    {
        match self.delay_before_next_us() {
            Err(e) => Err(e),
            Ok(None) => Ok(None),
            Ok(Some(_)) => {
                assert(self.next_index < self.events.len());
                let e = self.events[self.next_index].duplicate();
                self.next_index = self.next_index + 1;
                Ok(Some(e))
            },
        }
    }

    /// Emit up to `count` events from a manual cursor.
    pub fn step(&mut self, count: usize) -> (r: Result<Vec<EventEnvelope>, ReplayError>)
        requires
            old(self).wf(),
        ensures
            final(self).wf(),
            final(self).events == old(self).events,
            final(self).mode == old(self).mode,
            old(self).mode != ReplayMode::Manual ==> (r matches Err(ReplayError::StepRequiresManualMode))
                && final(self).next_index == old(self).next_index,
            old(self).mode == ReplayMode::Manual ==> ({
                let end = if old(self).next_index + count > old(self).events@.len() {
                    old(self).events@.len() as int
                } else {
                    old(self).next_index + count
                };
                &&& final(self).next_index == end
                &&& r matches Ok(v) && v@.len() == end - old(self).next_index && (forall|k: int|
                    0 <= k < v@.len() ==> crate::schema::same_event(
                        #[trigger] v@[k],
                        old(self).events@[old(self).next_index + k],
                    ))
            }),
    {
        if self.mode != ReplayMode::Manual {
            return Err(ReplayError::StepRequiresManualMode);
        }
        let len = self.events.len();
        let end = if count > len - self.next_index { len } else { self.next_index + count };
        let start = self.next_index;
        let mut out: Vec<EventEnvelope> = Vec::new();
        let mut i: usize = start;
        while i < end
            invariant
                start <= i <= end <= self.events@.len(),
                out@.len() == i - start,
                forall|k: int| 0 <= k < out@.len() ==> crate::schema::same_event(#[trigger] out@[k], self.events@[start + k]),
            decreases end - i,
        {
            out.push(self.events[i].duplicate());
            i = i + 1;
        }
        self.next_index = end;
        Ok(out)
    }
}

/// The outcome of a paced replay.
#[derive(Debug, PartialEq, Eq)]
pub struct ReplayReport {
    pub emitted: usize,
    pub first_seq: Option<u64>,
    pub last_seq: Option<u64>,
    pub elapsed: std::time::Duration,
}

/// The report of a replay of `session` that emitted `emitted` events in
/// `elapsed`: the session's sequence range when anything was emitted.
pub fn replay_report(session: &ReplaySession, emitted: usize, elapsed: std::time::Duration) -> (r: ReplayReport)
    ensures
        r.emitted == emitted,
        r.first_seq == if emitted != 0 { Some(session.first_seq) } else { None },
        r.last_seq == if emitted != 0 { Some(session.last_seq) } else { None },
        r.elapsed == elapsed,
{
    ReplayReport {
        emitted,
        first_seq: if emitted != 0 { Some(session.first_seq) } else { None },
        last_seq: if emitted != 0 { Some(session.last_seq) } else { None },
        elapsed,
    }
}

} // verus!
