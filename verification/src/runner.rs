//! Running a workflow, one decision at a time.
//!
//! A run alternates outside work (taking a lease, sending, sleeping,
//! reading the port state, waiting for events) with decisions. The host
//! performs each [`RunAction`] and reports how it went; every decision, and
//! the evidence it leaves, is taken here.

use vstd::prelude::*;

use crate::codec::{base64_encode, uuid_hyphenated};
use crate::schema::{EventEnvelope, EventPayload, GapScope, payload_bytes};
use crate::text::{owned, str_eq};
use crate::workflow::{
    RunAdmission, RunRegistry, WorkflowAuthorization, WorkflowDefinition, WorkflowError,
    WorkflowLimits, WorkflowPortState, WorkflowResult, WorkflowStep, EvidenceCursor, LeaseReceipt,
    Matcher, StepEvidence, ExpectProgress, add_capture, authorize_step, byte_value_decoded,
    capture_text, check_assertion, check_cancel, check_port, check_start_epoch, cursor_fault,
    definition_fault, ends_with_prefix, first_step_fault, limits_ok, record_evidence, registry_ok,
    reports, run_result, step_denial, step_fault, step_op, validate_request_id, wait_budget_ns,
    workflow_actor, admit_spec, finish_spec, request_id_ok,
};

verus! {

/// What a run is doing.
pub enum RunPhase {
    /// Between steps: the next one has not begun.
    Idle,
    /// The current step's outside action is under way.
    Acting,
    /// The current step waits for its pattern in the event stream, for at
    /// most `timeout_ms`; `capture` says whether the match is kept.
    Expecting { matcher: Matcher, timeout_ms: u64, capture: bool },
}

/// The outside work the current step asks for. The run's actor and lease
/// token go with every lease, send and control.
pub enum RunAction {
    /// Validate the held lease, or acquire one.
    Lease,
    /// Send `data` as one confirmed write.
    Send { data: Vec<u8> },
    /// Wait for canonical events, for at most `timeout_ms`.
    Expect { timeout_ms: u64 },
    /// Report the port state.
    Assert,
    /// Sleep `ns` nanoseconds.
    Sleep { ns: u128 },
    /// Issue the named device control.
    Control { name: String, value: Option<String> },
}

/// One run of a validated workflow.
pub struct WorkflowRun {
    pub request_id: String,
    pub run_id: u128,
    pub actor: String,
    pub steps: Vec<WorkflowStep>,
    pub limits: WorkflowLimits,
    pub auth: WorkflowAuthorization,
    pub cursor: EvidenceCursor,
    pub evidence: Vec<StepEvidence>,
    /// Bytes captured so far.
    pub captured: usize,
    /// The index of the current step.
    pub current: usize,
    /// Where the cursor stood when the current step began.
    pub step_start: u64,
    pub phase: RunPhase,
}

/// The evidence name of a step.
pub open spec fn op_name(step: WorkflowStep) -> Seq<char> {
    match step {
        WorkflowStep::Lease => "lease"@,
        WorkflowStep::Send { .. } => "send"@,
        WorkflowStep::Expect { .. } => "expect"@,
        WorkflowStep::Assert { .. } => "assert"@,
        WorkflowStep::Wait { .. } => "wait"@,
        WorkflowStep::Control { .. } => "control"@,
    }
}

/// An optional string as an optional character sequence.
pub open spec fn opt_view(o: Option<String>) -> Option<Seq<char>> {
    match o {
        Some(s) => Some(s@),
        None => None,
    }
}

/// `e` records that step `i`, `step`, succeeded, ending no later than `upto`.
pub open spec fn recorded(e: StepEvidence, i: int, step: WorkflowStep, upto: u64) -> bool {
    &&& e.step == i
    &&& e.op@ == op_name(step)
    &&& e.status@ == "ok"@
    &&& e.start_seq is Some
    &&& e.end_seq is Some
    &&& e.start_seq.unwrap() <= e.end_seq.unwrap() <= upto
}

/// The evidence records the first steps in order, each within the stream
/// before `upto`, and no step's span overlaps a later one.
pub open spec fn evidence_ok(ev: Seq<StepEvidence>, steps: Seq<WorkflowStep>, upto: u64) -> bool {
    &&& ev.len() <= steps.len()
    &&& forall|i: int| 0 <= i < ev.len() ==> recorded(#[trigger] ev[i], i, steps[i], upto)
    &&& forall|i: int, j: int|
        0 <= i < j < ev.len() ==> (#[trigger] ev[i]).end_seq.unwrap() <= (#[trigger] ev[j]).start_seq.unwrap()
}

/// Every step of `steps` passes validation under `l`.
pub open spec fn steps_ok(steps: Seq<WorkflowStep>, l: WorkflowLimits) -> bool {
    forall|i: int| 0 <= i < steps.len() ==> #[trigger] step_fault(steps[i], l) is None
}

impl WorkflowRun {
    /// The run's invariant.
    pub open spec fn wf(&self) -> bool {
        &&& limits_ok(self.limits)
        &&& self.limits.max_pattern_bytes <= isize::MAX
        &&& steps_ok(self.steps@, self.limits)
        &&& self.actor@ == "workflow:"@ + uuid_hyphenated(self.run_id)
        &&& self.current <= self.steps@.len()
        &&& self.evidence@.len() == self.current
        &&& self.current <= self.limits.max_evidence_items
        &&& self.captured <= self.limits.max_capture_bytes
        &&& evidence_ok(self.evidence@, self.steps@, self.cursor.seq)
        &&& self.step_start <= self.cursor.seq
        &&& !(self.phase is Idle) ==> {
            &&& self.current < self.steps@.len()
            &&& forall|i: int| 0 <= i < self.evidence@.len() ==> (#[trigger] self.evidence@[i]).end_seq.unwrap() <= self.step_start
        }
        &&& self.phase matches RunPhase::Expecting { matcher, .. } ==> {
            &&& matcher.wf()
            &&& self.steps@[self.current as int] matches WorkflowStep::Expect { pattern, .. }
            &&& byte_value_decoded(pattern) == Ok::<Seq<u8>, Seq<char>>(matcher.pattern_bytes())
        }
    }

    /// Every step has run.
    pub open spec fn done(&self) -> bool {
        self.current == self.steps@.len()
    }
}

/// No step fault among all steps means none in any step.
proof fn lemma_steps_ok(steps: Seq<WorkflowStep>, l: WorkflowLimits)
    requires
        first_step_fault(steps, l) is None,
    ensures
        steps_ok(steps, l),
    decreases steps.len(),
{
    if steps.len() > 0 {
        lemma_steps_ok(steps.drop_last(), l);
        assert forall|i: int| 0 <= i < steps.len() implies #[trigger] step_fault(steps[i], l) is None by {
            if i < steps.len() - 1 {
                assert(steps.drop_last()[i] == steps[i]);
            }
        }
    }
}

impl WorkflowRun {
    /// Start a run of `definition`, as run `run_id`, from an evidence cursor
    /// taken while the port was in state `port`. The definition must pass
    /// validation, and the port must still be on the cursor's connection.
    /// The run writes as an actor made from `run_id`, never one the
    /// definition names.
    pub fn start(
        request_id: &str,
        run_id: u128,
        definition: WorkflowDefinition,
        limits: WorkflowLimits,
        auth: WorkflowAuthorization,
        cursor: EvidenceCursor,
        port: WorkflowPortState,
    ) -> (r: Result<WorkflowRun, WorkflowError>)
        requires
            limits.max_pattern_bytes <= isize::MAX,
        ensures
            match definition_fault(definition, limits) {
                Some(f) => r matches Err(e) && reports(e, f),
                None => if cursor.connection_epoch != port.connection_epoch {
                    r == Err::<WorkflowRun, WorkflowError>(
                        WorkflowError::EpochChanged { expected: cursor.connection_epoch, actual: port.connection_epoch },
                    )
                } else {
                    r matches Ok(run) && {
                        &&& run.wf()
                        &&& run.request_id@ == request_id@
                        &&& run.run_id == run_id
                        &&& run.steps == definition.steps
                        &&& run.limits == limits
                        &&& run.auth == auth
                        &&& run.cursor == cursor
                        &&& run.evidence@.len() == 0
                        &&& run.captured == 0
                        &&& run.current == 0
                        &&& run.phase is Idle
                    }
                },
            },
    {
        match definition.validate(&limits) {
            Err(e) => {
                return Err(e);
            },
            Ok(()) => {},
        }
        match check_start_epoch(cursor.connection_epoch, port.connection_epoch) {
            Err(e) => {
                return Err(e);
            },
            Ok(()) => {},
        }
        proof {
            lemma_steps_ok(definition.steps@, limits);
        }
        let actor = workflow_actor(run_id);
        let step_start = cursor.seq;
        let run = WorkflowRun {
            request_id: owned(request_id),
            run_id,
            actor,
            steps: definition.steps,
            limits,
            auth,
            cursor,
            evidence: Vec::new(),
            captured: 0,
            current: 0,
            step_start,
            phase: RunPhase::Idle,
        };
        Ok(run)
    }

    /// Whether every step has run.
    pub fn is_done(&self) -> (r: bool)
        ensures
            r == self.done(),
    {
        self.current == self.steps.len()
    }

    /// The result of a run whose every step succeeded.
    pub fn into_result(self) -> (r: WorkflowResult)
        requires
            self.wf(),
            self.done(),
        ensures
            r.request_id@ == self.request_id@,
            r.run_id == self.run_id,
            r.actor == self.actor,
            r.status@ == "succeeded"@,
            r.cursor == self.cursor,
            r.evidence == self.evidence,
    {
        run_result(self.request_id.as_str(), self.run_id, self.actor, self.cursor, self.evidence)
    }
}

/// How long a wait step sleeps, in nanoseconds: its duration, cut to what
/// is left of the run's time budget.
pub open spec fn sleep_ns(duration_ms: u64, elapsed_ns: u128, max_ms: u64) -> int {
    let remaining = if max_ms as int * 1_000_000 > elapsed_ns {
        max_ms as int * 1_000_000 - elapsed_ns
    } else {
        0
    };
    if duration_ms as int * 1_000_000 < remaining {
        duration_ms as int * 1_000_000
    } else {
        remaining
    }
}

/// The outside work step `s` asks for, given the run's state `after` it
/// began, `max_ms` of budget and `elapsed_ns` already spent.
pub open spec fn begins(s: WorkflowStep, r: RunAction, after: RunPhase, elapsed_ns: u128, max_ms: u64) -> bool {
    match s {
        WorkflowStep::Lease => r is Lease && after is Acting,
        WorkflowStep::Send { bytes } => r matches RunAction::Send { data } && byte_value_decoded(bytes)
            == Ok::<Seq<u8>, Seq<char>>(data@) && after is Acting,
        WorkflowStep::Expect { pattern, timeout_ms, capture } => {
            let t = match timeout_ms {
                Some(x) => x,
                None => max_ms,
            };
            &&& r matches RunAction::Expect { timeout_ms: rt } && rt == t
            &&& after matches RunPhase::Expecting { matcher, timeout_ms: pt, capture: c } && pt == t && c == (
            capture is Some) && matcher.seen() == Seq::<u8>::empty()
        },
        WorkflowStep::Assert { .. } => r is Assert && after is Acting,
        WorkflowStep::Wait { duration_ms } => r matches RunAction::Sleep { ns } && ns == sleep_ns(
            duration_ms,
            elapsed_ns,
            max_ms,
        ) && after is Acting,
        WorkflowStep::Control { name, value } => r matches RunAction::Control { name: n, value: v } && n@
            == name@ && opt_view(v) == opt_view(value) && after is Acting,
    }
}

impl WorkflowRun {
    /// Begin the current step. A cancelled run, or one that has spent its
    /// time budget, stops; a step the caller lacks the capability (or the
    /// lease) for is refused; otherwise the step's outside work is returned
    /// and the run waits for its outcome.
    pub fn next_action(&mut self, cancelled: bool, elapsed_ns: u128) -> (r: Result<RunAction, WorkflowError>)
        requires
            old(self).wf(),
            old(self).phase is Idle,
            !old(self).done(),
        ensures
            final(self).wf(),
            r is Err ==> *final(self) == *old(self),
            ({
                let s = old(self).steps@[old(self).current as int];
                let max = old(self).limits.max_duration_ms;
                if cancelled {
                    r == Err::<RunAction, WorkflowError>(WorkflowError::Cancelled)
                } else if elapsed_ns > max as int * 1_000_000 {
                    r == Err::<RunAction, WorkflowError>(WorkflowError::Timeout)
                } else if step_denial(s, old(self).auth) is Some {
                    r == Err::<RunAction, WorkflowError>(step_denial(s, old(self).auth).unwrap())
                } else {
                    r matches Ok(a) && begins(s, a, final(self).phase, elapsed_ns, max)
                }
            }),
            r is Ok ==> *final(self) == (WorkflowRun {
                step_start: old(self).cursor.seq,
                phase: final(self).phase,
                ..*old(self)
            }),
    {
        match check_cancel(cancelled, elapsed_ns, self.limits.max_duration_ms) {
            Err(e) => {
                return Err(e);
            },
            Ok(()) => {},
        }
        let i = self.current;
        match authorize_step(&self.steps[i], &self.auth) {
            Err(e) => {
                return Err(e);
            },
            Ok(()) => {},
        }
        proof {
            assert(step_fault(self.steps@[i as int], self.limits) is None);
        }
        let (action, phase) = match &self.steps[i] {
            WorkflowStep::Lease => (RunAction::Lease, RunPhase::Acting),
            WorkflowStep::Send { bytes } => {
                let data = match bytes.decode() {
                    Ok(d) => d,
                    Err(e) => {
                        return Err(e);
                    },
                };
                (RunAction::Send { data }, RunPhase::Acting)
            },
            WorkflowStep::Expect { pattern, timeout_ms, capture } => {
                let p = match pattern.decode() {
                    Ok(d) => d,
                    Err(e) => {
                        return Err(e);
                    },
                };
                let t = match timeout_ms {
                    Some(t) => *t,
                    None => self.limits.max_duration_ms,
                };
                let matcher = Matcher::new(p);
                (RunAction::Expect { timeout_ms: t }, RunPhase::Expecting { matcher, timeout_ms: t, capture: capture.is_some() })
            },
            WorkflowStep::Assert { .. } => (RunAction::Assert, RunPhase::Acting),
            WorkflowStep::Wait { duration_ms } => {
                let ns = wait_budget_ns(*duration_ms, elapsed_ns, self.limits.max_duration_ms);
                (RunAction::Sleep { ns }, RunPhase::Acting)
            },
            WorkflowStep::Control { name, value } => {
                let v = match value {
                    Some(v) => Some(owned(v.as_str())),
                    None => None,
                };
                (RunAction::Control { name: owned(name.as_str()), value: v }, RunPhase::Acting)
            },
        };
        self.step_start = self.cursor.seq;
        self.phase = phase;
        Ok(action)
    }
}

/// `after` is `before` with its current step recorded (with `capture`) and
/// the run back between steps.
pub open spec fn step_recorded(before: WorkflowRun, after: WorkflowRun, capture: Option<Seq<char>>) -> bool {
    &&& after.current == before.current + 1
    &&& after.phase is Idle
    &&& after.evidence@.len() == before.evidence@.len() + 1
    &&& after.evidence@.drop_last() == before.evidence@
    &&& after.evidence@.last().start_seq == Some(before.step_start)
    &&& after.evidence@.last().end_seq == Some(after.cursor.seq)
    &&& opt_view(after.evidence@.last().capture_base64) == capture
    &&& after.request_id == before.request_id
    &&& after.run_id == before.run_id
    &&& after.actor == before.actor
    &&& after.steps == before.steps
    &&& after.limits == before.limits
    &&& after.step_start == before.step_start
}

impl WorkflowRun {
    /// Record the current step's evidence, unless the run already holds as
    /// much evidence as its limits allow.
    fn complete_step(&mut self, capture: Option<String>) -> (r: Result<(), WorkflowError>)
        requires
            old(self).wf(),
            !(old(self).phase is Idle),
        ensures
            final(self).wf(),
            old(self).evidence@.len() >= old(self).limits.max_evidence_items ==> r == Err::<(), WorkflowError>(
                WorkflowError::EvidenceLimit,
            ) && *final(self) == *old(self),
            old(self).evidence@.len() < old(self).limits.max_evidence_items ==> r is Ok && step_recorded(
                *old(self),
                *final(self),
                opt_view(capture),
            ) && final(self).cursor == old(self).cursor && final(self).captured == old(self).captured
                && final(self).auth == old(self).auth,
    {
        if self.evidence.len() >= self.limits.max_evidence_items {
            return Err(WorkflowError::EvidenceLimit);
        }
        let i = self.current;
        let ghost before = self.evidence@;
        let op = step_op(&self.steps[i]);
        let start = self.step_start;
        let end = self.cursor.seq;
        let max = self.limits.max_evidence_items;
        let _ = record_evidence(&mut self.evidence, max, i, op, start, end, capture);
        self.current = i + 1;
        self.phase = RunPhase::Idle;
        proof {
            let ev = self.evidence@;
            assert forall|k: int| 0 <= k < before.len() implies ev[k] == before[k] by {
                assert(ev.subrange(0, before.len() as int)[k] == ev[k]);
            }
            assert(ev.drop_last() =~= before);
            assert forall|k: int| 0 <= k < ev.len() implies recorded(#[trigger] ev[k], k, self.steps@[k], self.cursor.seq) by {
                if k < before.len() {
                    assert(ev[k] == before[k]);
                }
            }
            assert forall|a: int, b: int| 0 <= a < b < ev.len() implies (#[trigger] ev[a]).end_seq.unwrap() <= (#[trigger] ev[b]).start_seq.unwrap() by {
                assert(ev[a] == before[a]);
                if b < before.len() {
                    assert(ev[b] == before[b]);
                }
            }
        }
        Ok(())
    }

    /// The lease step's runtime granted or renewed the lease: a token in
    /// the receipt replaces the one held, and the step is recorded.
    pub fn lease_granted(&mut self, receipt: LeaseReceipt) -> (r: Result<(), WorkflowError>)
        requires
            old(self).wf(),
            old(self).phase is Acting,
            old(self).steps@[old(self).current as int] is Lease,
        ensures
            final(self).wf(),
            final(self).auth.lease_token == (if receipt.lease_token is Some {
                receipt.lease_token
            } else {
                old(self).auth.lease_token
            }),
            final(self).auth.can_read == old(self).auth.can_read,
            final(self).auth.can_write == old(self).auth.can_write,
            final(self).auth.can_control == old(self).auth.can_control,
            final(self).cursor == old(self).cursor,
            final(self).captured == old(self).captured,
            old(self).evidence@.len() >= old(self).limits.max_evidence_items ==> r == Err::<(), WorkflowError>(
                WorkflowError::EvidenceLimit,
            ),
            old(self).evidence@.len() < old(self).limits.max_evidence_items ==> r is Ok && step_recorded(
                *old(self),
                *final(self),
                None,
            ),
    {
        if receipt.lease_token.is_some() {
            self.auth.lease_token = receipt.lease_token;
        }
        self.complete_step(None)
    }

    /// The send or control step's runtime confirmed its work; the step is
    /// recorded.
    pub fn action_confirmed(&mut self) -> (r: Result<(), WorkflowError>)
        requires
            old(self).wf(),
            old(self).phase is Acting,
            old(self).steps@[old(self).current as int] is Send || old(self).steps@[old(self).current as int] is Control,
        ensures
            final(self).wf(),
            final(self).auth == old(self).auth,
            final(self).cursor == old(self).cursor,
            final(self).captured == old(self).captured,
            old(self).evidence@.len() >= old(self).limits.max_evidence_items ==> r == Err::<(), WorkflowError>(
                WorkflowError::EvidenceLimit,
            ),
            old(self).evidence@.len() < old(self).limits.max_evidence_items ==> r is Ok && step_recorded(
                *old(self),
                *final(self),
                None,
            ),
    {
        self.complete_step(None)
    }

    /// The assert step's port state: the assertion must hold, and the step
    /// is recorded.
    pub fn port_reported(&mut self, state: WorkflowPortState) -> (r: Result<(), WorkflowError>)
        requires
            old(self).wf(),
            old(self).phase is Acting,
            old(self).steps@[old(self).current as int] is Assert,
        ensures
            final(self).wf(),
            final(self).auth == old(self).auth,
            final(self).cursor == old(self).cursor,
            final(self).captured == old(self).captured,
            ({
                let a = old(self).steps@[old(self).current as int]->assertion;
                match a {
                    crate::workflow::WorkflowAssertion::PortConnected => if !state.connected {
                        r matches Err(WorkflowError::Assertion(m)) && m@ == "port is disconnected"@
                    } else if old(self).evidence@.len() >= old(self).limits.max_evidence_items {
                        r == Err::<(), WorkflowError>(WorkflowError::EvidenceLimit)
                    } else {
                        r is Ok && step_recorded(*old(self), *final(self), None)
                    },
                    crate::workflow::WorkflowAssertion::ConnectionEpoch { equals } => if state.connection_epoch != equals {
                        r matches Err(WorkflowError::Assertion(m)) && m@ == "expected epoch "@ + crate::text::decimal(equals as nat)
                            + ", got "@ + crate::text::decimal(state.connection_epoch as nat)
                    } else if old(self).evidence@.len() >= old(self).limits.max_evidence_items {
                        r == Err::<(), WorkflowError>(WorkflowError::EvidenceLimit)
                    } else {
                        r is Ok && step_recorded(*old(self), *final(self), None)
                    },
                }
            }),
    {
        let i = self.current;
        let checked = match &self.steps[i] {
            WorkflowStep::Assert { assertion } => check_assertion(assertion, state),
            _ => Ok(()),
        };
        match checked {
            Err(e) => Err(e),
            Ok(()) => self.complete_step(None),
        }
    }

    /// The wait step's sleep ended, `cancelled` if the run was cancelled
    /// meanwhile, with `elapsed_ns` of the run's budget spent: the run stops
    /// if cancelled or out of time, and otherwise the step is recorded.
    pub fn slept(&mut self, cancelled: bool, elapsed_ns: u128) -> (r: Result<(), WorkflowError>)
        requires
            old(self).wf(),
            old(self).phase is Acting,
            old(self).steps@[old(self).current as int] is Wait,
        ensures
            final(self).wf(),
            final(self).auth == old(self).auth,
            final(self).cursor == old(self).cursor,
            final(self).captured == old(self).captured,
            cancelled ==> r == Err::<(), WorkflowError>(WorkflowError::Cancelled),
            !cancelled && elapsed_ns > old(self).limits.max_duration_ms as int * 1_000_000 ==> r == Err::<(), WorkflowError>(
                WorkflowError::Timeout,
            ),
            !cancelled && elapsed_ns <= old(self).limits.max_duration_ms as int * 1_000_000 ==> {
                &&& old(self).evidence@.len() >= old(self).limits.max_evidence_items ==> r == Err::<(), WorkflowError>(
                    WorkflowError::EvidenceLimit,
                )
                &&& old(self).evidence@.len() < old(self).limits.max_evidence_items ==> r is Ok && step_recorded(
                    *old(self),
                    *final(self),
                    None,
                )
            },
    {
        match check_cancel(cancelled, elapsed_ns, self.limits.max_duration_ms) {
            Err(e) => Err(e),
            Ok(()) => self.complete_step(None),
        }
    }
}

/// What one canonical event does to an expectation of pattern `p` that has
/// seen `seen`, with the cursor at `c`: `Some(Ok(true))` the pattern
/// completed, `Some(Ok(false))` keep waiting, `Some(Err(e))` the run fails
/// with `e`. `None` stands for RX bytes that do not decode, which fail the
/// run with a runtime error.
pub open spec fn event_effect(c: EvidenceCursor, p: Seq<u8>, seen: Seq<u8>, e: EventEnvelope) -> Option<Result<bool, WorkflowError>> {
    match cursor_fault(c, e) {
        Some(f) => Some(Err(f)),
        None => match e.event {
            EventPayload::Rx(b) => match payload_bytes(b) {
                None => None,
                Some(data) => Some(
                    Ok(exists|m: int| 1 <= m <= data.len() && ends_with_prefix(p, seen + data.take(m), p.len() as int)),
                ),
            },
            EventPayload::Connection(conn) => if !(conn.state is Connected) {
                Some(Err(WorkflowError::Disconnected))
            } else if e.connection_epoch != c.connection_epoch {
                Some(Err(WorkflowError::EpochChanged { expected: c.connection_epoch, actual: e.connection_epoch }))
            } else {
                Some(Ok(false))
            },
            EventPayload::Gap(g) => if g.scope != GapScope::ClientDelivery {
                Some(Err(WorkflowError::RxGap(g.reason)))
            } else {
                Some(Ok(false))
            },
            _ => Some(Ok(false)),
        },
    }
}

/// `n` held at `usize::MAX`.
pub open spec fn sat(n: int) -> int {
    if n > usize::MAX {
        usize::MAX as int
    } else {
        n
    }
}

/// Why waiting for the event stream failed.
pub fn receive_failure(lagged: bool) -> (e: WorkflowError)
    ensures
        lagged ==> (e matches WorkflowError::CursorUnavailable(m) && m@ == "live event subscriber lagged"@),
        !lagged ==> (e matches WorkflowError::CursorUnavailable(m) && m@ == "live event stream closed"@),
{
    if lagged {
        WorkflowError::CursorUnavailable(owned("live event subscriber lagged"))
    } else {
        WorkflowError::CursorUnavailable(owned("live event stream closed"))
    }
}

impl WorkflowRun {
    /// Before waiting for the next event, after `waited_ns` of waiting: the
    /// run stops if cancelled or out of time, the expectation fails once
    /// its timeout has passed, and otherwise the time it may still wait, in
    /// nanoseconds, is returned.
    pub fn expect_wait(&self, cancelled: bool, elapsed_ns: u128, waited_ns: u128) -> (r: Result<u128, WorkflowError>)
        requires
            self.phase is Expecting,
        ensures
            cancelled ==> r == Err::<u128, WorkflowError>(WorkflowError::Cancelled),
            !cancelled && elapsed_ns > self.limits.max_duration_ms as int * 1_000_000 ==> r == Err::<u128, WorkflowError>(
                WorkflowError::Timeout,
            ),
            !cancelled && elapsed_ns <= self.limits.max_duration_ms as int * 1_000_000 ==> ({
                let budget = self.phase->timeout_ms as int * 1_000_000;
                if waited_ns >= budget {
                    r == Err::<u128, WorkflowError>(WorkflowError::ExpectTimeout)
                } else {
                    r == Ok::<u128, WorkflowError>((budget - waited_ns) as u128)
                }
            }),
    {
        match check_cancel(cancelled, elapsed_ns, self.limits.max_duration_ms) {
            Err(e) => {
                return Err(e);
            },
            Ok(()) => {},
        }
        let timeout_ms = match &self.phase {
            RunPhase::Expecting { timeout_ms, .. } => *timeout_ms,
            _ => 0,
        };
        let budget = (timeout_ms as u128) * 1_000_000;
        if waited_ns >= budget {
            return Err(WorkflowError::ExpectTimeout);
        }
        Ok(budget - waited_ns)
    }

    /// Apply the next canonical event to the expectation, with the port in
    /// state `port` once it was applied. The event must continue the
    /// evidence cursor; RX bytes are matched (across events) until the
    /// pattern completes; a disconnect, a new connection epoch, or an RX
    /// gap other than a client's delivery gap fails the run. While the
    /// pattern is pending the port must stay connected on the cursor's
    /// epoch. A completed pattern is kept as base64 evidence when the step
    /// captures it, within the run's capture budget, and the step is
    /// recorded. Returns whether the step completed.
    pub fn expect_event(&mut self, event: &EventEnvelope, port: WorkflowPortState) -> (r: Result<bool, WorkflowError>)
        requires
            old(self).wf(),
            old(self).phase is Expecting,
        ensures
            final(self).wf(),
            final(self).auth == old(self).auth,
            r is Ok ==> final(self).cursor.seq == (if event.seq <= old(self).cursor.seq {
                old(self).cursor.seq
            } else {
                event.seq
            }),
            ({
                let m = old(self).phase->matcher;
                let p = m.pattern_bytes();
                match event_effect(old(self).cursor, p, m.seen(), *event) {
                    None => r matches Err(WorkflowError::Runtime(_)),
                    Some(Err(e)) => r == Err::<bool, WorkflowError>(e),
                    Some(Ok(false)) => if !port.connected {
                        r == Err::<bool, WorkflowError>(WorkflowError::Disconnected)
                    } else if port.connection_epoch != old(self).cursor.connection_epoch {
                        r == Err::<bool, WorkflowError>(
                            WorkflowError::EpochChanged { expected: old(self).cursor.connection_epoch, actual: port.connection_epoch },
                        )
                    } else {
                        &&& r == Ok::<bool, WorkflowError>(false)
                        &&& final(self).phase is Expecting
                        &&& final(self).current == old(self).current
                        &&& final(self).evidence == old(self).evidence
                        &&& final(self).captured == old(self).captured
                    },
                    Some(Ok(true)) => {
                        let cap = old(self).phase->capture;
                        let t = sat(old(self).captured + p.len());
                        if cap && t > old(self).limits.max_capture_bytes {
                            r == Err::<bool, WorkflowError>(
                                WorkflowError::BytesLimit { size: t as usize, max: old(self).limits.max_capture_bytes },
                            )
                        } else if old(self).evidence@.len() >= old(self).limits.max_evidence_items {
                            r == Err::<bool, WorkflowError>(WorkflowError::EvidenceLimit)
                        } else {
                            &&& r == Ok::<bool, WorkflowError>(true)
                            &&& step_recorded(
                                *old(self),
                                *final(self),
                                if cap {
                                    Some(base64_encode(p))
                                } else {
                                    None
                                },
                            )
                            &&& final(self).captured == (if cap {
                                t
                            } else {
                                old(self).captured as int
                            })
                        }
                    },
                }
            }),
    {
        let mut phase = RunPhase::Acting;
        std::mem::swap(&mut phase, &mut self.phase);
        let ghost mid = *self;
        match phase {
            RunPhase::Expecting { mut matcher, timeout_ms, capture } => {
                let ghost m0 = matcher;
                let ghost c0 = self.cursor;
                proof {
                    assert(step_fault(mid.steps@[mid.current as int], mid.limits) is None);
                    assert(m0.pattern_bytes().len() <= isize::MAX);
                }
                let progress = crate::workflow::expect_event(&mut self.cursor, &mut matcher, event);
                proof {
                    assert(c0 == old(self).cursor);
                }
                match progress {
                    Err(e) => {
                        self.phase = RunPhase::Expecting { matcher, timeout_ms, capture };
                        Err(e)
                    },
                    Ok(ExpectProgress::Pending) => {
                        let checked = check_port(port, &self.cursor);
                        self.phase = RunPhase::Expecting { matcher, timeout_ms, capture };
                        match checked {
                            Err(e) => Err(e),
                            Ok(()) => Ok(false),
                        }
                    },
                    Ok(ExpectProgress::Found) => {
                        let text = if capture {
                            match add_capture(self.captured, matcher.pattern().len(), self.limits.max_capture_bytes) {
                                Err(e) => {
                                    self.phase = RunPhase::Expecting { matcher, timeout_ms, capture };
                                    return Err(e);
                                },
                                Ok(t) => {
                                    self.captured = t;
                                    Some(capture_text(matcher.pattern()))
                                },
                            }
                        } else {
                            None
                        };
                        self.phase = RunPhase::Expecting { matcher, timeout_ms, capture };
                        match self.complete_step(text) {
                            Err(e) => Err(e),
                            Ok(()) => Ok(true),
                        }
                    },
                }
            },
            _ => {
                proof {
                    assert(false);
                }
                Ok(false)
            },
        }
    }
}

/// A run that completed every step holds one piece of evidence per step,
/// in step order, each naming its step's operation; no step's span starts
/// before an earlier one's ends, all of it lies at or before the cursor the
/// result reports, and the evidence stays within the run's limit.
pub proof fn law_completed_run_evidence(run: WorkflowRun)
    requires
        run.wf(),
        run.done(),
    ensures
        run.evidence@.len() == run.steps@.len(),
        run.evidence@.len() <= run.limits.max_evidence_items,
        forall|i: int| 0 <= i < run.evidence@.len() ==> {
            &&& (#[trigger] run.evidence@[i]).step == i
            &&& run.evidence@[i].op@ == op_name(run.steps@[i])
            &&& run.evidence@[i].start_seq.unwrap() <= run.evidence@[i].end_seq.unwrap() <= run.cursor.seq
        },
        forall|i: int, j: int|
            0 <= i < j < run.evidence@.len() ==> (#[trigger] run.evidence@[i]).end_seq.unwrap() <= (
            #[trigger] run.evidence@[j]).start_seq.unwrap(),
{
    assert forall|i: int| 0 <= i < run.evidence@.len() implies {
        &&& (#[trigger] run.evidence@[i]).step == i
        &&& run.evidence@[i].op@ == op_name(run.steps@[i])
        &&& run.evidence@[i].start_seq.unwrap() <= run.evidence@[i].end_seq.unwrap() <= run.cursor.seq
    } by {
        assert(recorded(run.evidence@[i], i, run.steps@[i], run.cursor.seq));
    }
}

/// Runs workflows under fixed limits, each request id at most once to
/// success.
pub struct WorkflowRunner {
    pub limits: WorkflowLimits,
    pub registry: RunRegistry,
}

impl WorkflowRunner {
    /// Valid limits and a registry without duplicates.
    pub open spec fn wf(&self) -> bool {
        limits_ok(self.limits) && registry_ok(self.registry@)
    }

    /// A runner with no runs; the limits must all be positive.
    pub fn new(limits: WorkflowLimits) -> (r: Result<WorkflowRunner, WorkflowError>)
        ensures
            !limits_ok(limits) ==> r == Err::<WorkflowRunner, WorkflowError>(WorkflowError::InvalidLimits),
            limits_ok(limits) ==> (r matches Ok(w) && {
                &&& w.wf()
                &&& w.limits == limits
                &&& w.registry@.completed.len() == 0
                &&& w.registry@.active.len() == 0
            }),
    {
        match limits.validate() {
            Err(e) => Err(e),
            Ok(()) => Ok(WorkflowRunner { limits, registry: RunRegistry::new() }),
        }
    }

    /// The limits every run is held to.
    pub fn limits(&self) -> (l: &WorkflowLimits)
        ensures
            *l == self.limits,
    {
        &self.limits
    }

    /// Admit a run of `definition` for `request_id`. The id must be valid
    /// and the definition must pass validation; then a request that already
    /// succeeded is answered with its recorded result, one still running is
    /// refused, and a new one starts.
    pub fn admit_request(&mut self, request_id: &str, definition: &WorkflowDefinition) -> (r: Result<RunAdmission, WorkflowError>)
        requires
            old(self).wf(),
        ensures
            final(self).wf(),
            final(self).limits == old(self).limits,
            !request_id_ok(request_id@) ==> r == Err::<RunAdmission, WorkflowError>(WorkflowError::InvalidRequestId)
                && final(self).registry@ == old(self).registry@,
            request_id_ok(request_id@) ==> match definition_fault(*definition, old(self).limits) {
                Some(f) => r matches Err(e) && reports(e, f) && final(self).registry@ == old(self).registry@,
                None => (r, final(self).registry@) == admit_spec(old(self).registry@, request_id@),
            },
    {
        match validate_request_id(request_id) {
            Err(e) => {
                return Err(e);
            },
            Ok(()) => {},
        }
        match definition.validate(&self.limits) {
            Err(e) => {
                return Err(e);
            },
            Ok(()) => {},
        }
        self.registry.admit_run(request_id)
    }

    /// The recorded result of the `i`th completed request.
    pub fn replayed(&self, i: usize) -> (r: &WorkflowResult)
        requires
            i < self.registry@.completed.len(),
        ensures
            *r == self.registry@.completed[i as int].1,
    {
        self.registry.completed_result(i)
    }

    /// The run of `request_id` ended, with its result if it succeeded.
    pub fn finish(&mut self, request_id: &str, result: Option<WorkflowResult>)
        requires
            old(self).wf(),
        ensures
            final(self).wf(),
            final(self).limits == old(self).limits,
            final(self).registry@ == finish_spec(old(self).registry@, request_id@, result),
    {
        self.registry.finish_run(request_id, result);
    }
}

} // verus!
