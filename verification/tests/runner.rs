use ohmyserial::runner::{receive_failure, RunAction, WorkflowRun, WorkflowRunner};
use ohmyserial::schema::{EventEnvelope, EventPayload, GapCertainty, GapPayload, GapScope};
use ohmyserial::workflow::{
    ByteValue, EvidenceCursor, LeaseReceipt, RunAdmission, WorkflowAssertion,
    WorkflowAuthorization, WorkflowDefinition, WorkflowError, WorkflowLimits, WorkflowPortState,
    WorkflowStep,
};

const SESSION: u128 = 0x1234;

fn auth() -> WorkflowAuthorization {
    WorkflowAuthorization {
        can_read: true,
        can_write: true,
        can_control: true,
        lease_token: None,
    }
}

fn cursor(seq: u64) -> EvidenceCursor {
    EvidenceCursor {
        session_id: SESSION,
        port_id: "default".into(),
        connection_epoch: 1,
        seq,
        byte_offset: 0,
    }
}

fn up() -> WorkflowPortState {
    WorkflowPortState {
        connected: true,
        connection_epoch: 1,
    }
}

fn event(seq: u64, payload: EventPayload) -> EventEnvelope {
    EventEnvelope::new(SESSION, seq, "2024-01-01T00:00:00Z".into(), seq, 1, payload)
}

fn expect_ok(timeout_ms: u64, capture: Option<&str>) -> WorkflowStep {
    WorkflowStep::Expect {
        pattern: ByteValue::Text { text: "OK".into() },
        timeout_ms: Some(timeout_ms),
        capture: capture.map(|c| c.to_string()),
    }
}

fn definition(id: &str, steps: Vec<WorkflowStep>) -> WorkflowDefinition {
    WorkflowDefinition {
        id: id.into(),
        name: None,
        steps,
    }
}

fn start(steps: Vec<WorkflowStep>, auth: WorkflowAuthorization) -> WorkflowRun {
    WorkflowRun::start(
        "request-1",
        7,
        definition("probe", steps),
        WorkflowLimits::default(),
        auth,
        cursor(0),
        up(),
    )
    .unwrap()
}

#[test]
fn runner_matches_rx_across_chunks_and_generates_server_actor() {
    let mut run = start(
        vec![
            WorkflowStep::Lease,
            WorkflowStep::Send {
                bytes: ByteValue::Hex { hex: "41".into() },
            },
            expect_ok(500, Some("reply")),
        ],
        auth(),
    );
    assert!(matches!(run.next_action(false, 0), Ok(RunAction::Lease)));
    run.lease_granted(LeaseReceipt {
        expires_ms: 10_000,
        lease_token: Some("opaque-test-token".into()),
    })
    .unwrap();
    assert_eq!(run.auth.lease_token.as_deref(), Some("opaque-test-token"));
    match run.next_action(false, 1_000) {
        Ok(RunAction::Send { data }) => assert_eq!(data, vec![0x41]),
        _ => panic!("expected a send"),
    }
    run.action_confirmed().unwrap();
    assert!(matches!(
        run.next_action(false, 2_000),
        Ok(RunAction::Expect { timeout_ms: 500 })
    ));
    assert_eq!(run.expect_wait(false, 2_000, 0).unwrap(), 500_000_000);
    // The confirmed write shows up in the stream before the reply.
    assert!(!run
        .expect_event(&event(1, EventPayload::tx("runtime", b"A")), up())
        .unwrap());
    assert!(!run
        .expect_event(&event(2, EventPayload::rx(b"O")), up())
        .unwrap());
    assert!(run
        .expect_event(&event(3, EventPayload::rx(b"K")), up())
        .unwrap());
    assert!(run.is_done());
    let result = run.into_result();
    assert_eq!(result.status, "succeeded");
    assert!(result.actor.starts_with("workflow:"));
    assert_eq!(result.actor, "workflow:00000000-0000-0000-0000-000000000007");
    assert_eq!(result.evidence.len(), 3);
    let ops: Vec<&str> = result.evidence.iter().map(|e| e.op.as_str()).collect();
    assert_eq!(ops, ["lease", "send", "expect"]);
    assert_eq!(result.evidence[2].start_seq, Some(0));
    assert_eq!(result.evidence[2].end_seq, Some(3));
    assert_eq!(result.evidence[2].capture_base64.as_deref(), Some("T0s="));
    assert_eq!(result.cursor.seq, 3);
}

#[test]
fn client_delivery_gap_is_ignored_but_rx_gap_fails() {
    let gap = |scope: GapScope, reason: &str| {
        EventPayload::Gap(GapPayload {
            scope,
            certainty: GapCertainty::NotDelivered,
            reason: reason.into(),
            bytes: None,
            actor: None,
            client_ids: vec!["client".into()],
        })
    };
    let mut run = start(vec![expect_ok(500, None)], auth());
    assert!(matches!(run.next_action(false, 0), Ok(RunAction::Expect { .. })));
    assert!(!run
        .expect_event(&event(1, gap(GapScope::ClientDelivery, "slow client")), up())
        .unwrap());
    assert!(run.expect_event(&event(2, EventPayload::rx(b"OK")), up()).unwrap());
    assert_eq!(run.evidence[0].capture_base64, None);

    let mut run = start(vec![expect_ok(500, None)], auth());
    run.next_action(false, 0).unwrap();
    assert_eq!(
        run.expect_event(&event(1, gap(GapScope::RxObservation, "driver read error")), up()),
        Err(WorkflowError::RxGap("driver read error".into()))
    );
}

#[test]
fn capability_cancellation_and_request_id_are_fail_closed() {
    let send = vec![WorkflowStep::Send {
        bytes: ByteValue::Text { text: "x".into() },
    }];
    let mut read_only = auth();
    read_only.can_write = false;
    let mut run = start(send.clone(), read_only);
    assert!(matches!(
        run.next_action(false, 0),
        Err(WorkflowError::WriteDenied)
    ));
    // Writing needs a lease even with write capability.
    let mut run = start(send, auth());
    assert!(matches!(
        run.next_action(false, 0),
        Err(WorkflowError::WriteDenied)
    ));

    let mut run = start(vec![expect_ok(10_000, None)], auth());
    run.next_action(false, 0).unwrap();
    assert_eq!(run.expect_wait(true, 10_000_000, 10_000_000), Err(WorkflowError::Cancelled));

    let mut runner = WorkflowRunner::new(WorkflowLimits::default()).unwrap();
    let success = definition(
        "success",
        vec![WorkflowStep::Assert {
            assertion: WorkflowAssertion::PortConnected,
        }],
    );
    assert_eq!(
        runner.admit_request("  ", &success),
        Err(WorkflowError::InvalidRequestId)
    );
    assert_eq!(
        runner.admit_request("same-request", &success),
        Ok(RunAdmission::Start)
    );
    assert_eq!(
        runner.admit_request("same-request", &success),
        Err(WorkflowError::RequestInProgress)
    );
    let mut run = WorkflowRun::start(
        "same-request",
        9,
        success.clone(),
        *runner.limits(),
        auth(),
        cursor(4),
        up(),
    )
    .unwrap();
    assert!(matches!(run.next_action(false, 0), Ok(RunAction::Assert)));
    run.port_reported(up()).unwrap();
    let first = run.into_result();
    runner.finish("same-request", Some(first.clone()));
    match runner.admit_request("same-request", &success) {
        Ok(RunAdmission::Replay(i)) => assert_eq!(*runner.replayed(i), first),
        other => panic!("expected a replay, got {other:?}"),
    }
}

#[test]
fn a_run_starts_only_on_the_cursor_connection() {
    let moved = WorkflowPortState {
        connected: true,
        connection_epoch: 2,
    };
    let r = WorkflowRun::start(
        "r",
        1,
        definition("probe", vec![WorkflowStep::Lease]),
        WorkflowLimits::default(),
        auth(),
        cursor(0),
        moved,
    );
    assert!(matches!(
        r,
        Err(WorkflowError::EpochChanged {
            expected: 1,
            actual: 2
        })
    ));
    let invalid = WorkflowRun::start(
        "r",
        1,
        definition("probe", vec![]),
        WorkflowLimits::default(),
        auth(),
        cursor(0),
        up(),
    );
    assert!(matches!(invalid, Err(WorkflowError::StepLimit { count: 0, .. })));
}

#[test]
fn a_run_stops_on_cancellation_or_budget() {
    let mut run = start(vec![WorkflowStep::Lease], auth());
    assert!(matches!(run.next_action(true, 0), Err(WorkflowError::Cancelled)));
    assert!(matches!(
        run.next_action(false, 30_000_000_001),
        Err(WorkflowError::Timeout)
    ));
    assert!(matches!(run.next_action(false, 30_000_000_000), Ok(RunAction::Lease)));
}

#[test]
fn wait_steps_sleep_within_the_budget() {
    let mut run = start(vec![WorkflowStep::Wait { duration_ms: 100 }], auth());
    match run.next_action(false, 29_950_000_000) {
        Ok(RunAction::Sleep { ns }) => assert_eq!(ns, 50_000_000),
        _ => panic!("expected a sleep"),
    }
    assert_eq!(run.slept(false, 30_000_000_001), Err(WorkflowError::Timeout));

    let mut run = start(vec![WorkflowStep::Wait { duration_ms: 100 }], auth());
    match run.next_action(false, 0) {
        Ok(RunAction::Sleep { ns }) => assert_eq!(ns, 100_000_000),
        _ => panic!("expected a sleep"),
    }
    assert_eq!(run.slept(false, 100_000_000), Ok(()));
    assert!(run.is_done());
    assert_eq!(run.evidence[0].op, "wait");
}

#[test]
fn control_steps_carry_their_name_and_need_a_lease() {
    let steps = vec![
        WorkflowStep::Lease,
        WorkflowStep::Control {
            name: "dtr".into(),
            value: Some("on".into()),
        },
    ];
    let mut no_control = auth();
    no_control.can_control = false;
    let mut run = start(steps.clone(), no_control);
    run.next_action(false, 0).unwrap();
    run.lease_granted(LeaseReceipt {
        expires_ms: 1,
        lease_token: Some("t".into()),
    })
    .unwrap();
    assert!(matches!(
        run.next_action(false, 0),
        Err(WorkflowError::ControlDenied)
    ));

    let mut run = start(steps, auth());
    run.next_action(false, 0).unwrap();
    run.lease_granted(LeaseReceipt {
        expires_ms: 1,
        lease_token: Some("t".into()),
    })
    .unwrap();
    match run.next_action(false, 0) {
        Ok(RunAction::Control { name, value }) => {
            assert_eq!(name, "dtr");
            assert_eq!(value.as_deref(), Some("on"));
        }
        _ => panic!("expected a control"),
    }
    run.action_confirmed().unwrap();
    assert!(run.is_done());
}

#[test]
fn assertions_fail_with_their_message() {
    let mut run = start(
        vec![WorkflowStep::Assert {
            assertion: WorkflowAssertion::ConnectionEpoch { equals: 3 },
        }],
        auth(),
    );
    run.next_action(false, 0).unwrap();
    assert_eq!(
        run.port_reported(up()),
        Err(WorkflowError::Assertion("expected epoch 3, got 1".into()))
    );
}

#[test]
fn expectations_fail_closed_on_broken_evidence() {
    let mut run = start(vec![expect_ok(500, None)], auth());
    run.next_action(false, 0).unwrap();
    assert_eq!(
        run.expect_event(&event(2, EventPayload::rx(b"OK")), up()),
        Err(WorkflowError::EvidenceGap {
            expected: 1,
            actual: 2
        })
    );

    let mut run = start(vec![expect_ok(500, None)], auth());
    run.next_action(false, 0).unwrap();
    let down = WorkflowPortState {
        connected: false,
        connection_epoch: 1,
    };
    assert_eq!(
        run.expect_event(&event(1, EventPayload::rx(b"O")), down),
        Err(WorkflowError::Disconnected)
    );

    let mut run = start(vec![expect_ok(500, None)], auth());
    run.next_action(false, 0).unwrap();
    assert_eq!(run.expect_wait(false, 0, 499_999_999), Ok(1));
    assert_eq!(
        run.expect_wait(false, 0, 500_000_000),
        Err(WorkflowError::ExpectTimeout)
    );
}

#[test]
fn captures_are_held_to_the_budget() {
    let limits = WorkflowLimits {
        max_capture_bytes: 3,
        ..WorkflowLimits::default()
    };
    let steps = vec![expect_ok(500, Some("a")), expect_ok(500, Some("b"))];
    let mut run = WorkflowRun::start(
        "r",
        1,
        definition("probe", steps),
        limits,
        auth(),
        cursor(0),
        up(),
    )
    .unwrap();
    run.next_action(false, 0).unwrap();
    assert!(run.expect_event(&event(1, EventPayload::rx(b"OK")), up()).unwrap());
    assert_eq!(run.captured, 2);
    run.next_action(false, 0).unwrap();
    assert_eq!(
        run.expect_event(&event(2, EventPayload::rx(b"OK")), up()),
        Err(WorkflowError::BytesLimit { size: 4, max: 3 })
    );
}

#[test]
fn stream_failures_name_their_cause() {
    assert_eq!(
        receive_failure(true),
        WorkflowError::CursorUnavailable("live event subscriber lagged".into())
    );
    assert_eq!(
        receive_failure(false),
        WorkflowError::CursorUnavailable("live event stream closed".into())
    );
}
