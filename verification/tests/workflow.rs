use ohmyserial::workflow::{
    check_start_epoch, record_evidence, run_result, workflow_actor, EvidenceCursor, RunAdmission,
    RunRegistry, StepEvidence,
    add_capture, authorize_step, check_cancel, decode_hex, evidence_room, prefix_table,
    validate_request_id, wait_budget_ns, ByteValue, Matcher, WorkflowAuthorization,
    WorkflowAssertion, WorkflowDefinition, WorkflowError, WorkflowLimits, WorkflowStep,
};

#[test]
fn byte_values_are_explicit_and_bounded() {
    assert_eq!(ByteValue::Text { text: "AT".into() }.decode().unwrap(), b"AT");
    assert_eq!(ByteValue::Hex { hex: "00 ff".into() }.decode().unwrap(), [0, 255]);
    assert_eq!(ByteValue::Base64 { base64: "AP8=".into() }.decode().unwrap(), [0, 255]);
}

#[test]
fn definitions_reject_scripting_shapes_and_overlong_patterns() {
    let limits = WorkflowLimits {
        max_pattern_bytes: 2,
        ..WorkflowLimits::default()
    };
    let definition = WorkflowDefinition {
        id: "probe".into(),
        name: None,
        steps: vec![WorkflowStep::Expect {
            pattern: ByteValue::Text { text: "abc".into() },
            timeout_ms: None,
            capture: None,
        }],
    };
    assert!(matches!(
        definition.validate(&limits),
        Err(WorkflowError::PatternLimit { .. })
    ));
}

#[test]
fn kmp_prefix_table_handles_overlap() {
    assert_eq!(prefix_table(b"abab"), vec![0, 0, 1, 2]);
}

#[test]
fn prefix_table_of_repeats_and_distinct_bytes() {
    assert_eq!(prefix_table(b"aaaa"), vec![0, 1, 2, 3]);
    assert_eq!(prefix_table(b"abcd"), vec![0, 0, 0, 0]);
    assert_eq!(prefix_table(b"aabaaab"), vec![0, 1, 0, 1, 2, 2, 3]);
}

#[test]
fn matcher_finds_a_pattern_split_across_chunks() {
    let mut m = Matcher::new(b"OK\r\n".to_vec());
    assert!(!m.feed_all(b"xxO"));
    assert!(!m.feed_all(b"K\r"));
    assert!(m.feed_all(b"\n"));
}

#[test]
fn matcher_handles_overlapping_prefixes() {
    let mut m = Matcher::new(b"aab".to_vec());
    assert!(m.feed_all(b"aaab"));
}

#[test]
fn malformed_hex_is_rejected() {
    assert!(matches!(decode_hex("0"), Err(WorkflowError::InvalidBytes(_))));
    assert!(matches!(decode_hex("zz"), Err(WorkflowError::InvalidBytes(_))));
    assert_eq!(decode_hex("0A0b").unwrap(), vec![10, 11]);
}

#[test]
fn steps_require_their_capabilities() {
    let none = WorkflowAuthorization { can_read: false, can_write: false, can_control: false, lease_token: None };
    let send = WorkflowStep::Send { bytes: ByteValue::Text { text: "x".into() } };
    assert_eq!(authorize_step(&send, &none), Err(WorkflowError::WriteDenied));
    let expect = WorkflowStep::Expect { pattern: ByteValue::Text { text: "x".into() }, timeout_ms: None, capture: None };
    assert_eq!(authorize_step(&expect, &none), Err(WorkflowError::ReadDenied));
    let writer = WorkflowAuthorization { can_read: true, can_write: true, can_control: false, lease_token: None };
    assert_eq!(authorize_step(&send, &writer), Err(WorkflowError::WriteDenied));
    assert_eq!(authorize_step(&WorkflowStep::Lease, &writer), Ok(()));
    let leased = WorkflowAuthorization { lease_token: Some("t".into()), ..writer };
    assert_eq!(authorize_step(&send, &leased), Ok(()));
}

#[test]
fn runs_are_bounded_in_time_captures_and_evidence() {
    assert_eq!(check_cancel(true, 0, 10), Err(WorkflowError::Cancelled));
    assert_eq!(check_cancel(false, 10_000_001, 10), Err(WorkflowError::Timeout));
    assert_eq!(check_cancel(false, 10_000_000, 10), Ok(()));
    assert_eq!(wait_budget_ns(5, 0, 10), 5_000_000);
    assert_eq!(wait_budget_ns(50, 4_000_000, 10), 6_000_000);
    assert_eq!(wait_budget_ns(50, 20_000_000, 10), 0);
    assert_eq!(add_capture(3, 4, 8), Ok(7));
    assert_eq!(add_capture(3, 6, 8), Err(WorkflowError::BytesLimit { size: 9, max: 8 }));
    assert_eq!(evidence_room(2, 2), Err(WorkflowError::EvidenceLimit));
    assert_eq!(evidence_room(1, 2), Ok(()));
}

#[test]
fn request_ids_are_bounded_and_printable() {
    assert_eq!(validate_request_id("run-1"), Ok(()));
    assert_eq!(validate_request_id("  "), Err(WorkflowError::InvalidRequestId));
    assert_eq!(validate_request_id("a\nb"), Err(WorkflowError::InvalidRequestId));
    assert_eq!(validate_request_id(&"x".repeat(129)), Err(WorkflowError::InvalidRequestId));
}

fn cursor() -> EvidenceCursor {
    EvidenceCursor { session_id: 1, port_id: "default".into(), connection_epoch: 1, seq: 4, byte_offset: 0 }
}

#[test]
fn repeated_requests_replay_the_recorded_result() {
    let mut registry = RunRegistry::new();
    assert_eq!(registry.admit_run("r1"), Ok(RunAdmission::Start));
    assert_eq!(registry.admit_run("r1"), Err(WorkflowError::RequestInProgress));
    let actor = workflow_actor(7);
    let result = run_result("r1", 7, actor, cursor(), vec![]);
    registry.finish_run("r1", Some(result.clone()));
    match registry.admit_run("r1").unwrap() {
        RunAdmission::Replay(i) => assert_eq!(registry.completed_result(i), &result),
        RunAdmission::Start => panic!("ran twice"),
    }
    assert_eq!(registry.admit_run("r2"), Ok(RunAdmission::Start));
    registry.finish_run("r2", None);
    assert_eq!(registry.admit_run("r2"), Ok(RunAdmission::Start));
}

#[test]
fn evidence_is_bounded_and_actors_are_generated() {
    let mut evidence: Vec<StepEvidence> = Vec::new();
    record_evidence(&mut evidence, 1, 0, "send", 1, 2, None).unwrap();
    assert_eq!(evidence[0].status, "ok");
    assert_eq!(record_evidence(&mut evidence, 1, 1, "send", 2, 3, None), Err(WorkflowError::EvidenceLimit));
    assert_eq!(workflow_actor(0), "workflow:00000000-0000-0000-0000-000000000000");
    assert_eq!(check_start_epoch(2, 3), Err(WorkflowError::EpochChanged { expected: 2, actual: 3 }));
    assert_eq!(run_result("r", 1, "a".into(), cursor(), vec![]).status, "succeeded");
}

#[test]
fn a_run_request_is_checked_then_answered_once() {
    let limits = WorkflowLimits::default();
    let definition = WorkflowDefinition {
        id: "success".into(),
        name: None,
        steps: vec![WorkflowStep::Assert { assertion: WorkflowAssertion::PortConnected }],
    };
    let mut registry = RunRegistry::new();
    assert_eq!(registry.request_run(" ", &definition, &limits), Err(WorkflowError::InvalidRequestId));
    let empty = WorkflowDefinition { id: "empty".into(), name: None, steps: vec![] };
    assert!(registry.request_run("same-request", &empty, &limits).is_err());
    assert_eq!(registry.request_run("same-request", &definition, &limits), Ok(RunAdmission::Start));
    assert_eq!(
        registry.request_run("same-request", &definition, &limits),
        Err(WorkflowError::RequestInProgress)
    );
    let first = run_result("same-request", 9, workflow_actor(9), cursor(), vec![]);
    registry.finish_run("same-request", Some(first.clone()));
    for _ in 0..2 {
        match registry.request_run("same-request", &definition, &limits).unwrap() {
            RunAdmission::Replay(i) => assert_eq!(registry.completed_result(i), &first),
            RunAdmission::Start => panic!("a succeeded request ran again"),
        }
    }
    assert!(registry.active.is_empty());
}
