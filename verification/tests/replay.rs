use ohmyserial::replay::{replay_report, ReplayError, ReplayMode, ReplaySession};
use ohmyserial::schema::{EventEnvelope, EventPayload};

const SESSION: u128 = 0x1234_5678_9abc_def0_1234_5678_9abc_def0;

fn captured_events() -> Vec<EventEnvelope> {
    let ts = "2024-05-01T12:00:00.000000Z";
    let mut events = vec![
        EventEnvelope::new(SESSION, 1, ts.into(), 0, 3, EventPayload::rx(b"one")),
        EventEnvelope::new(SESSION, 2, ts.into(), 0, 3, EventPayload::tx("fixture", b"two")),
        EventEnvelope::new(SESSION, 3, ts.into(), 0, 4, EventPayload::rx(b"three")),
    ];
    events[0].mono_us = 10;
    events[1].mono_us = 40_010;
    events[2].mono_us = 90_010;
    events
}

#[test]
fn manual_replay_steps_exactly_n_events() {
    let expected = captured_events();
    let session = ReplaySession::from_envelopes(expected.clone()).unwrap();
    let mut cursor = session.manual_cursor();

    assert_eq!(cursor.step(2).unwrap(), expected[..2]);
    assert_eq!(cursor.position(), 2);
    assert_eq!(cursor.remaining(), 1);
    assert_eq!(cursor.step(20).unwrap(), expected[2..]);
    assert!(cursor.step(1).unwrap().is_empty());
    assert!(cursor.is_finished());
    assert!(matches!(
        cursor.delay_before_next_us().unwrap_err(),
        ReplayError::ManualStepRequired
    ));
}

#[test]
fn discontinuous_sequence_is_rejected() {
    let mut events = captured_events();
    events[1].seq += 1;
    let error = ReplaySession::from_envelopes(events).unwrap_err();
    assert!(matches!(
        error,
        ReplayError::SequenceDiscontinuity {
            expected: 2,
            actual: 3
        }
    ));
}

#[test]
fn immediate_replay_preserves_envelope_order() {
    let expected = captured_events();
    let session = ReplaySession::from_envelopes(expected.clone()).unwrap();
    let mut cursor = session.cursor(ReplayMode::Immediate);
    let mut actual = Vec::new();
    while let Some(event) = cursor.next_event().unwrap() {
        actual.push(event);
    }
    assert_eq!(actual, expected);
    assert!(cursor.is_finished());
}

#[test]
fn original_replay_reports_recorded_intervals() {
    let session = ReplaySession::from_envelopes(captured_events()).unwrap();
    let mut cursor = session.cursor(ReplayMode::Original);
    assert_eq!(cursor.delay_before_next_us().unwrap(), Some(0));
    cursor.next_event().unwrap().unwrap();
    assert_eq!(cursor.delay_before_next_us().unwrap(), Some(40_000));
    cursor.next_event().unwrap().unwrap();
    assert_eq!(cursor.delay_before_next_us().unwrap(), Some(50_000));
    cursor.next_event().unwrap().unwrap();
    assert_eq!(cursor.delay_before_next_us().unwrap(), None);
}

#[test]
fn mixed_sessions_clock_regressions_and_empty_captures_are_rejected() {
    assert!(matches!(
        ReplaySession::from_envelopes(vec![]).unwrap_err(),
        ReplayError::EmptySession
    ));
    let mut events = captured_events();
    events[2].session_id = 7;
    assert!(matches!(
        ReplaySession::from_envelopes(events).unwrap_err(),
        ReplayError::MixedSessions { actual: 7, seq: 3, .. }
    ));
    let mut events = captured_events();
    events[2].mono_us = 5;
    assert!(matches!(
        ReplaySession::from_envelopes(events).unwrap_err(),
        ReplayError::MonotonicClockRegression { previous_seq: 2, seq: 3, mono_us: 5, .. }
    ));
    let mut events = captured_events();
    events[0].port_id = "other".into();
    assert!(matches!(
        ReplaySession::from_envelopes(events).unwrap_err(),
        ReplayError::Schema(_)
    ));
}

#[test]
fn modes_parse_by_exact_name() {
    assert_eq!(ReplayMode::parse("manual").unwrap(), ReplayMode::Manual);
    assert_eq!(ReplayMode::parse("original").unwrap().name(), "original");
    assert!(matches!(ReplayMode::parse("Manual"), Err(ReplayError::InvalidMode(_))));
    assert_eq!(ReplayMode::default(), ReplayMode::Immediate);
}

#[test]
fn step_requires_manual_mode_and_report_covers_the_range() {
    let session = ReplaySession::from_envelopes(captured_events()).unwrap();
    let mut cursor = session.cursor(ReplayMode::Immediate);
    assert!(matches!(cursor.step(1), Err(ReplayError::StepRequiresManualMode)));
    let report = replay_report(&session, 3, std::time::Duration::from_millis(1));
    assert_eq!(report.first_seq, Some(1));
    assert_eq!(report.last_seq, Some(3));
    let none = replay_report(&session, 0, std::time::Duration::ZERO);
    assert_eq!(none.first_seq, None);
}
