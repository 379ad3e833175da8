use std::collections::VecDeque;

use ohmyserial::ledger::{
    page_from_persisted, EventQuery, Ledger, LedgerError, LedgerOptions, MemoryOptions, PersistenceState, RetainedEvent,
};
use ohmyserial::schema::{BytesPayload, EventEnvelope, EventFilter, EventPayload, EventType, SchemaError};
use ohmyserial::store::StoreOptions;

fn tiny_ledger(max_events: usize) -> Ledger {
    Ledger::memory(MemoryOptions { max_events, max_bytes: 1024 * 1024 }).unwrap()
}

/// Append through both phases, accounting each event at a fixed size.
fn append(ledger: &mut Ledger, epoch: u64, payload: EventPayload) -> Result<EventEnvelope, LedgerError> {
    let event = ledger.prepare_append(epoch, payload, 0)?;
    ledger.commit_append(event, 100, Ok(()))
}

#[test]
fn sequence_and_query_are_session_ordered() {
    let mut ledger = tiny_ledger(10);
    let first = append(&mut ledger, 2, EventPayload::rx(b"one")).unwrap();
    let second = append(&mut ledger, 2, EventPayload::rx(b"two")).unwrap();
    assert_eq!((first.seq, second.seq), (1, 2));
    assert_eq!(first.session_id, second.session_id);
    assert_eq!(first.connection_epoch, 2);

    let page = ledger.query(&EventQuery { after_seq: 1, ..EventQuery::default() });
    assert_eq!(page.events, vec![second]);
    assert!(!page.incomplete);
    assert_eq!(page.next_after_seq, 2);
}

#[test]
fn dual_bounded_ring_exposes_an_incomplete_cursor() {
    let mut ledger = tiny_ledger(2);
    for byte in 0..3u8 {
        append(&mut ledger, 1, EventPayload::rx(&[byte])).unwrap();
    }
    let page = ledger.query(&EventQuery::default());
    assert!(page.incomplete);
    assert_eq!(page.missing_through_seq, Some(1));
    assert_eq!(page.oldest_available_seq, Some(2));
    assert_eq!(page.events.len(), 2);
    assert_eq!(ledger.status().evicted_events, 1);
}

#[test]
fn query_filter_advances_past_nonmatching_events() {
    let mut ledger = tiny_ledger(10);
    append(&mut ledger, 1, EventPayload::rx(b"rx")).unwrap();
    append(&mut ledger, 1, EventPayload::tx("writer", b"tx")).unwrap();
    let page = ledger.query(&EventQuery {
        filter: EventFilter {
            event_types: vec![EventType::Tx],
            connection_epoch: Some(1),
            ..EventFilter::default()
        },
        ..EventQuery::default()
    });
    assert_eq!(page.events.len(), 1);
    assert_eq!(page.next_after_seq, 2);
}

#[test]
fn seal_is_idempotent_and_rejects_new_events() {
    let mut ledger = tiny_ledger(10);
    assert!(!ledger.seal());
    assert!(!ledger.seal());
    assert!(matches!(ledger.prepare_append(0, EventPayload::rx(&[]), 0), Err(LedgerError::Sealed)));
    assert!(ledger.status().sealed);
}

#[test]
fn persistence_failure_records_to_ring_and_stays_degraded() {
    let mut ledger = Ledger::open(
        LedgerOptions { store: Some(StoreOptions::default()), ..LedgerOptions::default() },
        VecDeque::new(),
    )
    .unwrap();
    let first = ledger.prepare_append(1, EventPayload::rx(b"one"), 0).unwrap();
    let first_error = ledger.commit_append(first, 10, Err("injected persistence failure".to_owned())).unwrap_err();
    assert_eq!(first_error.recorded_event().unwrap().seq, 1);
    let second = ledger.prepare_append(1, EventPayload::rx(b"two"), 0).unwrap();
    let second_error = ledger.commit_append(second, 10, Ok(())).unwrap_err();
    assert_eq!(second_error.recorded_event().unwrap().seq, 2);
    assert_eq!(ledger.query(&EventQuery::default()).events.len(), 2);
    assert_eq!(ledger.status().persistence, PersistenceState::Degraded);
}

#[test]
fn byte_bound_evicts_oldest_events_first() {
    let mut ledger = Ledger::memory(MemoryOptions { max_events: 100, max_bytes: 250 }).unwrap();
    for byte in 0..4u8 {
        let event = ledger.prepare_append(0, EventPayload::rx(&[byte]), 0).unwrap();
        ledger.commit_append(event, 100, Ok(())).unwrap();
    }
    let status = ledger.status();
    assert_eq!(status.retained_events, 2);
    assert_eq!(status.retained_bytes, 200);
    assert_eq!(status.evicted_events, 2);
    assert_eq!(status.oldest_available_seq, Some(3));
    assert_eq!(status.newest_seq, 4);
}

#[test]
fn an_event_larger_than_the_byte_bound_empties_the_ring() {
    let mut ledger = Ledger::memory(MemoryOptions { max_events: 100, max_bytes: 50 }).unwrap();
    let event = ledger.prepare_append(0, EventPayload::rx(b"big"), 0).unwrap();
    ledger.commit_append(event, 100, Ok(())).unwrap();
    let status = ledger.status();
    assert_eq!(status.retained_events, 0);
    assert_eq!(status.newest_seq, 1);
    let page = ledger.query(&EventQuery::default());
    assert!(page.incomplete);
    assert_eq!(page.missing_through_seq, Some(1));
}

#[test]
fn query_limit_pages_and_reports_more() {
    let mut ledger = tiny_ledger(10);
    for byte in 0..5u8 {
        append(&mut ledger, 0, EventPayload::rx(&[byte])).unwrap();
    }
    let page = ledger.query(&EventQuery { limit: 2, ..EventQuery::default() });
    assert_eq!(page.events.iter().map(|e| e.seq).collect::<Vec<_>>(), vec![1, 2]);
    assert_eq!(page.next_after_seq, 2);
    assert!(page.has_more);
    let page = ledger.query(&EventQuery { after_seq: 2, through_seq: Some(4), limit: 10, ..EventQuery::default() });
    assert_eq!(page.events.iter().map(|e| e.seq).collect::<Vec<_>>(), vec![3, 4]);
    assert_eq!(page.next_after_seq, 4);
    assert!(!page.has_more);
}

#[test]
fn invalid_options_and_payloads_are_refused() {
    assert!(matches!(
        Ledger::memory(MemoryOptions { max_events: 0, max_bytes: 1 }),
        Err(LedgerError::InvalidOptions(m)) if m == "memory max_events must be greater than zero"
    ));
    assert!(matches!(
        Ledger::open(LedgerOptions { stream_capacity: 0, ..LedgerOptions::default() }, VecDeque::new()),
        Err(LedgerError::InvalidOptions(m)) if m == "stream_capacity must be greater than zero"
    ));
    let ledger = tiny_ledger(4);
    assert!(matches!(
        ledger.prepare_append(0, EventPayload::tx("", b"x"), 0),
        Err(LedgerError::InvalidEvent(SchemaError::Actor))
    ));
}

#[test]
fn reopened_session_continues_after_prior_events() {
    let mut first = tiny_ledger(10);
    let a = append(&mut first, 0, EventPayload::rx(b"a")).unwrap();
    let b = append(&mut first, 0, EventPayload::rx(b"b")).unwrap();
    let prior: VecDeque<RetainedEvent> =
        vec![RetainedEvent { event: a, bytes: 10 }, RetainedEvent { event: b, bytes: 10 }].into();
    let mut reopened = Ledger::open(
        LedgerOptions { session_id: Some(first.session_id()), ..LedgerOptions::default() },
        prior,
    )
    .unwrap();
    let c = append(&mut reopened, 0, EventPayload::rx(b"c")).unwrap();
    assert_eq!(c.seq, 3);
    assert_eq!(c.session_id, first.session_id());
}

#[test]
fn checkpoint_is_refused_when_sealed_or_degraded() {
    let mut ledger = Ledger::open(
        LedgerOptions { store: Some(StoreOptions::default()), ..LedgerOptions::default() },
        VecDeque::new(),
    )
    .unwrap();
    assert!(ledger.begin_checkpoint().unwrap());
    assert!(matches!(
        ledger.finish_checkpoint(Err("disk full".to_owned())),
        Err(LedgerError::CheckpointFailed(m)) if m == "disk full"
    ));
    assert!(matches!(ledger.begin_checkpoint(), Err(LedgerError::CheckpointFailed(m)) if m == "disk full"));
    assert!(ledger.seal());
    assert!(matches!(ledger.begin_checkpoint(), Err(LedgerError::Sealed)));
}

#[test]
fn bytes_are_standard_padded_base64() {
    let payload = BytesPayload::from_bytes(&[0xfb, 0xff]);
    assert_eq!(payload.data_base64, "+/8=");
    assert_eq!(payload.decode().unwrap(), [0xfb, 0xff]);
}

#[test]
fn malformed_bytes_are_rejected() {
    let bad = BytesPayload { data_base64: "-_8".to_owned(), len: 2 };
    assert_eq!(bad.decode().unwrap_err(), SchemaError::Base64);
}

#[test]
fn persisted_pages_are_bounded_by_the_newest_sequence() {
    let ts = "2024-05-01T12:00:00.000000Z";
    let events: Vec<EventEnvelope> = (1..=5)
        .map(|seq| EventEnvelope::new(9, seq, ts.into(), seq, 1, EventPayload::rx(b"x")))
        .collect();
    let page = page_from_persisted(&events, &EventQuery { limit: 2, ..EventQuery::default() }, 4);
    assert_eq!(page.events.iter().map(|e| e.seq).collect::<Vec<_>>(), vec![1, 2]);
    assert_eq!(page.next_after_seq, 2);
    assert!(page.has_more);
    assert!(!page.incomplete);
    let page = page_from_persisted(&events, &EventQuery { after_seq: 2, limit: 10, ..EventQuery::default() }, 4);
    assert_eq!(page.events.iter().map(|e| e.seq).collect::<Vec<_>>(), vec![3, 4]);
    assert!(!page.has_more);
    let zero = page_from_persisted(&events, &EventQuery::default(), 4);
    assert_eq!(zero.events.len(), 1);
    let gap = page_from_persisted(&events[2..].to_vec(), &EventQuery::default(), 5);
    assert!(gap.incomplete);
    assert_eq!(gap.missing_through_seq, Some(2));
    let empty = page_from_persisted(&vec![], &EventQuery::default(), 3);
    assert_eq!(empty.missing_through_seq, Some(3));
}

#[test]
fn status_names_the_configured_store_directory() {
    let mut ledger = Ledger::open(
        LedgerOptions {
            store: Some(StoreOptions { directory: "/var/lib/ohmyserial".into(), ..StoreOptions::default() }),
            ..LedgerOptions::default()
        },
        VecDeque::new(),
    )
    .unwrap();
    assert_eq!(ledger.status().persistence_directory.as_deref(), Some("/var/lib/ohmyserial"));
    assert_eq!(ledger.persistence_directory().as_deref(), Some("/var/lib/ohmyserial"));
    ledger.seal();
    assert_eq!(ledger.status().persistence_directory.as_deref(), Some("/var/lib/ohmyserial"));
    assert_eq!(tiny_ledger(4).status().persistence_directory, None);
}

#[test]
fn a_tx_event_carries_its_bytes_as_standard_base64() {
    let direct = EventPayload::tx("evidence-writer", &[0x00, 0xff]);
    let named = EventPayload::tx_from("evidence-writer", None, &[0x00, 0xff]);
    assert_eq!(direct, named);
    match direct {
        EventPayload::Tx(t) => {
            assert_eq!(t.actor, "evidence-writer");
            assert_eq!(t.client_id, None);
            assert_eq!(t.bytes.data_base64, "AP8=");
            assert_eq!(t.bytes.len, 2);
        }
        other => panic!("expected a TX event, got {other:?}"),
    }
    match EventPayload::rx(b"hi") {
        EventPayload::Rx(b) => assert_eq!((b.data_base64.as_str(), b.len), ("aGk=", 2)),
        other => panic!("expected an RX event, got {other:?}"),
    }
}
