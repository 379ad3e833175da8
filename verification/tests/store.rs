use ohmyserial::schema::{EventEnvelope, EventPayload};
use ohmyserial::store::{
    complete_lines, hex_digest, parse_segment_name, plan_recovery, segment_file_name,
    single_session, stale_recovery_target, trim_line_ending, verification_report, verify_segment,
    DiskRecord, LedgerReadError, SessionChain, SessionRead, StoreError, StoreOptions, StoreState,
    SEGMENT_SCHEMA, SEGMENT_VERSION,
};
use sha2::{Digest, Sha256};

const SESSION: u128 = 0x0123_4567_89ab_cdef_0123_4567_89ab_cdef;
const TS: &str = "2024-05-01T12:00:00.000000Z";

fn sha_hex(bytes: &[u8]) -> String {
    Sha256::digest(bytes).iter().map(|b| format!("{b:02x}")).collect()
}

fn event(seq: u64) -> EventEnvelope {
    EventEnvelope::new(SESSION, seq, TS.into(), seq * 10, 1, EventPayload::rx(b"data"))
}

fn header(index: u64, previous: Option<&str>) -> DiskRecord {
    DiskRecord::Header {
        schema: SEGMENT_SCHEMA.into(),
        version: SEGMENT_VERSION,
        session_id: SESSION,
        segment_index: index,
        created_at: TS.into(),
        previous_segment_sha256: previous.map(str::to_owned),
    }
}

fn footer(index: u64, seqs: &[u64], content: &[u8], previous: Option<&str>) -> DiskRecord {
    DiskRecord::Footer {
        schema: SEGMENT_SCHEMA.into(),
        version: SEGMENT_VERSION,
        session_id: SESSION,
        segment_index: index,
        event_count: seqs.len() as u64,
        first_seq: seqs.first().copied(),
        last_seq: seqs.last().copied(),
        content_sha256: sha_hex(content),
        previous_segment_sha256: previous.map(str::to_owned),
    }
}

/// A segment's bytes and the records its lines stand for.
fn segment(index: u64, seqs: &[u64], previous: Option<&str>) -> (Vec<u8>, Vec<Result<DiskRecord, String>>) {
    let mut bytes = format!("header {index}\n").into_bytes();
    let mut records = vec![Ok(header(index, previous))];
    for seq in seqs {
        bytes.extend_from_slice(format!("event {seq}\r\n").as_bytes());
        records.push(Ok(DiskRecord::Event { event: event(*seq) }));
    }
    let content = bytes.clone();
    bytes.extend_from_slice(b"footer\n");
    records.push(Ok(footer(index, seqs, &content, previous)));
    (bytes, records)
}

#[test]
fn lines_keep_their_endings_and_drop_an_unterminated_tail() {
    let lines = complete_lines(b"a\r\nb\n\ntail");
    assert_eq!(lines, vec![b"a\r\n".to_vec(), b"b\n".to_vec(), b"\n".to_vec()]);
    assert_eq!(trim_line_ending(b"a\r\n"), b"a");
    assert_eq!(trim_line_ending(b"a\n"), b"a");
    assert_eq!(trim_line_ending(b"a\r"), b"a");
    assert_eq!(trim_line_ending(b"a"), b"a");
}

#[test]
fn digests_are_lower_case_hex() {
    assert_eq!(hex_digest(&[0, 0xab, 0x10]), "00ab10");
    assert_eq!(hex_digest(&[]), "");
}

#[test]
fn segment_names_round_trip() {
    let name = segment_file_name(SESSION, 7, "omslog");
    assert_eq!(
        name,
        "session-01234567-89ab-cdef-0123-456789abcdef-segment-00000000000000000007.omslog"
    );
    assert_eq!(parse_segment_name(&name, SESSION, "omslog"), Some(7));
    assert_eq!(parse_segment_name(&name, SESSION, "open"), None);
    assert_eq!(parse_segment_name(&name, 1, "omslog"), None);
    let max = segment_file_name(SESSION, u64::MAX, "open");
    assert_eq!(parse_segment_name(&max, SESSION, "open"), Some(u64::MAX));
}

#[test]
fn a_sealed_segment_verifies() {
    let (bytes, records) = segment(0, &[1, 2], None);
    let verified = verify_segment("s0", &bytes, records).unwrap();
    assert_eq!(verified.events, vec![event(1), event(2)]);
    assert_eq!(verified.verification.event_count, 2);
    assert_eq!(verified.verification.first_seq, Some(1));
    assert_eq!(verified.verification.last_seq, Some(2));
    assert_eq!(verified.verification.segment_sha256, sha_hex(&bytes));
}

fn detail(error: LedgerReadError) -> String {
    match error {
        LedgerReadError::InvalidSegment { detail, .. } => detail,
        other => panic!("unexpected {other:?}"),
    }
}

#[test]
fn tampering_and_framing_faults_are_detected() {
    let (mut bytes, records) = segment(0, &[1, 2], None);
    bytes[2] ^= 1;
    assert_eq!(detail(verify_segment("s", &bytes, records).unwrap_err()), "footer metadata or content hash mismatch");

    let (mut bytes, _) = segment(0, &[1], None);
    bytes.pop();
    let n = complete_lines(&bytes).len();
    let records = (0..n).map(|_| Err("x".to_string())).collect();
    assert_eq!(
        detail(verify_segment("s", &bytes, records).unwrap_err()),
        "segment is empty or has an incomplete final line"
    );

    let (bytes, mut records) = segment(0, &[1, 3], None);
    records[2] = Ok(DiskRecord::Event { event: event(3) });
    assert_eq!(
        detail(verify_segment("s", &bytes, records).unwrap_err()),
        "event sequence is not contiguous within segment"
    );

    let (bytes, mut records) = segment(0, &[1], None);
    records[1] = Err("expected value".into());
    assert_eq!(
        detail(verify_segment("s", &bytes, records).unwrap_err()),
        "invalid event line 2: expected value"
    );

    let (bytes, mut records) = segment(0, &[1], None);
    records[1] = Ok(header(0, None));
    assert_eq!(detail(verify_segment("s", &bytes, records).unwrap_err()), "non-event record at line 2");
}

#[test]
fn recovery_keeps_the_valid_prefix() {
    let (mut bytes, mut records) = segment(0, &[1, 2], None);
    // Drop the footer and append a torn line.
    let footer_len = b"footer\n".len();
    bytes.truncate(bytes.len() - footer_len);
    records.pop();
    bytes.extend_from_slice(b"event 3\n");
    records.push(Ok(DiskRecord::Event { event: event(4) }));
    bytes.extend_from_slice(b"partial");
    let plan = plan_recovery(&bytes, records, SESSION, 0, None, 1);
    assert_eq!(plan.valid_lines, 3);
    assert_eq!(plan.events, vec![event(1), event(2)]);
    assert_eq!(plan.discarded_tail_bytes, (b"event 3\n".len() + b"partial".len()) as u64);
    let stopped = plan.stopped_at_error.clone().unwrap();
    assert!(stopped.starts_with("line 4: expected seq 3, got session "), "{stopped}");
    assert!(plan.footer.is_some());
}

#[test]
fn recovery_of_a_footer_reports_no_error_and_a_bad_header_keeps_nothing() {
    let (bytes, records) = segment(2, &[5], Some("abc"));
    let plan = plan_recovery(&bytes, records, SESSION, 2, Some("abc"), 5);
    assert_eq!(plan.valid_lines, 2);
    assert_eq!(plan.stopped_at_error, None);
    assert_eq!(plan.discarded_tail_bytes, 0);

    let (bytes, records) = segment(2, &[5], Some("abc"));
    let plan = plan_recovery(&bytes, records, SESSION, 2, None, 5);
    assert_eq!(plan.valid_lines, 0);
    assert_eq!(plan.stopped_at_error.as_deref(), Some("header does not match session/chain"));
    assert!(plan.footer.is_none());

    let plan = plan_recovery(b"", vec![], SESSION, 0, None, 1);
    assert_eq!(plan.stopped_at_error.as_deref(), Some("missing complete valid header line"));
}

#[test]
fn a_session_chain_links_segments_and_numbers_events() {
    let (b0, r0) = segment(0, &[1, 2], None);
    let s0 = verify_segment("s0", &b0, r0).unwrap();
    let h0 = s0.verification.segment_sha256.clone();
    let (b1, r1) = segment(1, &[3], Some(&h0));
    let s1 = verify_segment("s1", &b1, r1).unwrap();

    let mut chain = SessionChain::new(SESSION);
    chain.check_index("s0", 0).unwrap();
    chain.accept("s0", 0, s0).unwrap();
    assert_eq!(
        detail(chain.check_index("s2", 2).unwrap_err()),
        "expected segment index 1, got 2"
    );
    chain.accept("s1", 1, s1).unwrap();
    let read = chain.finish();
    assert_eq!(read.events.len(), 3);
    let report = verification_report(read);
    assert_eq!(report.segment_count, 2);
    assert_eq!(report.event_count, 3);
    assert_eq!(report.last_seq, Some(3));
}

#[test]
fn a_broken_link_or_gap_is_refused() {
    let (b0, r0) = segment(0, &[1], None);
    let s0 = verify_segment("s0", &b0, r0).unwrap();
    let (b1, r1) = segment(1, &[2], Some("not-the-hash"));
    let s1 = verify_segment("s1", &b1, r1).unwrap();
    let mut chain = SessionChain::new(SESSION);
    chain.accept("s0", 0, s0).unwrap();
    assert_eq!(
        detail(chain.accept("s1", 1, s1).unwrap_err()),
        "previous segment hash does not match chain"
    );

    let (b0, r0) = segment(0, &[2], None);
    let s0 = verify_segment("s0", &b0, r0).unwrap();
    let mut chain = SessionChain::new(SESSION);
    assert_eq!(
        detail(chain.accept("s0", 0, s0).unwrap_err()),
        "expected canonical seq 1, got 2"
    );
}

#[test]
fn a_directory_must_hold_one_session() {
    assert!(matches!(single_session("d", &vec![]), Err(LedgerReadError::NoSegments(_))));
    assert!(matches!(single_session("d", &vec![1, 2]), Err(LedgerReadError::MultipleSessions)));
    assert_eq!(single_session("d", &vec![3, 3]).unwrap(), 3);
}

#[test]
fn stale_segments_must_follow_the_sealed_ones() {
    let empty = SessionRead { session_id: SESSION, events: vec![], segments: vec![] };
    assert_eq!(stale_recovery_target(SESSION, &empty, &vec![]).unwrap(), None);
    let (index, previous, seq) = stale_recovery_target(SESSION, &empty, &vec![0]).unwrap().unwrap();
    assert_eq!((index, previous, seq), (0, None, 1));
    match stale_recovery_target(SESSION, &empty, &vec![1]) {
        Err(StoreError::Recovery(m)) => assert_eq!(m, "stale segment index 1 does not follow sealed index 0"),
        other => panic!("unexpected {other:?}"),
    }
    match stale_recovery_target(SESSION, &empty, &vec![0, 1]) {
        Err(StoreError::Recovery(m)) => assert!(m.starts_with("found 2 .open segments"), "{m}"),
        other => panic!("unexpected {other:?}"),
    }
}

#[test]
fn the_writer_rotates_full_segments_and_refuses_out_of_order_events() {
    let options = StoreOptions { segment_max_events: 2, ..StoreOptions::default() };
    let mut st = StoreState::new(SESSION, options, 0, 1, None).unwrap();
    assert!(st.accepts_append(SESSION, 1).is_ok());
    assert!(matches!(st.accepts_append(SESSION, 2), Err(StoreError::Sequence(_))));
    assert!(!st.rotate_before(10));
    st.opened(20);
    assert!(st.appended(1, 10));
    st.flushed();
    assert!(!st.rotate_before(10));
    st.appended(2, 10);
    assert!(st.rotate_before(10));
    let footer = st.footer_record(b"abc");
    match footer {
        DiskRecord::Footer { content_sha256, event_count, first_seq, last_seq, previous_segment_sha256, .. } => {
            assert_eq!(content_sha256, "ba7816bf8f01cfea414140de5dae2223b00361a396177a9cb410ff61f20015ad");
            assert_eq!((event_count, first_seq, last_seq), (2, Some(1), Some(2)));
            assert_eq!(previous_segment_sha256, None);
        }
        other => panic!("unexpected {other:?}"),
    }
    st.segment_sealed(b"");
    assert_eq!(
        st.previous_segment_sha256.as_deref(),
        Some("e3b0c44298fc1c149afbf4c8996fb92427ae41e4649b934ca495991b7852b855")
    );
    assert_eq!(st.next_segment_index, 1);
    assert_eq!(st.expected_next_seq, 3);
    st.mark_sealed();
    assert!(matches!(st.accepts_append(SESSION, 3), Err(StoreError::Sealed)));
    assert_eq!(st.seal_gate().unwrap(), false);
    assert!(StoreState::new(SESSION, StoreOptions { flush_every_events: 0, ..StoreOptions::default() }, 0, 1, None).is_err());
}
