use ohmyserial::config::TxConfig;
use ohmyserial::policy::{
    admit_write, context, AdmitContext, AdmitDecision, FrameAssembler, Policy, SlowClientPolicy,
    TxMode, WriteLock,
};

fn lease(owner: &str, token: &str, now: u64) -> WriteLock {
    WriteLock {
        owner: owner.into(),
        token: token.into(),
        expires_at: now + 1000,
    }
}

#[test]
fn assembler_splits_lines() {
    let mut a = FrameAssembler::default();
    let frames = a.push(b"hi\nthere", b'\n', 64).unwrap();
    assert_eq!(frames, vec![b"hi\n".to_vec()]);
    let frames = a.push(b"\nmore\n", b'\n', 64).unwrap();
    assert_eq!(frames, vec![b"there\n".to_vec(), b"more\n".to_vec()]);
}

#[test]
fn assembler_rejects_and_clears_oversized_partial_frame() {
    let mut a = FrameAssembler::default();
    assert!(a.push(b"1234", b'\n', 4).is_ok());
    assert!(a
        .push(b"5", b'\n', 4)
        .unwrap_err()
        .contains("max_frame_bytes"));
    assert_eq!(a.push(b"ok\n", b'\n', 4).unwrap(), vec![b"ok\n".to_vec()]);
}

#[test]
fn assembler_overflow_message_names_the_limit() {
    let mut a = FrameAssembler::new();
    let err = a.push(b"abcdef", b'\n', 3).unwrap_err();
    assert_eq!(
        err,
        "frame exceeds tx.max_frame_bytes (3); partial frame was discarded"
    );
    assert_eq!(a.take_remainder(), None);
}

#[test]
fn assembler_remainder_is_the_unterminated_tail() {
    let mut a = FrameAssembler::new();
    assert_eq!(a.push(b"one\ntw", b'\n', 64).unwrap(), vec![b"one\n".to_vec()]);
    assert_eq!(a.take_remainder(), Some(b"tw".to_vec()));
    assert_eq!(a.take_remainder(), None);
}

#[test]
fn exclusive_requires_valid_lease_token() {
    let now = 5_000;
    let d = admit_write(context(TxMode::Exclusive, "agent", None, false, None, None, now));
    assert!(matches!(d, AdmitDecision::Deny { .. }));

    let lock = lease("agent", "secret", now);
    let d = admit_write(context(
        TxMode::Exclusive,
        "agent",
        None,
        false,
        Some(&lock),
        Some("secret"),
        now,
    ));
    assert_eq!(d, AdmitDecision::Allow);
}

#[test]
fn matching_owner_name_is_not_a_credential() {
    let now = 5_000;
    let lock = lease("ui", "secret", now);
    for token in [None, Some("wrong")] {
        let d = admit_write(context(
            TxMode::QueueByLine,
            "ui",
            None,
            false,
            Some(&lock),
            token,
            now,
        ));
        assert!(matches!(d, AdmitDecision::Deny { .. }));
    }
}

#[test]
fn lease_denial_reason_names_owner_and_remaining_time() {
    let now = 5_000;
    let lock = lease("ui", "secret", now);
    let d = admit_write(context(TxMode::QueueByLine, "x", None, false, Some(&lock), None, now));
    assert_eq!(
        d,
        AdmitDecision::Deny {
            reason: "write lease held by 'ui' for another 1000ms; a valid lease token is required"
                .into()
        }
    );
}

#[test]
fn expired_lease_does_not_block_normal_mode() {
    let now = 5_000;
    let lock = WriteLock {
        owner: "ui".into(),
        token: "secret".into(),
        expires_at: now,
    };
    let d = admit_write(context(
        TxMode::QueueByLine,
        "agent",
        None,
        false,
        Some(&lock),
        None,
        now,
    ));
    assert_eq!(d, AdmitDecision::Allow);
}

#[test]
fn primary_wins_only_while_primary_is_connected() {
    let now = 5_000;
    let denied = admit_write(context(
        TxMode::PrimaryWins,
        "agent",
        Some("ui"),
        true,
        None,
        None,
        now,
    ));
    assert!(matches!(denied, AdmitDecision::Deny { .. }));

    let fallback = admit_write(context(
        TxMode::PrimaryWins,
        "agent",
        Some("ui"),
        false,
        None,
        None,
        now,
    ));
    assert_eq!(fallback, AdmitDecision::Allow);

    let primary = admit_write(context(
        TxMode::PrimaryWins,
        "ui",
        Some("ui"),
        true,
        None,
        None,
        now,
    ));
    assert_eq!(primary, AdmitDecision::Allow);
}

#[test]
fn lease_token_overrides_primary_reservation() {
    let now = 5_000;
    let lock = lease("automation", "secret", now);
    let d = admit_write(context(
        TxMode::PrimaryWins,
        "agent",
        Some("ui"),
        true,
        Some(&lock),
        Some("secret"),
        now,
    ));
    assert_eq!(d, AdmitDecision::Allow);
}

#[test]
fn caller_label_cannot_claim_primary_capability() {
    let decision = admit_write(AdmitContext {
        mode: TxMode::PrimaryWins,
        client: "ui",
        primary: Some("ui"),
        client_is_primary: false,
        primary_connected: true,
        lock: None,
        lease_token: None,
        now: 5_000,
    });
    assert!(matches!(decision, AdmitDecision::Deny { .. }));
}

#[test]
fn parses_all_honest_slow_client_policies() {
    assert_eq!(
        SlowClientPolicy::parse("drop_oldest").unwrap(),
        SlowClientPolicy::DropOldest
    );
    assert_eq!(
        SlowClientPolicy::parse("drop_newest").unwrap(),
        SlowClientPolicy::DropNewest
    );
    assert_eq!(
        SlowClientPolicy::parse("block").unwrap(),
        SlowClientPolicy::Block
    );
}

#[test]
fn unknown_names_are_reported() {
    assert_eq!(TxMode::parse("fifo").unwrap_err(), "unknown tx mode: fifo");
    assert_eq!(
        SlowClientPolicy::parse("drop").unwrap_err(),
        "unknown slow_client policy: drop"
    );
    assert_eq!(TxMode::parse("primary_wins").unwrap(), TxMode::PrimaryWins);
}

#[test]
fn policy_from_config_clamps_queue_and_keeps_limits() {
    let mut cfg = TxConfig::default();
    cfg.client_queue = 0;
    cfg.write_lock_ms = 0;
    let policy = Policy::from_config(&cfg).unwrap();
    assert_eq!(policy.client_queue, 1);
    assert_eq!(policy.lock_ttl(), 1);
    assert_eq!(policy.mode, TxMode::QueueByLine);
    cfg.mode = "bogus".into();
    assert_eq!(Policy::from_config(&cfg).unwrap_err(), "unknown tx mode: bogus");
}

#[test]
fn assembler_fails_exactly_when_a_byte_meets_a_full_partial_frame() {
    let mut a = FrameAssembler::new();
    assert_eq!(a.push(b"ab\ncd\n", b'\n', 3).unwrap(), vec![b"ab\n".to_vec(), b"cd\n".to_vec()]);
    let mut b = FrameAssembler::new();
    // Three bytes without a delimiter fill the frame; the delimiter after them overflows it.
    assert!(b.push(b"abc\n", b'\n', 3).is_err());
    let mut c = FrameAssembler::new();
    assert!(c.push(b"abc", b'\n', 3).is_ok());
    assert!(c.push(b"\n", b'\n', 3).is_err());
}
