use ohmyserial::broker::{BrokerCore, ClientId, ControlCommand, FanoutQueue, FanoutResult, PortStatus};
use ohmyserial::config::TxConfig;
use ohmyserial::policy::{Policy, SlowClientPolicy, TxMode};

fn hub_core(mode: TxMode) -> BrokerCore {
    let mut policy = Policy::from_config(&TxConfig::default()).unwrap();
    policy.mode = mode;
    BrokerCore::new(
        policy,
        PortStatus { path: "mock:test".into(), baud: 115_200, connected: true, detail: "open".into() },
        1024,
    )
}

#[test]
fn lease_credentials_never_enter_the_event_ledger() {
    let mut broker = hub_core(TxMode::QueueByLine);
    let lease = broker.acquire_lock("audit-owner", 0).unwrap();
    broker.renew_lock(&lease.lease_token, 1).unwrap();
    broker.release_lock(Some(&lease.lease_token), 2).unwrap();

    let text = format!("{:?}", broker.take_outbox());
    assert!(!text.contains(&lease.lease_token));
    assert!(!text.contains("lease_token"));
}

#[test]
fn framed_and_atomic_writes_are_size_bounded() {
    let mut broker = hub_core(TxMode::QueueByLine);
    broker.policy.max_frame_bytes = 4;
    broker.policy.max_write_bytes = 4;
    let id = ClientId(1);
    broker.register_client(id, "ui".into(), "test".into(), false, true, None, false);
    let frame_error = broker.admit_client_write(id, b"12345", None, false, 0).unwrap_err();
    assert!(frame_error.contains("max_frame_bytes"));
    let atomic_error = broker.admit_client_write(id, b"12345", None, true, 0).unwrap_err();
    assert!(atomic_error.contains("max_write_bytes"));
}

#[test]
fn queue_by_line_waits_for_newline() {
    let mut broker = hub_core(TxMode::QueueByLine);
    let id = ClientId(7);
    broker.register_client(id, "ui".into(), "test".into(), false, true, None, false);
    let first = broker.admit_client_write(id, b"AT", None, false, 0).unwrap().unwrap();
    assert!(first.frames.is_empty());
    let second = broker.admit_client_write(id, b"\r\n", None, false, 0).unwrap().unwrap();
    assert_eq!(second.frames, vec![b"AT\r\n".to_vec()]);
}

#[test]
fn exclusive_denies_without_lock() {
    let mut broker = hub_core(TxMode::Exclusive);
    let id = ClientId(2);
    broker.register_client(id, "ui".into(), "test".into(), false, true, None, false);
    assert!(broker.admit_client_write(id, b"x\n", None, false, 0).is_err());
    let lease = broker.acquire_lock("ui", 0).unwrap();
    assert!(broker.admit_client_write(id, b"x\n", Some(&lease.lease_token), false, 0).is_ok());
}

#[test]
fn unregistered_client_cannot_write() {
    let mut broker = hub_core(TxMode::QueueByLine);
    assert!(broker.admit_client_write(ClientId(9), b"x\n", None, false, 0).is_err());
}

#[test]
fn second_lease_is_refused_while_first_runs() {
    let mut broker = hub_core(TxMode::QueueByLine);
    broker.acquire_lock("a", 0).unwrap();
    let err = broker.acquire_lock("b", 1).unwrap_err();
    assert_eq!(err, "write lease held by 'a'; renew it with its lease token");
    assert!(broker.renew_lock("wrong", 1).is_err());
    assert!(broker.release_lock(Some("wrong"), 1).is_err());
}

#[test]
fn control_commands_are_validated() {
    assert!(ControlCommand::Break { duration_ms: 0 }.validate().is_err());
    assert!(ControlCommand::Dtr(true).validate().is_ok());
    assert_eq!(ControlCommand::Rts(false).audit_name(), "rts");
}

#[test]
fn fanout_queue_drop_policies() {
    let mut q = FanoutQueue::new(1);
    assert!(matches!(q.enqueue(vec![1], SlowClientPolicy::DropNewest, false), FanoutResult::Queued));
    let r = q.enqueue(vec![2], SlowClientPolicy::DropNewest, false);
    assert!(!matches!(r, FanoutResult::Queued));
    assert_eq!(q.pop(), Some(vec![1]));
    assert_eq!(q.pop(), None);
    q.enqueue(vec![1], SlowClientPolicy::DropOldest, false);
    q.enqueue(vec![2], SlowClientPolicy::DropOldest, false);
    assert_eq!(q.pop(), Some(vec![2]));
}

#[test]
fn a_serial_read_error_is_an_rx_observation_gap() {
    let mut broker = hub_core(TxMode::QueueByLine);
    let _ = broker.take_outbox();
    broker.serial_read_gap("serial read error: device lost");
    let events = broker.take_outbox();
    assert_eq!(events.len(), 1);
    assert_eq!(events[0].connection_epoch, broker.connection_epoch);
    match &events[0].payload {
        ohmyserial::schema::EventPayload::Gap(g) => {
            assert_eq!(g.scope, ohmyserial::schema::GapScope::RxObservation);
            assert_eq!(g.certainty, ohmyserial::schema::GapCertainty::Unknown);
            assert_eq!(g.reason, "serial read error: device lost");
            assert!(g.bytes.is_none() && g.actor.is_none() && g.client_ids.is_empty());
        }
        other => panic!("expected a gap, got {other:?}"),
    }
}

#[test]
fn lease_tokens_are_32_lowercase_hex_digits() {
    let mut broker = hub_core(TxMode::QueueByLine);
    let lease = broker.acquire_lock("owner", 0).unwrap();
    assert_eq!(lease.lease_token.len(), 32);
    assert!(lease.lease_token.chars().all(|c| c.is_ascii_digit() || ('a'..='f').contains(&c)));
    assert_ne!(lease.lease_token, lease.owner);
    assert!(broker.release_lock(Some("owner"), 1).is_err());
}

fn slow_reader(slow: SlowClientPolicy) -> (BrokerCore, Vec<(ClientId, FanoutQueue)>, ClientId) {
    let mut policy = Policy::from_config(&TxConfig::default()).unwrap();
    policy.slow_client = slow;
    let mut broker = BrokerCore::new(
        policy,
        PortStatus { path: "mock".into(), baud: 115_200, connected: true, detail: "ok".into() },
        1024,
    );
    let id = ClientId(7);
    let cap = broker.register_client(id, "slow".into(), "test".into(), true, false, Some(1), false);
    let mut queues = vec![(id, FanoutQueue::new(cap))];
    assert!(broker.deliver_rx(&mut queues, b"A", &vec![]).is_empty());
    (broker, queues, id)
}

#[test]
fn drop_oldest_replaces_queued_chunk_and_counts_it() {
    let (mut broker, mut queues, _id) = slow_reader(SlowClientPolicy::DropOldest);
    assert!(broker.deliver_rx(&mut queues, b"D", &vec![]).is_empty());
    assert_eq!(queues[0].1.pop(), Some(b"D".to_vec()));
    let stats = broker.snapshot(0).stats;
    assert_eq!(stats.rx_drops, 1);
    assert_eq!(stats.rx_drop_oldest, 1);
    assert_eq!(stats.rx_drop_newest, 0);
    assert_eq!(stats.rx_bytes, 2);
}

#[test]
fn drop_newest_preserves_queued_chunk_and_counts_it() {
    let (mut broker, mut queues, _id) = slow_reader(SlowClientPolicy::DropNewest);
    assert!(broker.deliver_rx(&mut queues, b"D", &vec![]).is_empty());
    assert_eq!(queues[0].1.pop(), Some(b"A".to_vec()));
    let stats = broker.snapshot(0).stats;
    assert_eq!(stats.rx_drops, 1);
    assert_eq!(stats.rx_drop_oldest, 0);
    assert_eq!(stats.rx_drop_newest, 1);
}

#[test]
fn block_waits_for_capacity_without_dropping() {
    let (mut broker, mut queues, id) = slow_reader(SlowClientPolicy::Block);
    // The reader drains its queue while the producer waits for room.
    assert_eq!(queues[0].1.pop(), Some(b"A".to_vec()));
    assert!(broker.deliver_rx(&mut queues, b"D", &vec![id]).is_empty());
    assert_eq!(queues[0].1.pop(), Some(b"D".to_vec()));
    let stats = broker.snapshot(0).stats;
    assert_eq!(stats.rx_drops, 0);
    assert_eq!(stats.rx_block_events, 1);
}

#[test]
fn block_policy_has_a_deadline_and_disconnects_a_stuck_reader() {
    let (mut broker, mut queues, id) = slow_reader(SlowClientPolicy::Block);
    assert_eq!(broker.deliver_rx(&mut queues, b"D", &vec![id]), vec![id]);
    let snapshot = broker.snapshot(0);
    assert!(snapshot.clients.is_empty());
    assert_eq!(snapshot.stats.rx_drops, 2);
    assert_eq!(snapshot.stats.rx_block_events, 1);
    assert_eq!(snapshot.stats.slow_disconnects, 1);
}

#[test]
fn disconnect_slow_is_counted_and_removes_client() {
    let (mut broker, mut queues, id) = slow_reader(SlowClientPolicy::DisconnectSlow);
    assert_eq!(broker.deliver_rx(&mut queues, b"D", &vec![]), vec![id]);
    let snapshot = broker.snapshot(0);
    assert!(snapshot.clients.is_empty());
    assert_eq!(snapshot.stats.rx_drops, 2);
    assert_eq!(snapshot.stats.rx_drop_newest, 2);
    assert_eq!(snapshot.stats.slow_disconnects, 1);
}

#[test]
fn a_reader_without_room_loses_only_its_own_chunk() {
    let (mut broker, mut queues, slow) = slow_reader(SlowClientPolicy::DropNewest);
    let fast = ClientId(8);
    let cap = broker.register_client(fast, "fast".into(), "test".into(), true, false, Some(4), false);
    queues.push((fast, FanoutQueue::new(cap)));
    let _ = broker.take_outbox();
    assert!(broker.deliver_rx(&mut queues, b"E", &vec![]).is_empty());
    assert_eq!(queues[1].1.pop(), Some(b"E".to_vec()));
    assert_eq!(queues[0].1.pop(), Some(b"A".to_vec()));
    let events = broker.take_outbox();
    assert_eq!(events.len(), 2);
    match &events[1].payload {
        ohmyserial::schema::EventPayload::Gap(g) => {
            assert_eq!(g.reason, "slow-client policy dropped delivery (oldest=0, newest=1)");
            assert_eq!(g.client_ids, vec![uuid::Uuid::from_u128(slow.0).to_string()]);
        }
        other => panic!("expected a gap, got {other:?}"),
    }
}

#[test]
fn prewrite_gate_rejects_an_admitted_write_after_reconnect() {
    let mut broker = hub_core(TxMode::QueueByLine);
    let id = ClientId(11);
    broker.register_client(id, "ui".into(), "test".into(), false, true, None, false);
    let admitted = broker.admit_client_write(id, b"old-connection", None, true, 0).unwrap().unwrap();
    let ticket = ohmyserial::broker::WriteTicket {
        client_id: id,
        connection_epoch: admitted.connection_epoch,
        lease_token: None,
        primary_eligible: admitted.primary_eligible,
        deadline: admitted.write_timeout_ms,
        actor: admitted.actor.clone(),
    };
    assert!(broker.validate_device_write(&ticket, 0).is_ok());
    broker.set_port_status(PortStatus { path: "mock".into(), baud: 115_200, connected: false, detail: "disconnected".into() });
    broker.set_port_status(PortStatus { path: "mock".into(), baud: 115_200, connected: true, detail: "reconnected".into() });
    assert!(broker.validate_device_write(&ticket, 0).is_err());
    broker.tx_not_written(&ticket, b"old-connection".len(), "stale connection epoch");
    assert_eq!(broker.snapshot(0).stats.tx_bytes, 0);
    assert_eq!(broker.snapshot(0).stats.tx_denies, 1);
}

#[test]
fn a_queue_is_full_only_while_open_at_capacity() {
    let mut q = FanoutQueue::new(1);
    assert!(!q.is_full());
    assert_eq!(q.offer(b"a", SlowClientPolicy::Block, false), FanoutResult::Queued);
    assert!(q.is_full());
    assert_eq!(
        q.offer(b"b", SlowClientPolicy::Block, true),
        FanoutResult::Disconnected { dropped: 2, blocked: true }
    );
    assert!(!q.is_full());
    assert!(q.is_closed());
}

#[test]
fn only_the_block_policy_waits_and_only_on_full_queues() {
    let (broker, mut queues, id) = slow_reader(SlowClientPolicy::Block);
    assert_eq!(broker.queues_to_wait_on(&queues), vec![id]);
    assert_eq!(queues[0].1.pop(), Some(b"A".to_vec()));
    assert!(broker.queues_to_wait_on(&queues).is_empty());
    let (broker, queues, _id) = slow_reader(SlowClientPolicy::DropNewest);
    assert!(broker.queues_to_wait_on(&queues).is_empty());
}
