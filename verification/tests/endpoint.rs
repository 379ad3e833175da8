use ohmyserial::endpoint::{
    link_cleanup, pty_read_retries, pty_write_retries, tcp_denial_line, tcp_inbound, ws_history,
    ws_inbound, LinkEntry, PtyFailure, TcpInbound, WsDecision, WsMessage,
};

#[test]
fn tcp_clients_are_told_why_bytes_were_refused() {
    assert_eq!(
        tcp_denial_line("write lease is held by another client"),
        "!ohmyserial tx denied: write lease is held by another client\n"
    );
    assert_eq!(
        tcp_inbound(false, true),
        TcpInbound::Refuse("!ohmyserial tx denied: client is read-only\n".into())
    );
    assert_eq!(tcp_inbound(true, true), TcpInbound::Submit { atomic: true });
    assert_eq!(tcp_inbound(true, false), TcpInbound::Submit { atomic: false });
}

#[test]
fn websocket_text_is_sent_as_a_line_and_binary_atomically() {
    assert_eq!(
        ws_inbound(true, WsMessage::Text("AT".into())),
        WsDecision::Submit {
            data: b"AT\n".to_vec(),
            atomic: false
        }
    );
    assert_eq!(
        ws_inbound(true, WsMessage::Text("AT\n".into())),
        WsDecision::Submit {
            data: b"AT\n".to_vec(),
            atomic: false
        }
    );
    assert_eq!(
        ws_inbound(true, WsMessage::Binary(vec![1, 2])),
        WsDecision::Submit {
            data: vec![1, 2],
            atomic: true
        }
    );
    assert_eq!(
        ws_inbound(false, WsMessage::Binary(vec![1])),
        WsDecision::Refuse("client is read-only".into())
    );
    assert_eq!(ws_inbound(true, WsMessage::Close), WsDecision::Stop);
    assert_eq!(ws_inbound(false, WsMessage::Ping), WsDecision::Ignore);
}

#[test]
fn websocket_history_is_the_tail() {
    assert_eq!(ws_history(true, 3, b"abcdef"), Some(b"def".to_vec()));
    assert_eq!(ws_history(true, 10, b"abc"), Some(b"abc".to_vec()));
    assert_eq!(ws_history(false, 10, b"abc"), None);
    assert_eq!(ws_history(true, 0, b"abc"), None);
    assert_eq!(ws_history(true, 3, b""), None);
}

#[test]
fn pty_io_retries_only_transient_failures() {
    assert!(pty_read_retries(PtyFailure::WouldBlock));
    assert!(pty_read_retries(PtyFailure::Interrupted));
    assert!(pty_read_retries(PtyFailure::NoPeer));
    assert!(!pty_read_retries(PtyFailure::Other));
    assert!(pty_write_retries(PtyFailure::WouldBlock));
    assert!(pty_write_retries(PtyFailure::NoPeer));
    assert!(!pty_write_retries(PtyFailure::Interrupted));
    assert!(!pty_write_retries(PtyFailure::Other));
}

#[test]
fn setup_link_refuses_to_delete_a_regular_file() {
    assert_eq!(
        link_cleanup(LinkEntry::NotSymlink, "/tmp/ohmyserial-ui"),
        Err("refusing to replace non-symlink PTY link path /tmp/ohmyserial-ui".to_string())
    );
    assert_eq!(link_cleanup(LinkEntry::Symlink, "/tmp/l"), Ok(true));
    assert_eq!(link_cleanup(LinkEntry::Missing, "/tmp/l"), Ok(false));
    assert_eq!(
        link_cleanup(LinkEntry::Unreadable("permission denied".into()), "/tmp/l"),
        Err("permission denied".to_string())
    );
}
