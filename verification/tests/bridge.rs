use std::io::ErrorKind;

use ohmyserial::bridge::{is_timeout, is_timeout_kind, ComBridgeOptions, IoKind};

#[test]
fn timeout_detection_is_narrow() {
    assert!(is_timeout(&std::io::Error::from(ErrorKind::TimedOut)));
    assert!(is_timeout(&std::io::Error::from(ErrorKind::WouldBlock)));
    assert!(!is_timeout(&std::io::Error::from(ErrorKind::BrokenPipe)));
}

#[test]
fn only_timed_out_and_would_block_kinds_are_timeouts() {
    assert!(is_timeout_kind(IoKind::TimedOut));
    assert!(is_timeout_kind(IoKind::WouldBlock));
    assert!(!is_timeout_kind(IoKind::Other));
}
