use ohmyserial::observe::{event_line, hex_preview, log_line, Direction, LogFormat};

#[test]
fn writes_text_lines() {
    let line = log_line(LogFormat::parse("text"), "T", Direction::Rx, None, b"hello").unwrap();
    assert!(line.contains("RX"));
    assert!(line.contains("hello"));
    assert_eq!(line, "T RX - hello\n");
}

#[test]
fn hex_preview_is_bounded() {
    assert_eq!(hex_preview(&[0, 1, 0xff], 64), "00 01 ff");
    assert_eq!(hex_preview(&[0, 1, 0xff], 2), "00 01 ...");
    assert_eq!(hex_preview(&[], 2), "");
}

#[test]
fn formats_and_empty_writes() {
    assert_eq!(LogFormat::parse("hex"), LogFormat::Hex);
    assert_eq!(LogFormat::parse("anything"), LogFormat::HexText);
    assert_eq!(log_line(LogFormat::Hex, "T", Direction::Tx, Some("ui"), b"\x01\x02").unwrap(), "T TX ui 01 02\n");
    assert_eq!(
        log_line(LogFormat::HexText, "T", Direction::Tx, Some("ui"), b"a\n").unwrap(),
        "T TX ui hex=61 0a text=a\\n\n"
    );
    assert_eq!(log_line(LogFormat::Text, "T", Direction::Rx, None, b""), None);
    assert_eq!(event_line("T", "serial_open"), "T EVENT serial_open\n");
    assert_eq!(Direction::Rx.tag(), "RX");
}
