use std::time::Duration;

use ohmyserial::config::{RealPortConfig, UsbSelector};
use ohmyserial::serial::{
    burst_has_room, idle_wait_ms, initial_backoff_ms, next_backoff_ms, port_settings,
    read_poll_timeout, resolve_device_path, select_usb_port, FlowKind, ParityKind, PortEntry,
    UsbIdentity, MAX_READ_POLL_TIMEOUT_MS,
};

#[test]
fn real_port_read_poll_timeout_has_a_shutdown_safe_upper_bound() {
    assert_eq!(Duration::from_millis(read_poll_timeout(0)), Duration::from_millis(10));
    assert_eq!(Duration::from_millis(read_poll_timeout(50)), Duration::from_millis(50));
    assert_eq!(
        Duration::from_millis(read_poll_timeout(u64::MAX)),
        Duration::from_millis(MAX_READ_POLL_TIMEOUT_MS)
    );
}

#[test]
fn backoff_starts_at_fifty_and_doubles_to_ten_seconds() {
    assert_eq!(initial_backoff_ms(0), 50);
    assert_eq!(initial_backoff_ms(1000), 1000);
    assert_eq!(next_backoff_ms(50), 100);
    assert_eq!(next_backoff_ms(6000), 10_000);
    assert_eq!(next_backoff_ms(u64::MAX), 10_000);
    assert_eq!(idle_wait_ms(5), 5);
    assert_eq!(idle_wait_ms(500), 20);
}

#[test]
fn write_bursts_are_bounded() {
    assert!(burst_has_room(0, 0));
    assert!(!burst_has_room(32, 0));
    assert!(!burst_has_room(1, 256 * 1024));
}

fn real_port(path: &str) -> RealPortConfig {
    RealPortConfig {
        path: path.into(),
        baud: 115_200,
        databits: 8,
        parity: "none".into(),
        stopbits: 1,
        flow: "none".into(),
        reconnect: true,
        reconnect_ms: 500,
        read_timeout_ms: 50,
        usb: None,
    }
}

#[test]
fn port_settings_follow_the_configuration() {
    let mut cfg = real_port("COM3");
    cfg.parity = "ODD".into();
    cfg.flow = "Hardware".into();
    cfg.databits = 7;
    cfg.stopbits = 2;
    let s = port_settings(&cfg);
    assert_eq!(s.parity, ParityKind::Odd);
    assert_eq!(s.flow, FlowKind::Hardware);
    assert_eq!(s.databits, 7);
    assert_eq!(s.stopbits, 2);
    assert_eq!(s.poll_timeout_ms, 50);
    cfg.parity = "mark".into();
    cfg.databits = 9;
    cfg.stopbits = 3;
    let s = port_settings(&cfg);
    assert_eq!(s.parity, ParityKind::NoParity);
    assert_eq!(s.databits, 8);
    assert_eq!(s.stopbits, 1);
}

fn usb(name: &str, serial: Option<&str>) -> PortEntry {
    PortEntry {
        port_name: name.into(),
        usb: Some(UsbIdentity { vid: 0x10c4, pid: 0xea60, serial_number: serial.map(str::to_owned) }),
    }
}

#[test]
fn usb_selector_resolves_exactly_one_port() {
    let ports = vec![
        PortEntry { port_name: "/dev/ttyS0".into(), usb: None },
        usb("/dev/ttyUSB0", Some("board-01")),
        usb("/dev/ttyUSB1", Some("board-02")),
    ];
    let exact = UsbSelector { vid: 0x10c4, pid: 0xea60, serial_number: Some("board-02".into()) };
    assert_eq!(select_usb_port(&exact, &ports).unwrap(), "/dev/ttyUSB1");
    let any = UsbSelector { vid: 0x10c4, pid: 0xea60, serial_number: None };
    assert_eq!(
        select_usb_port(&any, &ports).unwrap_err(),
        "USB selector 10c4:ea60 is ambiguous; matches: /dev/ttyUSB0, /dev/ttyUSB1 (set serial_number)"
    );
    let missing = UsbSelector { vid: 0x10c4, pid: 0xea60, serial_number: Some("x".into()) };
    assert_eq!(
        select_usb_port(&missing, &ports).unwrap_err(),
        "USB selector 10c4:ea60 serial=x matched no serial port"
    );
    let other = UsbSelector { vid: 1, pid: 2, serial_number: None };
    assert_eq!(
        select_usb_port(&other, &ports).unwrap_err(),
        "USB selector 0001:0002 matched no serial port"
    );
}

#[test]
fn configured_path_is_used_without_a_selector() {
    assert_eq!(resolve_device_path(&real_port("COM7"), &vec![]).unwrap(), "COM7");
}
