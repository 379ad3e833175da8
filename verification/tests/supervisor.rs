use ohmyserial::config::{ClientConfig, Config, UsbSelector};
use ohmyserial::supervisor::{normalize_key, normalize_path, validate_profiles};

fn profile(path: &str, api: u16, tcp: u16) -> Config {
    let mut profile = Config::default();
    profile.real.path = path.into();
    profile.api.bind = format!("127.0.0.1:{api}");
    profile.clients = vec![ClientConfig::Tcp {
        name: "tcp".into(),
        bind: format!("127.0.0.1:{tcp}"),
        can_write: true,
        can_read: true,
    }];
    profile
}

#[test]
fn duplicate_network_bind_is_rejected_before_startup() {
    let a = profile("COM3", 18_787, 18_788);
    let b = profile("COM4", 18_789, 18_788);
    let error = validate_profiles(&[a, b], "/srv").unwrap_err().to_string();
    assert!(error.contains("resource collision"));
    assert!(error.contains("TCP"));
}

#[test]
fn duplicate_real_path_is_rejected_but_mock_profiles_are_isolated() {
    let a = profile("COM3", 18_787, 18_788);
    let b = profile("COM3", 18_789, 18_790);
    assert!(validate_profiles(&[a, b], "/srv").is_err());

    let a = profile("mock:a", 18_787, 18_788);
    let b = profile("mock:a", 18_789, 18_790);
    validate_profiles(&[a, b], "/srv").unwrap();
}

#[test]
fn duplicate_usb_identity_is_rejected() {
    let mut a = profile("", 18_787, 18_788);
    let mut b = profile("", 18_789, 18_790);
    let selector = UsbSelector {
        vid: 0x10c4,
        pid: 0xea60,
        serial_number: Some("board-01".into()),
    };
    a.real.usb = Some(selector.clone());
    b.real.usb = Some(selector);
    assert!(validate_profiles(&[a, b], "/srv").is_err());
}

#[test]
fn no_profiles_is_an_error() {
    assert_eq!(
        validate_profiles(&[], "/srv").unwrap_err(),
        "supervise requires at least one profile"
    );
}

#[test]
fn collision_message_names_both_owners() {
    let a = profile("COM3", 18_787, 18_788);
    let b = profile("com3 ", 18_789, 18_790);
    assert_eq!(
        validate_profiles(&[a, b], "/srv").unwrap_err(),
        "resource collision: profile #2 real.path conflicts with profile #1 real.path"
    );
}

#[test]
fn wildcard_usb_selector_conflicts_with_a_specific_one() {
    let mut a = profile("/dev/ttyUSB0", 18_787, 18_788);
    let mut b = profile("/dev/ttyUSB1", 18_789, 18_790);
    a.real.usb = Some(UsbSelector { vid: 0x10c4, pid: 0xea60, serial_number: Some("board-01".into()) });
    b.real.usb = Some(UsbSelector { vid: 0x10c4, pid: 0xea60, serial_number: None });
    assert_eq!(
        validate_profiles(&[a.clone(), b.clone()], "/srv").unwrap_err(),
        "resource collision: profile #2 real.usb conflicts with another selector"
    );
    assert_eq!(
        validate_profiles(&[b, a], "/srv").unwrap_err(),
        "resource collision: profile #2 real.usb conflicts with a wildcard selector"
    );
}

#[test]
fn different_usb_serials_do_not_collide() {
    let mut a = profile("/dev/ttyUSB0", 18_787, 18_788);
    let mut b = profile("/dev/ttyUSB1", 18_789, 18_790);
    a.real.usb = Some(UsbSelector { vid: 0x10c4, pid: 0xea60, serial_number: Some("board-01".into()) });
    b.real.usb = Some(UsbSelector { vid: 0x10c4, pid: 0xea60, serial_number: Some("board-02".into()) });
    validate_profiles(&[a, b], "/srv").unwrap();
}

#[test]
fn relative_ledger_directories_are_resolved_against_cwd() {
    let mut a = profile("mock:a", 18_787, 18_788);
    let mut b = profile("mock:b", 18_789, 18_790);
    a.ledger.directory = Some("evidence".into());
    b.ledger.directory = Some("/srv/evidence".into());
    let error = validate_profiles(&[a, b], "/srv").unwrap_err();
    assert_eq!(
        error,
        "resource collision: profile #2 ledger.directory conflicts with profile #1 ledger.directory"
    );
}

#[test]
fn invalid_profile_is_reported_before_collisions() {
    let mut a = profile("COM3", 18_787, 18_788);
    a.ledger.memory_events = 0;
    let b = profile("COM3", 18_789, 18_790);
    let error = validate_profiles(&[a, b], "/srv").unwrap_err();
    assert!(error.contains("memory_events"));
}

#[test]
fn keys_and_paths_are_normalized() {
    assert_eq!(normalize_key("  COM3 "), "com3");
    assert_eq!(normalize_path("Logs", "/Srv"), "/srv/logs");
    assert_eq!(normalize_path("logs", "/srv/"), "/srv/logs");
    assert_eq!(normalize_path("/Abs", "/srv"), "/abs");
}

#[test]
fn a_literal_star_serial_makes_acceptance_depend_on_order() {
    let mut a = profile("/dev/ttyUSB0", 18_787, 18_788);
    let mut b = profile("/dev/ttyUSB1", 18_789, 18_790);
    a.real.usb = Some(UsbSelector { vid: 0x10c4, pid: 0xea60, serial_number: Some("*".into()) });
    b.real.usb = Some(UsbSelector { vid: 0x10c4, pid: 0xea60, serial_number: Some("board-01".into()) });
    assert!(validate_profiles(&[a.clone(), b.clone()], "/srv").is_err());
    assert!(validate_profiles(&[b, a], "/srv").is_ok());
}

#[test]
fn acceptance_does_not_depend_on_profile_order() {
    let mut a = profile("/dev/ttyUSB0", 18_787, 18_788);
    let mut b = profile("/dev/ttyUSB1", 18_789, 18_790);
    let c = profile("/dev/ttyUSB2", 18_791, 18_792);
    a.real.usb = Some(UsbSelector { vid: 0x10c4, pid: 0xea60, serial_number: None });
    b.real.usb = Some(UsbSelector { vid: 0x10c4, pid: 0xea61, serial_number: Some("board-01".into()) });
    let orders = [
        vec![a.clone(), b.clone(), c.clone()],
        vec![c.clone(), a.clone(), b.clone()],
        vec![b.clone(), c.clone(), a.clone()],
    ];
    for profiles in &orders {
        assert!(validate_profiles(profiles, "/srv").is_ok());
    }
    // Same device: the wildcard collides with the specific selector in either order.
    b.real.usb = Some(UsbSelector { vid: 0x10c4, pid: 0xea60, serial_number: Some("board-01".into()) });
    assert!(validate_profiles(&[a.clone(), b.clone(), c.clone()], "/srv").is_err());
    assert!(validate_profiles(&[b.clone(), c.clone(), a.clone()], "/srv").is_err());
}
