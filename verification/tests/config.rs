use ohmyserial::config::{ClientConfig, Config, QuickShare};

#[test]
fn default_config_validates() {
    Config::default().validate().unwrap();
}

#[test]
fn ledger_capacity_and_rotation_limits_are_validated() {
    let mut cfg = Config::default();
    cfg.ledger.memory_events = 0;
    assert!(cfg.validate().unwrap_err().to_string().contains("memory_events"));

    cfg.ledger.memory_events = 1;
    cfg.ledger.memory_bytes = 0;
    assert!(cfg.validate().unwrap_err().to_string().contains("memory_bytes"));

    cfg.ledger.memory_bytes = 1;
    cfg.ledger.stream_capacity = 0;
    assert!(cfg.validate().unwrap_err().to_string().contains("stream_capacity"));

    cfg.ledger.stream_capacity = 1;
    cfg.ledger.rotate_bytes = 1023;
    assert!(cfg.validate().unwrap_err().to_string().contains("rotate_bytes"));
}

#[test]
fn quick_share_builds() {
    let cfg = Config::from_quick(QuickShare {
        device: "mock:x".into(),
        baud: 9600,
        pty_count: 0,
        tcp_count: 2,
        tcp_base_port: 19010,
        api_bind: "127.0.0.1:19011".into(),
        mirror_console: false,
    })
    .unwrap();
    assert_eq!(cfg.real.baud, 9600);
    assert_eq!(cfg.clients.len(), 2);
    let guide = cfg.connect_guide();
    assert!(guide.contains("how to connect"));
    assert!(guide.contains("19010") || guide.contains("TCP"));
}

#[test]
fn fanout_expands_tcp_ports() {
    let mut cfg = Config::default();
    cfg.real.path = "mock:test".into();
    cfg.clients.clear();
    cfg.fanout.tcp_count = 3;
    cfg.fanout.tcp_host = "127.0.0.1".into();
    cfg.fanout.tcp_base_port = 19000;
    cfg.fanout.tcp_name_prefix = "m".into();
    cfg.expand_fanout().unwrap();
    cfg.validate().unwrap();
    assert_eq!(cfg.clients.len(), 3);
    match &cfg.clients[1] {
        ClientConfig::Tcp { name, bind, .. } => {
            assert_eq!(name, "m1");
            assert_eq!(bind, "127.0.0.1:19001");
        }
        _ => panic!("expected tcp"),
    }
    let eps = cfg.endpoint_catalog();
    assert!(eps
        .iter()
        .any(|e| e.kind == "tcp" && e.address.contains("19001")));
}

#[test]
fn fanout_expands_pty() {
    let mut cfg = Config::default();
    cfg.real.path = "mock:test".into();
    cfg.clients.clear();
    cfg.fanout.pty_count = 2;
    cfg.fanout.pty_link_prefix = "/tmp/oms-test-v".into();
    cfg.fanout.pty_name_prefix = "p".into();
    cfg.expand_fanout().unwrap();
    cfg.validate().unwrap();
    assert_eq!(cfg.clients.len(), 2);
    match &cfg.clients[0] {
        ClientConfig::Pty { name, link, .. } => {
            assert_eq!(name, "p0");
            assert_eq!(link, "/tmp/oms-test-v0");
        }
        _ => panic!("expected pty"),
    }
}

#[test]
fn fanout_skips_taken_names_and_reports_port_overflow() {
    let mut cfg = Config::default();
    cfg.fanout.tcp_count = 2;
    cfg.expand_fanout().unwrap();
    // "tcp" is configured; generated names are tcp0 and tcp1.
    assert_eq!(cfg.clients.len(), 3);
    cfg.expand_fanout().unwrap();
    assert_eq!(cfg.clients.len(), 3);

    let mut cfg = Config::default();
    cfg.fanout.tcp_count = 3;
    cfg.fanout.tcp_base_port = 65534;
    assert_eq!(cfg.expand_fanout().unwrap_err(), "tcp_base_port overflow");
    assert_eq!(cfg.clients.len(), 3);
}

#[test]
fn plaintext_non_loopback_api_is_rejected_even_with_a_token() {
    let mut cfg = Config::default();
    cfg.api.bind = "0.0.0.0:8787".into();
    let error = cfg.validate().unwrap_err().to_string();
    assert!(error.contains("SSH tunnel"), "error={error}");

    cfg.api.token_env = Some("OHMYSERIAL_API_TOKEN".into());
    let error = cfg.validate().unwrap_err().to_string();
    assert!(error.contains("TLS reverse proxy"), "error={error}");
}

#[test]
fn plaintext_non_loopback_websocket_is_rejected_even_with_a_token() {
    let mut cfg = Config::default();
    cfg.clients.push(ClientConfig::Websocket {
        name: "remote-agent".into(),
        bind: Some("0.0.0.0:8790".into()),
        can_write: false,
        can_read: true,
        history_bytes: 1024,
    });
    let error = cfg.validate().unwrap_err().to_string();
    assert!(error.contains("SSH tunnel"), "error={error}");

    cfg.api.token_env = Some("OHMYSERIAL_API_TOKEN".into());
    let error = cfg.validate().unwrap_err().to_string();
    assert!(error.contains("TLS reverse proxy"), "error={error}");
}

#[test]
fn unauthenticated_raw_tcp_must_remain_loopback_only() {
    let cfg = Config {
        clients: vec![ClientConfig::Tcp {
            name: "unsafe-tcp".into(),
            bind: "0.0.0.0:8788".into(),
            can_write: true,
            can_read: true,
        }],
        ..Config::default()
    };
    let error = cfg.validate().unwrap_err().to_string();
    assert!(error.contains("SSH tunnel"), "error={error}");
}

#[test]
fn websocket_without_bind_requires_global_api() {
    let mut cfg = Config::default();
    cfg.api.enabled = false;
    cfg.clients = vec![ClientConfig::Websocket {
        name: "missing".into(),
        bind: None,
        can_write: false,
        can_read: true,
        history_bytes: 1024,
    }];
    let error = cfg.validate().unwrap_err().to_string();
    assert!(error.contains("api.enabled=false"), "error={error}");
}

#[test]
fn cors_origins_are_explicit_and_origin_only() {
    let mut cfg = Config::default();
    cfg.api.cors_origins = vec!["*".into()];
    assert!(cfg.validate().unwrap_err().to_string().contains("wildcard"));

    cfg.api.cors_origins = vec!["https://console.example.test/path".into()];
    assert!(cfg
        .validate()
        .unwrap_err()
        .to_string()
        .contains("without path"));

    cfg.api.cors_origins = vec!["https://console.example.test".into()];
    cfg.validate().unwrap();
}

#[test]
fn global_endpoint_catalog_uses_api_permissions() {
    let mut cfg = Config::default();
    cfg.api.can_read = true;
    cfg.api.can_write = false;
    let endpoints = cfg.endpoint_catalog();
    let api = endpoints.iter().find(|ep| ep.name == "api").unwrap();
    let stream = endpoints.iter().find(|ep| ep.name == "api-stream").unwrap();
    assert!(api.can_read && !api.can_write);
    assert!(stream.can_read && !stream.can_write);
}

#[test]
fn configured_global_websocket_identity_and_permissions_are_exact() {
    let mut cfg = Config::default();
    cfg.api.can_read = false;
    cfg.api.can_write = true;
    cfg.clients = vec![ClientConfig::Websocket {
        name: "agent".into(),
        bind: None,
        can_write: false,
        can_read: true,
        history_bytes: 2048,
    }];
    cfg.validate().unwrap();

    assert_eq!(
        cfg.global_websocket_client(),
        Some(("agent", true, false, 2048))
    );
    let endpoints = cfg.endpoint_catalog();
    assert_eq!(
        endpoints
            .iter()
            .filter(|endpoint| endpoint.kind == "websocket")
            .count(),
        1
    );
    let stream = endpoints
        .iter()
        .find(|endpoint| endpoint.kind == "websocket")
        .unwrap();
    assert_eq!(stream.name, "agent");
    assert!(stream.can_read && !stream.can_write);
}

#[test]
fn global_api_rejects_ambiguous_websocket_identities() {
    let mut cfg = Config::default();
    cfg.clients = vec![
        ClientConfig::Websocket {
            name: "agent-a".into(),
            bind: None,
            can_write: false,
            can_read: true,
            history_bytes: 1024,
        },
        ClientConfig::Websocket {
            name: "agent-b".into(),
            bind: Some(cfg.api.bind.clone()),
            can_write: true,
            can_read: true,
            history_bytes: 1024,
        },
    ];
    let error = cfg.validate().unwrap_err().to_string();
    assert!(error.contains("at most one websocket client"), "{error}");
}

#[test]
fn validation_messages_are_exact() {
    let mut cfg = Config::default();
    cfg.real.path = "  ".into();
    assert_eq!(cfg.validate().unwrap_err(), "real.path must not be empty");

    let mut cfg = Config::default();
    cfg.api.bind = "localhost:8787".into();
    assert_eq!(
        cfg.validate().unwrap_err(),
        "invalid api.bind 'localhost:8787': invalid socket address syntax"
    );

    let mut cfg = Config::default();
    cfg.real.parity = "MARK".into();
    assert_eq!(cfg.validate().unwrap_err(), "unknown real.parity: mark");

    let mut cfg = Config::default();
    cfg.real.parity = "Even".into();
    cfg.real.flow = "Hardware".into();
    cfg.validate().unwrap();

    let mut cfg = Config::default();
    cfg.clients.push(ClientConfig::Tcp {
        name: "tcp".into(),
        bind: "127.0.0.1:9000".into(),
        can_write: true,
        can_read: true,
    });
    assert_eq!(cfg.validate().unwrap_err(), "duplicate client name: tcp");

    let mut cfg = Config::default();
    cfg.clients.push(ClientConfig::Tcp {
        name: "x".repeat(129),
        bind: "127.0.0.1:9000".into(),
        can_write: true,
        can_read: true,
    });
    assert!(cfg.validate().unwrap_err().starts_with("client name must be non-empty"));

    let mut cfg = Config::default();
    cfg.api.token_env = Some("A=B".into());
    assert_eq!(
        cfg.validate().unwrap_err(),
        "api.token_env is not a valid environment variable name"
    );
}

#[test]
fn ipv6_loopback_binds_are_accepted() {
    let mut cfg = Config::default();
    cfg.api.bind = "[::1]:8787".into();
    cfg.validate().unwrap();
    cfg.api.bind = "[0:0:0:0:0:0:0:1]:8787".into();
    cfg.validate().unwrap();
    cfg.api.bind = "[::ffff:127.0.0.1]:8787".into();
    assert!(cfg.validate().unwrap_err().contains("loopback"));
    cfg.api.bind = "127.0.0.1:65536".into();
    assert!(cfg.validate().unwrap_err().contains("invalid socket address syntax"));
    cfg.api.bind = "127.000.0.1:80".into();
    assert!(cfg.validate().unwrap_err().contains("invalid socket address syntax"));
    cfg.api.bind = "127.255.255.254:0080".into();
    cfg.validate().unwrap();
}

#[test]
fn connect_guide_lists_every_endpoint_in_fixed_width_rows() {
    let cfg = Config::default();
    let guide = cfg.connect_guide();
    let lines: Vec<&str> = guide.split('\n').collect();
    assert_eq!(lines.first(), Some(&""));
    assert_eq!(lines.last(), Some(&""));
    assert!(guide.contains("│  REAL   mock:demo"));
    assert!(guide.contains("│  TCP    127.0.0.1:8788"));
    assert!(guide.contains("│  UI     http://127.0.0.1:8787/"));
    for line in &lines[1..lines.len() - 1] {
        let expected = if line.contains("how to connect") { 62 } else { 63 };
        assert_eq!(line.chars().count(), expected, "line={line}");
    }
}

#[test]
fn quick_share_defaults_are_friendly() {
    let q = QuickShare::default();
    assert_eq!(q.pty_count, 2);
    assert_eq!(q.tcp_base_port, 8788);
    let cfg = Config::from_quick(q).unwrap();
    assert_eq!(cfg.clients.len(), 3);
}

#[test]
fn a_usb_selector_does_not_excuse_a_blank_path() {
    let mut cfg = Config::default();
    cfg.real.path = "".into();
    assert!(cfg.validate().unwrap_err().contains("real.path must not be empty"));
    cfg.real.usb = Some(ohmyserial::config::UsbSelector { vid: 1, pid: 2, serial_number: None });
    assert!(cfg.validate().unwrap_err().contains("real.path must not be empty"));
}

#[test]
fn the_rx_history_is_sized_by_the_largest_websocket_history() {
    let mut cfg = Config::default();
    cfg.clients.clear();
    assert_eq!(cfg.history_capacity(), 65_536);
    for (name, bytes) in [("a", 1024usize), ("b", 4096), ("c", 2048)] {
        cfg.clients.push(ClientConfig::Websocket {
            name: name.into(),
            bind: None,
            can_write: false,
            can_read: true,
            history_bytes: bytes,
        });
    }
    assert_eq!(cfg.history_capacity(), 4096);
}

#[test]
fn the_catalog_lists_the_api_then_each_client_not_served_by_it() {
    let mut cfg = Config::default();
    cfg.api.enabled = true;
    cfg.api.bind = "127.0.0.1:8788".into();
    cfg.clients = vec![
        ClientConfig::Tcp { name: "t".into(), bind: "127.0.0.1:9001".into(), can_write: true, can_read: false },
        ClientConfig::Websocket { name: "global".into(), bind: None, can_write: false, can_read: true, history_bytes: 1024 },
        ClientConfig::Websocket {
            name: "own".into(),
            bind: Some("127.0.0.1:9002".into()),
            can_write: true,
            can_read: true,
            history_bytes: 1024,
        },
    ];
    let eps = cfg.endpoint_catalog();
    let names: Vec<&str> = eps.iter().map(|e| e.name.as_str()).collect();
    assert_eq!(names, vec!["api", "global", "t", "own"]);
    assert_eq!(eps[0].address, "http://127.0.0.1:8788");
    assert_eq!(eps[1].address, "ws://127.0.0.1:8788/v1/stream");
    assert_eq!((eps[1].can_read, eps[1].can_write), (true, false));
    assert_eq!((eps[2].can_read, eps[2].can_write), (false, true));
    assert_eq!(eps[3].address, "ws://127.0.0.1:9002/v1/stream");
    cfg.api.enabled = false;
    let names: Vec<String> = cfg.endpoint_catalog().into_iter().map(|e| e.name).collect();
    assert_eq!(names, vec!["t", "global", "own"]);
}

#[test]
fn a_validated_configuration_keeps_the_line_and_ledger_rules() {
    let cfg = Config::default();
    assert!(cfg.validate().is_ok());
    assert!(!cfg.real.path.trim().is_empty());
    assert!((5..=8).contains(&cfg.real.databits));
    assert!(cfg.real.stopbits == 1 || cfg.real.stopbits == 2);
    assert!(cfg.ledger.rotate_bytes >= 1024);
    for stopbits in [0u8, 3] {
        let mut bad = Config::default();
        bad.real.stopbits = stopbits;
        assert_eq!(bad.validate().unwrap_err(), "real.stopbits must be 1 or 2");
    }
}
