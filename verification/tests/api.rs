use ohmyserial::api::bearer_from_env;
use ohmyserial::api::{path_requires_bearer, request_authorized};
use ohmyserial::api::workflow_error_status;
use ohmyserial::workflow::WorkflowError;
use ohmyserial::api::safe_loopback_host;
use ohmyserial::netaddr::{ip_loopback, parse_ip_addr, IpValue};
use ohmyserial::api::{
    authorization_bearer, cache_for, control_command_from_request, control_error_is_forbidden,
    event_query_from_params, origin_authority, parse_hex, request_bearer, secure_eq,
    websocket_origin_allowed, websocket_protocol_bearer, write_body_bytes, EventsParams,
};
use ohmyserial::api::{static_route, StaticRoute};
use ohmyserial::broker::ControlCommand;

#[test]
fn bearer_authorization_is_strict() {
    let header = Some("Bearer secret-token");
    assert_eq!(authorization_bearer(header).as_deref(), Some("secret-token"));
    assert!(secure_eq(&request_bearer(header, None).unwrap(), "secret-token"));
    assert!(!secure_eq(&request_bearer(header, None).unwrap(), "secret-tokee"));

    assert_eq!(authorization_bearer(Some("Basic secret-token")), None);
}

#[test]
fn browser_websocket_bearer_uses_protocol_pair() {
    assert_eq!(
        websocket_protocol_bearer(Some("chat, bearer, browser-token")).as_deref(),
        Some("browser-token")
    );
    assert_eq!(websocket_protocol_bearer(Some("bearer")), None);
}

#[test]
fn websocket_origin_defaults_to_same_host() {
    let host = Some("127.0.0.1:8787");
    assert!(websocket_origin_allowed(Some("http://127.0.0.1:8787"), host, &vec![]));
    assert!(!websocket_origin_allowed(Some("https://console.example"), host, &vec![]));
    assert!(websocket_origin_allowed(
        Some("https://console.example"),
        host,
        &vec!["https://console.example".into()]
    ));
}

#[test]
fn bearer_edge_cases() {
    assert_eq!(authorization_bearer(None), None);
    assert_eq!(authorization_bearer(Some("bearer ")), None);
    assert_eq!(authorization_bearer(Some("BEARER a b")), None);
    assert_eq!(authorization_bearer(Some("bEaReR tok")).as_deref(), Some("tok"));
    assert_eq!(request_bearer(None, Some("bearer, t2")).as_deref(), Some("t2"));
    assert_eq!(request_bearer(Some("Bearer t1"), Some("bearer, t2")).as_deref(), Some("t1"));
    assert_eq!(websocket_protocol_bearer(Some("Bearer , x y")), None);
}

#[test]
fn secure_eq_compares_whole_strings() {
    assert!(secure_eq("", ""));
    assert!(!secure_eq("abc", "abcd"));
    assert!(!secure_eq("abcd", "abc"));
}

#[test]
fn origins_are_http_authorities_only() {
    assert_eq!(origin_authority("HTTPS://host:1").as_deref(), Some("host:1"));
    assert_eq!(origin_authority("ftp://host"), None);
    assert_eq!(origin_authority("http://host/path"), None);
    assert_eq!(origin_authority("http://"), None);
    assert!(websocket_origin_allowed(None, None, &vec![]));
    assert!(!websocket_origin_allowed(Some("http://a"), None, &vec![]));
}

#[test]
fn hex_bodies_are_parsed_strictly() {
    assert_eq!(parse_hex("0a ff").unwrap(), vec![0x0a, 0xff]);
    assert!(parse_hex("0").is_err());
    assert_eq!(parse_hex("").unwrap(), Vec::<u8>::new());
    assert_eq!(write_body_bytes(None, Some("AT"), true).unwrap(), b"AT\n");
    assert_eq!(write_body_bytes(None, Some("AT\n"), true).unwrap(), b"AT\n");
    assert_eq!(write_body_bytes(Some("4142"), Some("ignored"), true).unwrap(), b"AB");
}

#[test]
fn control_requests_map_to_commands() {
    assert_eq!(control_command_from_request(" DTR ", Some(true), None), Ok(ControlCommand::Dtr(true)));
    assert!(control_command_from_request("dtr", None, None).is_err());
    assert!(control_command_from_request("nope", None, None).is_err());
    assert!(control_error_is_forbidden("lease required"));
    assert!(!control_error_is_forbidden("port closed"));
}

#[test]
fn static_assets_are_cached_forever_but_index_is_not() {
    assert_eq!(cache_for("assets/app.js"), "public, max-age=31536000, immutable");
    assert_eq!(cache_for("index.html"), "no-cache");
}

#[test]
fn event_params_build_a_query() {
    let q = event_query_from_params(EventsParams {
        after_seq: 3,
        through_seq: Some(9),
        limit: Some(2),
        event_type: None,
        connection_epoch: None,
        actor: None,
        contains_hex: None,
    })
    .unwrap();
    assert_eq!(q.after_seq, 3);
    assert_eq!(q.through_seq, Some(9));
    assert_eq!(q.limit, 2);
}

#[test]
fn static_paths_never_shadow_the_api() {
    assert_eq!(static_route("/v1/status"), StaticRoute::NotFound);
    assert_eq!(static_route("//v1"), StaticRoute::NotFound);
    assert_eq!(static_route("/"), StaticRoute::Index);
    assert_eq!(static_route("/assets/app.js"), StaticRoute::Asset("assets/app.js".into()));
    assert_eq!(static_route("/v10"), StaticRoute::Asset("v10".into()));
}

#[test]
fn health_stays_public_and_v1_routes_need_the_bearer() {
    assert!(!path_requires_bearer("/v1/health"));
    assert!(!path_requires_bearer("/"));
    assert!(!path_requires_bearer("/assets/app.js"));
    assert!(path_requires_bearer("/v1/status"));
    assert!(path_requires_bearer("/v1/events"));

    assert!(request_authorized("/v1/status", None, None));
    assert!(request_authorized("/v1/health", Some("secret"), None));
    assert!(!request_authorized("/v1/status", Some("secret"), None));
    assert!(!request_authorized("/v1/status", Some("secret"), Some("secreT")));
    assert!(request_authorized("/v1/status", Some("secret"), Some("secret")));
}

#[test]
fn workflow_errors_map_to_http_statuses() {
    assert_eq!(workflow_error_status(&WorkflowError::WriteDenied), 403);
    assert_eq!(workflow_error_status(&WorkflowError::RequestInProgress), 409);
    assert_eq!(workflow_error_status(&WorkflowError::ExpectTimeout), 408);
    assert_eq!(workflow_error_status(&WorkflowError::Cancelled), 408);
    assert_eq!(
        workflow_error_status(&WorkflowError::CursorUnavailable("closed".into())),
        503
    );
    assert_eq!(workflow_error_status(&WorkflowError::RxGap("x".into())), 422);
    assert_eq!(workflow_error_status(&WorkflowError::InvalidRequestId), 422);
}

#[test]
fn the_host_gate_accepts_only_this_loopback_listener() {
    let lo = IpValue::V4(0x7f00_0001);
    let one = |v: &str| vec![v.as_bytes().to_vec()];
    assert!(safe_loopback_host(&one("127.0.0.1:8787"), 8787, lo));
    assert!(safe_loopback_host(&one("localhost:8787"), 8787, lo));
    assert!(safe_loopback_host(&one("LocalHost:8787"), 8787, lo));
    assert!(safe_loopback_host(&one("[::1]:8787"), 8787, lo));
    assert!(safe_loopback_host(&one("127.1.2.3:8787"), 8787, lo));
    assert!(!safe_loopback_host(&one("evil.example:8787"), 8787, lo));
    assert!(!safe_loopback_host(&one("localhost:9999"), 8787, lo));
    assert!(!safe_loopback_host(&one("localhost"), 8787, lo));
    assert!(safe_loopback_host(&one("localhost"), 80, lo));
    assert!(!safe_loopback_host(&one("user@localhost:8787"), 8787, lo));
    assert!(!safe_loopback_host(&vec![], 8787, lo));
    assert!(!safe_loopback_host(
        &vec![b"localhost:8787".to_vec(), b"localhost:8787".to_vec()],
        8787,
        lo
    ));
    assert!(!safe_loopback_host(&vec![b"local\xffhost:8787".to_vec()], 8787, lo));
    let own = IpValue::V4(0x0a00_0005);
    assert!(safe_loopback_host(&one("10.0.0.5:8787"), 8787, own));
    assert!(!safe_loopback_host(&one("10.0.0.6:8787"), 8787, own));
}

#[test]
fn ip_addresses_read_as_std_reads_them() {
    let ip = |s: &str| parse_ip_addr(&s.chars().collect::<Vec<char>>());
    assert_eq!(ip("192.168.0.1"), Some(IpValue::V4(0xc0a8_0001)));
    assert_eq!(ip("::1"), Some(IpValue::V6(1)));
    assert_eq!(ip("fe80::1:2"), Some(IpValue::V6(0xfe80_0000_0000_0000_0000_0000_0001_0002)));
    assert_eq!(ip("1.2.3"), None);
    assert_eq!(ip("127.0.0.1x"), None);
    assert_eq!(ip("localhost"), None);
    assert!(ip_loopback(IpValue::V4(0x7f12_3456)));
    assert!(!ip_loopback(IpValue::V4(0x8000_0001)));
    assert!(ip_loopback(IpValue::V6(1)));
    assert!(!ip_loopback(IpValue::V6(2)));
}

#[test]
fn bearer_tokens_from_the_environment_must_be_url_safe() {
    assert_eq!(
        bearer_from_env("OMS_TOKEN", Some("abc-DEF_0.9~".into())),
        Ok("abc-DEF_0.9~".to_string())
    );
    assert_eq!(
        bearer_from_env("OMS_TOKEN", None),
        Err("api.token_env variable 'OMS_TOKEN' is missing or not Unicode".to_string())
    );
    let bad = Err("api.token_env variable 'OMS_TOKEN' must contain a non-empty URL-safe token (letters, digits, '-', '.', '_', '~')".to_string());
    assert_eq!(bearer_from_env("OMS_TOKEN", Some(String::new())), bad);
    assert_eq!(bearer_from_env("OMS_TOKEN", Some("a b".into())), bad);
    assert_eq!(bearer_from_env("OMS_TOKEN", Some("tök".into())), bad);
}

#[test]
fn empty_hex_write_is_rejected_before_touching_the_device() {
    assert_eq!(
        write_body_bytes(Some(""), None, true),
        Err("payload must not be empty".to_string())
    );
    assert_eq!(
        write_body_bytes(Some("  "), None, false),
        Err("payload must not be empty".to_string())
    );
    assert_eq!(
        write_body_bytes(None, Some(""), false),
        Err("payload must not be empty".to_string())
    );
    assert_eq!(write_body_bytes(None, Some(""), true).unwrap(), b"\n");
}

#[test]
fn hex_bodies_are_digit_pairs_only() {
    assert_eq!(parse_hex("00 01 02 ff").unwrap(), vec![0, 1, 2, 255]);
    assert_eq!(parse_hex("+f"), Err("bad hex: invalid digit found in string".to_string()));
    assert_eq!(parse_hex("-f"), Err("bad hex: invalid digit found in string".to_string()));
    assert_eq!(parse_hex("a\u{e9}b"), Err("bad hex: invalid digit found in string".to_string()));
    assert_eq!(parse_hex("\u{e9}"), Err("bad hex: invalid digit found in string".to_string()));
    assert_eq!(parse_hex("abc"), Err("hex length must be even".to_string()));
}
