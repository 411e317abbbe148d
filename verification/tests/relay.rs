//! The relay: tunnels, requests into them, and rooms.
use crosspaste_server::agent::{answer_frame, local_request, local_url, tunnel_url, LocalAnswer};
use crosspaste_server::auth::{check_auth, check_auth_query};
use crosspaste_server::config::{Config, HostAddress, ListenAddress};
use crosspaste_server::error::RelayError;
use crosspaste_server::headers::Header;
use crosspaste_server::protocol::{PeerEventKind, TunnelFrame, RELAY_VERSION};
use crosspaste_server::proxy::{
    build_request, build_response, header_map_to_plain, request_from, require_source_app_instance,
    resolve_target, unreadable_body,
};
use crosspaste_server::registry::{room_code_from, Registry, RequestOutcome};
use crosspaste_server::routes;
use crosspaste_server::tunnel::{Tunnel, TunnelMessage};
use std::sync::Arc;

fn config() -> Config {
    Config {
        listen: ListenAddress {
            host: HostAddress { text: "0.0.0.0".to_string(), v6: false },
            unspecified: true,
            port: 39445,
        },
        auth_token: String::new(),
        max_body_bytes: 1024,
        device_ttl_secs: 120,
        room_ttl_secs: 600,
        max_inflight: 2,
        request_timeout_secs: 60,
        enable_mdns: true,
        public_host: None,
        network_interface: None,
        data_dir: "data".to_string(),
        server_instance_id: "crosspaste-server".to_string(),
        server_device_name: "CrossPaste Server".to_string(),
        server_user_name: "server".to_string(),
        log: "info".to_string(),
    }
}

fn header(name: &str, value: &str) -> Header {
    Header { name: name.to_string(), text: Some(value.to_string()) }
}

fn registry() -> Registry {
    Registry::new(Arc::new(config()))
}

fn hello(id: &str) -> TunnelMessage {
    TunnelMessage::Frame(TunnelFrame::Hello {
        app_instance_id: id.to_string(),
        device_name: Some("A".to_string()),
        app_version: Some("0.1.0".to_string()),
        sync_info_b64: None,
    })
}

fn register(registry: &mut Registry, id: &str, now_ms: i64) -> String {
    registry.register_device(id.to_string(), None, None, None, now_ms).session_id
}

fn start(registry: &mut Registry, request_id: &str, target: &str) -> Result<String, RelayError> {
    registry
        .start_request(
            request_id.to_string(),
            target,
            "GET".to_string(),
            "/sync/telnet".to_string(),
            Vec::new(),
            None,
            5_000_000_000,
        )
        .map(|started| started.outgoing.session_id)
}

fn response(request_id: &str) -> TunnelFrame {
    TunnelFrame::HttpResponse {
        request_id: request_id.to_string(),
        status: 200,
        headers: vec![("content-type".to_string(), "text/plain".to_string())],
        body_b64: Some("aGVsbG8=".to_string()),
        error: None,
    }
}

#[test]
fn tunnel_proxy_roundtrip() {
    let mut registry = registry();
    let mut tunnel = Tunnel::new();
    let step = tunnel.on_message(&mut registry, hello("device-a"), 1_000);
    match step.send {
        Some(TunnelFrame::HelloAck { session_id, relay_version }) => {
            assert_eq!(Some(session_id), tunnel.session_id);
            assert_eq!(relay_version, RELAY_VERSION);
        }
        other => panic!("expected an acknowledgement, got {other:?}"),
    }
    assert_eq!(routes::health(&mut registry, 0).online_devices, 1);

    let request = [
        header("appinstanceid", "device-b"),
        header("targetappinstanceid", "device-a"),
        header("content-type", "application/json"),
    ];
    let to = routes::proxy_path(&config(), &request, "device-a", "sync/paste", None).unwrap();
    assert_eq!(to.target, "device-a");
    let passed = build_request(&to.target, "POST", &to.path, &request, br#"{"cipher":"opaque"}"#)
        .unwrap();
    assert_eq!(passed.path, "/sync/paste");
    let started = registry
        .proxy_http(
            &to.target,
            passed.method,
            passed.path,
            passed.headers,
            passed.body_b64,
            2_000_000_000,
        )
        .unwrap();
    assert_eq!(Some(&started.outgoing.session_id), tunnel.session_id.as_ref());
    let request_id = match started.outgoing.frame {
        TunnelFrame::HttpRequest { request_id, method, body_b64, .. } => {
            assert_eq!(method, "POST");
            assert_eq!(body_b64.as_deref(), Some("eyJjaXBoZXIiOiJvcGFxdWUifQ=="));
            request_id
        }
        other => panic!("expected a request, got {other:?}"),
    };
    assert_eq!(request_id, started.request_id);

    let answer = TunnelMessage::Frame(response(&request_id));
    let step = tunnel.on_message(&mut registry, answer, 3_000);
    let reply = step.reply.unwrap();
    assert_eq!(reply.request_id, request_id);
    let frame = registry
        .finish_request(
            "device-a",
            &started.outgoing.session_id,
            &request_id,
            RequestOutcome::Answered(reply.frame),
        )
        .unwrap();
    let answer = build_response(frame).unwrap();
    assert_eq!(answer.status, 200);
    assert_eq!(answer.body, b"hello");
    assert_eq!(answer.headers, vec![("content-type".to_string(), "text/plain".to_string())]);
}

#[test]
fn a_newer_tunnel_takes_the_place_of_an_older_one() {
    let mut registry = registry();
    let first = register(&mut registry, "a", 1);
    let second = registry.register_device("a".to_string(), None, None, None, 2);
    let told = second.replaced.unwrap();
    assert_eq!(told.session_id, first);
    assert!(matches!(told.frame, TunnelFrame::Error { message }
        if message == "session replaced by a new connection"));
    assert!(registry.unregister_device("a", &first).is_empty());
    assert_eq!(registry.online_count(), 1);
    assert_eq!(start(&mut registry, "r1", "a").unwrap(), second.session_id);
    let replies = registry.unregister_device("a", &second.session_id);
    assert_eq!(replies.len(), 1);
    assert_eq!(replies[0].request_id, "r1");
    assert!(matches!(&replies[0].frame, TunnelFrame::Error { message }
        if message == "device disconnected"));
    assert_eq!(registry.online_count(), 0);
}

#[test]
fn too_many_requests_are_turned_away() {
    let mut registry = registry();
    assert!(matches!(start(&mut registry, "r0", "a"), Err(RelayError::DeviceOffline(id)) if id == "a"));
    let session = register(&mut registry, "a", 1);
    assert!(start(&mut registry, "r1", "a").is_ok());
    assert!(start(&mut registry, "r2", "a").is_ok());
    assert!(matches!(start(&mut registry, "r3", "a"), Err(RelayError::DeviceBusy)));
    let timed_out = registry.finish_request("a", &session, "r1", RequestOutcome::TimedOut);
    assert!(matches!(timed_out, Err(RelayError::ProxyTimeout)));
    assert!(start(&mut registry, "r4", "a").is_ok());
    let closed = registry.finish_request("a", &session, "r4", RequestOutcome::Closed);
    assert!(matches!(closed, Err(RelayError::Internal(words)) if words == "response channel closed"));
    assert!(start(&mut registry, "r5", "a").is_ok());
    let lost = registry.finish_request("a", &session, "r5", RequestOutcome::NotSent);
    assert!(matches!(lost, Err(RelayError::DeviceOffline(id)) if id == "a"));
    assert_eq!(registry.get_device("a").unwrap().pending.len(), 1);
}

#[test]
fn an_answer_reaches_one_request_once() {
    let mut registry = registry();
    register(&mut registry, "a", 1);
    start(&mut registry, "r1", "a").unwrap();
    assert!(registry.complete_request("a", TunnelFrame::Ping { ts: 1 }).is_none());
    assert!(registry.complete_request("b", response("r1")).is_none());
    assert_eq!(registry.complete_request("a", response("r1")).unwrap().request_id, "r1");
    assert!(registry.complete_request("a", response("r1")).is_none());
    assert_eq!(registry.get_device("a").unwrap().last_seen_ms, 5_000);
}

#[test]
fn silent_devices_are_let_go() {
    let mut registry = registry();
    register(&mut registry, "old", 0);
    register(&mut registry, "new", 0);
    start(&mut registry, "r1", "old").unwrap();
    registry.touch_device("old", 0);
    registry.touch_device("new", 1);
    registry.touch_device("nobody", 7);
    assert!(registry.gc_stale_devices(120_000).is_empty());
    let replies = registry.gc_stale_devices(120_001);
    assert_eq!(replies.len(), 1);
    assert_eq!(replies[0].request_id, "r1");
    let left = registry.list_devices();
    assert_eq!(left.len(), 1);
    assert_eq!(left[0].app_instance_id, "new");
    assert!(left[0].online);
    assert_eq!(left[0].last_seen_ms, 1);
}

#[test]
fn rooms_open_fill_and_close() {
    let mut registry = registry();
    let now = 10_000_000_000i128;
    let info = registry.create_room(now);
    assert_eq!(info.room_code.len(), 6);
    assert!(info.room_code.chars().all(|c| "ABCDEFGHJKLMNPQRSTUVWXYZ23456789".contains(c)));
    assert_eq!(info.expires_at_ms, 610_000);
    let code = info.room_code;
    register(&mut registry, "m0", 4);
    let joined = registry.join_room(&code, "m0", now).unwrap();
    assert_eq!(joined.members.len(), 1);
    assert_eq!(joined.members[0].app_instance_id, "m0");
    assert_eq!(registry.join_room(&code, "m1", now).unwrap().members.len(), 1);
    for i in 2..32 {
        assert!(registry.join_room(&code, &format!("m{i}"), now).is_ok());
    }
    assert!(matches!(registry.join_room(&code, "m32", now), Err(RelayError::RoomFull)));
    assert!(matches!(registry.join_room(&code, "m0", now), Err(RelayError::RoomFull)));
    registry.leave_room(&code, "m31");
    assert!(registry.join_room(&code, "m0", now).is_ok());
    for i in 0..31 {
        assert_eq!(registry.room_count(), 1);
        registry.leave_room(&code, &format!("m{i}"));
    }
    assert_eq!(registry.room_count(), 0);
    assert!(matches!(registry.room_info(&code, now), Err(RelayError::RoomNotFound)));
    registry.leave_room(&code, "m0");
}

#[test]
fn a_room_ends_with_its_time() {
    let mut registry = registry();
    let code = registry.open_room("ROOM22".to_string(), 0).room_code;
    let end = 600_000_000_000i128;
    assert!(registry.join_room(&code, "a", end - 1).is_ok());
    assert!(registry.room_info(&code, end - 1).is_ok());
    assert!(matches!(registry.join_room(&code, "a", end), Err(RelayError::RoomNotFound)));
    assert_eq!(registry.room_count(), 0);
}

#[test]
fn room_codes_follow_from_random_bytes() {
    let mut bytes = [0u8; 16];
    bytes[..6].copy_from_slice(&[0, 23, 24, 31, 32, 255]);
    assert_eq!(room_code_from(&bytes), "AZ29A9");
}

#[test]
fn tunnel_frames_are_answered() {
    let mut registry = registry();
    let mut tunnel = Tunnel::new();
    let step = tunnel.on_message(&mut registry, hello("  "), 1);
    assert!(matches!(step.send, Some(TunnelFrame::Error { message })
        if message == "app_instance_id required"));
    assert!(tunnel.app_instance_id.is_none());
    let bad = TunnelMessage::BadFrame("expected value".to_string());
    let step = tunnel.on_message(&mut registry, bad, 1);
    assert!(matches!(step.send, Some(TunnelFrame::Error { message })
        if message == "invalid frame: expected value"));
    let step = tunnel.on_message(&mut registry, TunnelMessage::Frame(response("r1")), 1);
    assert!(step.send.is_none() && step.reply.is_none() && step.open);
    tunnel.on_message(&mut registry, hello("a"), 1);
    let ping = TunnelMessage::Frame(TunnelFrame::Ping { ts: 77 });
    let step = tunnel.on_message(&mut registry, ping, 50);
    assert!(matches!(step.send, Some(TunnelFrame::Pong { ts: 77 })));
    assert_eq!(registry.get_device("a").unwrap().last_seen_ms, 50);
    let pong = TunnelMessage::Frame(TunnelFrame::Pong { ts: 1 });
    assert!(tunnel.on_message(&mut registry, pong, 60).send.is_none());
    assert_eq!(registry.get_device("a").unwrap().last_seen_ms, 60);
    let step = tunnel.on_message(&mut registry, TunnelMessage::Ping, 99);
    assert!(matches!(step.send, Some(TunnelFrame::Pong { ts: 99 })));
    assert!(tunnel.on_message(&mut registry, TunnelMessage::Binary, 99).open);
    assert!(tunnel.on_message(&mut registry, TunnelMessage::Pong, 99).open);
    assert!(!tunnel.on_message(&mut registry, TunnelMessage::Close, 99).open);
    start(&mut registry, "r9", "a").unwrap();
    let replies = tunnel.on_end(&mut registry);
    assert_eq!(replies.len(), 1);
    assert_eq!(registry.online_count(), 0);
    assert!(Tunnel::new().on_end(&mut registry).is_empty());
}

#[test]
fn the_shared_secret_is_asked_for() {
    let open = config();
    assert!(check_auth(&open, &[]).is_ok());
    assert!(check_auth_query(&open, None).is_ok());
    let mut guarded = config();
    guarded.auth_token = "s3cret".to_string();
    assert!(matches!(check_auth(&guarded, &[]), Err(RelayError::Unauthorized)));
    assert!(check_auth(&guarded, &[header("x-relay-token", "s3cret")]).is_ok());
    assert!(check_auth(&guarded, &[header("Authorization", " Bearer s3cret ")]).is_ok());
    assert!(check_auth(&guarded, &[header("x-crosspaste-server-token", "s3cret")]).is_ok());
    assert!(check_auth(&guarded, &[header("X-CrossPaste-Server-Token", "other")]).is_err());
    let own_last = [header("x-crosspaste-server-token", "other"), header("x-relay-token", "s3cret")];
    assert!(check_auth(&guarded, &own_last).is_ok());
    let own_last = [header("x-crosspaste-server-token", "other"), header("authorization", "s3cret")];
    assert!(check_auth(&guarded, &own_last).is_ok());
    let wrong = [header("x-relay-token", "other"), header("x-crosspaste-server-token", "s3cret")];
    assert!(check_auth(&guarded, &wrong).is_err());
    let wrong = [header("authorization", "other"), header("x-crosspaste-server-token", "s3cret")];
    assert!(check_auth(&guarded, &wrong).is_err());
    assert!(check_auth(&guarded, &[header("authorization", "Bearer other")]).is_err());
    let both = [header("authorization", "s3cret"), header("x-relay-token", "other")];
    assert!(check_auth(&guarded, &both).is_err());
    let unreadable = Header { name: "x-relay-token".to_string(), text: None };
    assert!(check_auth(&guarded, &[unreadable, header("authorization", "s3cret")]).is_err());
    assert!(check_auth_query(&guarded, Some("s3cret")).is_ok());
    assert!(check_auth_query(&guarded, Some("S3cret")).is_err());
    assert!(check_auth_query(&guarded, None).is_err());
}

#[test]
fn routes_check_the_caller_and_the_body() {
    let mut guarded = config();
    guarded.auth_token = "s3cret".to_string();
    let mut registry = registry();
    let shown = [header("x-relay-token", "s3cret")];
    assert!(routes::list_devices(&guarded, &registry, &[]).is_err());
    assert_eq!(routes::list_devices(&guarded, &registry, &shown).unwrap().len(), 0);
    assert!(routes::create_room(&guarded, &mut registry, &[], 0).is_err());
    assert_eq!(registry.room_count(), 0);
    let room = routes::create_room(&guarded, &mut registry, &shown, 0).unwrap();
    let code = room.room_code.as_str();
    assert!(routes::get_room(&guarded, &mut registry, &[], code, 0).is_err());
    assert_eq!(
        routes::get_room(&guarded, &mut registry, &shown, code, 0).unwrap().expires_at_ms,
        room.expires_at_ms
    );
    assert!(matches!(
        routes::join_room(&guarded, &mut registry, &shown, code, " \t", 0),
        Err(RelayError::MissingAppInstanceId)
    ));
    register(&mut registry, "by-header", 0);
    let named = [header("x-relay-token", "s3cret"), header("appInstanceId", "by-header")];
    let info = routes::join_room(&guarded, &mut registry, &named, code, "by-body", 0).unwrap();
    assert_eq!(info.members[0].app_instance_id, "by-header");
    assert!(routes::leave_room(&guarded, &mut registry, &[], code, "by-header").is_err());
    assert!(routes::leave_room(&guarded, &mut registry, &shown, code, "by-header").is_ok());
    assert_eq!(registry.room_count(), 0);

    assert!(matches!(
        routes::proxy_header_target(&guarded, &shown, "p", None),
        Err(RelayError::BadRequest(words))
            if words == "missing targetAppInstanceId (header or path)"
    ));
    let half = [header("x-relay-token", "s3cret"), header("targetAppInstanceId", "t")];
    assert!(matches!(
        routes::proxy_header_target(&guarded, &half, "p", None),
        Err(RelayError::MissingAppInstanceId)
    ));
    let whole = [
        header("x-relay-token", "s3cret"),
        header("targetAppInstanceId", "t"),
        header("appInstanceId", "s"),
    ];
    let to = routes::proxy_header_target(&guarded, &whole, "sync/paste", Some("a=b")).unwrap();
    assert_eq!((to.target.as_str(), to.path.as_str()), ("t", "/sync/paste?a=b"));
    assert!(routes::proxy_path(&guarded, &[], "t", "p", None).is_err());
}

#[test]
fn paths_get_a_slash_and_keep_their_query() {
    assert_eq!(routes::normalize_path("sync/paste", None), "/sync/paste");
    assert_eq!(routes::normalize_path("/sync/paste", Some("x=1")), "/sync/paste?x=1");
    assert_eq!(routes::normalize_path("", None), "/");
}

#[test]
fn the_target_is_found_in_path_or_headers() {
    let named = [header("TargetAppInstanceId", "t")];
    assert_eq!(resolve_target(&named, Some("p")).unwrap(), "p");
    assert_eq!(resolve_target(&named, Some("")).unwrap(), "t");
    assert_eq!(resolve_target(&named, None).unwrap(), "t");
    assert!(resolve_target(&[], Some("")).is_err());
    assert_eq!(require_source_app_instance(&[header("appinstanceid", "s")]).unwrap(), "s");
    assert!(matches!(
        require_source_app_instance(&[]),
        Err(RelayError::MissingAppInstanceId)
    ));
}

#[test]
fn headers_of_one_connection_stay_behind() {
    let request = [
        header("host", "example"),
        header("Connection", "close"),
        header("content-length", "3"),
        header("x-a", "1"),
        Header { name: "x-binary".to_string(), text: None },
        header("x-a", "2"),
    ];
    assert_eq!(header_map_to_plain(&request), vec![("x-a".to_string(), "2".to_string())]);
    let passed = build_request("t", "GET", "/p?q=1#f", &request, &[]).unwrap();
    assert_eq!(passed.path, "/p?q=1");
    assert_eq!(passed.body_b64, None);
    assert_eq!(
        passed.headers,
        vec![
            ("x-a".to_string(), "2".to_string()),
            ("targetAppInstanceId".to_string(), "t".to_string()),
        ]
    );
    let own = [header("targetAppInstanceId", "other")];
    let passed = request_from(Ok(("/p".to_string(), None)), "t", "GET", &own, b"x").unwrap();
    assert_eq!(passed.headers, vec![("targetAppInstanceId".to_string(), "other".to_string())]);
    assert_eq!(passed.body_b64.as_deref(), Some("eA=="));
    assert!(matches!(
        build_request("t", "GET", "/a b", &[], &[]),
        Err(RelayError::Internal(words)) if words == "invalid uri character"
    ));
    assert!(matches!(
        unreadable_body("length limit exceeded"),
        RelayError::BadRequest(words) if words == "read body: length limit exceeded"
    ));
}

#[test]
fn answers_are_passed_on_or_explained() {
    let answer = TunnelFrame::HttpResponse {
        request_id: "r".to_string(),
        status: 99,
        headers: vec![
            ("X-One".to_string(), "1".to_string()),
            ("x-one".to_string(), "2".to_string()),
            ("bad name".to_string(), "1".to_string()),
            ("".to_string(), "1".to_string()),
            ("x-\u{e9}".to_string(), "1".to_string()),
            ("y".repeat(65_536), "1".to_string()),
            ("Z".repeat(65_535), "1".to_string()),
            ("Content-Type!#$%&'*+-.^_`|~09".to_string(), "1".to_string()),
            ("x-bad".to_string(), "a\nb".to_string()),
            ("x-tab".to_string(), "a\tb".to_string()),
            ("Transfer-Encoding".to_string(), "chunked".to_string()),
        ],
        body_b64: None,
        error: None,
    };
    let passed = build_response(answer).unwrap();
    assert_eq!(passed.status, 502);
    assert!(passed.body.is_empty());
    assert_eq!(
        passed.headers,
        vec![
            ("x-one".to_string(), "2".to_string()),
            ("z".repeat(65_535), "1".to_string()),
            ("content-type!#$%&'*+-.^_`|~09".to_string(), "1".to_string()),
            ("x-tab".to_string(), "a\tb".to_string()),
        ]
    );
    let broken = TunnelFrame::HttpResponse {
        request_id: "r".to_string(),
        status: 999,
        headers: Vec::new(),
        body_b64: Some("!".to_string()),
        error: None,
    };
    assert!(matches!(build_response(broken), Err(RelayError::Internal(words))
        if words.starts_with("bad body b64: ") && words.len() > "bad body b64: ".len()));
    let failed = TunnelFrame::HttpResponse {
        request_id: "r".to_string(),
        status: 502,
        headers: Vec::new(),
        body_b64: None,
        error: Some("no local server".to_string()),
    };
    assert!(matches!(build_response(failed), Err(RelayError::Internal(words))
        if words == "no local server"));
    let error = TunnelFrame::Error { message: "device disconnected".to_string() };
    assert!(matches!(build_response(error), Err(RelayError::Internal(words))
        if words == "device disconnected"));
}

#[test]
fn unexpected_frames_are_described() {
    let cases = [
        (TunnelFrame::Ping { ts: -5 }, "Ping { ts: -5 }"),
        (TunnelFrame::Pong { ts: 6 }, "Pong { ts: 6 }"),
        (
            TunnelFrame::Hello {
                app_instance_id: "a\"b".to_string(),
                device_name: Some("n".to_string()),
                app_version: None,
                sync_info_b64: None,
            },
            r#"Hello { app_instance_id: "a\"b", device_name: Some("n"), app_version: None, sync_info_b64: None }"#,
        ),
        (
            TunnelFrame::HelloAck { session_id: "s".to_string(), relay_version: "v".to_string() },
            r#"HelloAck { session_id: "s", relay_version: "v" }"#,
        ),
        (
            TunnelFrame::HttpRequest {
                request_id: "r".to_string(),
                method: "GET".to_string(),
                path: "/".to_string(),
                headers: vec![
                    ("a".to_string(), "1".to_string()),
                    ("b".to_string(), "2".to_string()),
                ],
                body_b64: None,
            },
            r#"HttpRequest { request_id: "r", method: "GET", path: "/", headers: {"a": "1", "b": "2"}, body_b64: None }"#,
        ),
        (
            TunnelFrame::PeerEvent {
                event: PeerEventKind::Offline,
                app_instance_id: "p".to_string(),
            },
            r#"PeerEvent { event: Offline, app_instance_id: "p" }"#,
        ),
    ];
    for (frame, words) in cases {
        match build_response(frame) {
            Err(RelayError::Internal(message)) => {
                assert_eq!(message, format!("unexpected tunnel frame: {words}"));
            }
            other => panic!("expected an error, got {other:?}"),
        }
    }
}

#[test]
fn refusals_have_status_code_and_words() {
    let cases = [
        (RelayError::Unauthorized, 401, 2003, "unauthorized"),
        (RelayError::MissingAppInstanceId, 400, 1000, "missing appInstanceId"),
        (RelayError::DeviceOffline("x".to_string()), 404, 1000, "device not online: x"),
        (RelayError::DeviceBusy, 429, 0, "device busy or overloaded"),
        (RelayError::ProxyTimeout, 504, 0, "proxy timeout"),
        (RelayError::BadRequest("x".to_string()), 400, 2, "invalid request: x"),
        (RelayError::RoomNotFound, 404, 3, "room not found or expired"),
        (RelayError::RoomFull, 429, 2, "room full"),
        (RelayError::Internal("x".to_string()), 500, 0, "internal: x"),
    ];
    for (error, status, code, words) in cases {
        assert_eq!(error.status(), status);
        assert_eq!(error.code(), code);
        assert_eq!(error.message(), words);
        let (shown, body) = error.fail_response();
        assert_eq!((shown, body.error_code), (status, code));
        assert_eq!(body.message, words);
    }
}

#[test]
fn durations_are_in_milliseconds() {
    let config = config();
    assert_eq!(config.device_ttl(), 120_000);
    assert_eq!(config.room_ttl(), 600_000);
    assert_eq!(config.request_timeout(), 60_000);
    assert!(!config.auth_required());
}

#[test]
fn the_agent_forwards_and_answers() {
    assert_eq!(tunnel_url("ws://r/t", ""), "ws://r/t");
    assert_eq!(tunnel_url("ws://r/t", "k"), "ws://r/t?token=k");
    assert_eq!(tunnel_url("ws://r/t?a=b", "k"), "ws://r/t?a=b&token=k");
    assert_eq!(local_url("http://l:1//", "p"), "http://l:1/p");
    assert_eq!(local_url("http://l:1", "/p"), "http://l:1/p");
    let headers = vec![
        ("Host".to_string(), "h".to_string()),
        ("Content-Length".to_string(), "1".to_string()),
        ("x".to_string(), "1".to_string()),
    ];
    let request =
        local_request("http://l", "PUT", "/p", &headers, &Some("aGk=".to_string())).unwrap();
    assert_eq!(request.method, "PUT");
    assert_eq!(request.url, "http://l/p");
    assert_eq!(request.headers, vec![("x".to_string(), "1".to_string())]);
    assert_eq!(request.body.as_deref(), Some(&b"hi"[..]));
    assert!(local_request("http://l", "PUT", "/p", &headers, &None).unwrap().body.is_none());
    assert!(local_request("http://l", "PUT", "/p", &headers, &Some("?".to_string())).is_err());

    let answer = LocalAnswer { status: 204, headers: Vec::new(), body: b"hi".to_vec() };
    assert!(matches!(
        answer_frame("r".to_string(), Ok(answer)),
        TunnelFrame::HttpResponse { status: 204, body_b64: Some(body), error: None, .. }
            if body == "aGk="
    ));
    let early = LocalAnswer { status: 101, headers: Vec::new(), body: Vec::new() };
    assert!(matches!(
        answer_frame("r".to_string(), Ok(early)),
        TunnelFrame::HttpResponse { status: 502, error: Some(words), .. }
            if words == "unexpected status 101"
    ));
    assert!(matches!(
        answer_frame("r".to_string(), Err("refused".to_string())),
        TunnelFrame::HttpResponse { status: 502, error: Some(words), .. } if words == "refused"
    ));
}

#[test]
fn a_local_answer_comes_out_as_it_went_in() {
    for body in [Vec::new(), vec![0, 255, 10, 13], b"{\"cipher\":\"opaque\"}".to_vec()] {
        let answer = LocalAnswer {
            status: 418,
            headers: vec![
                ("x-kept".to_string(), "1".to_string()),
                ("Connection".to_string(), "close".to_string()),
            ],
            body: body.clone(),
        };
        let response = build_response(answer_frame("r".to_string(), Ok(answer))).unwrap();
        assert_eq!(response.status, 418);
        assert_eq!(response.headers, vec![("x-kept".to_string(), "1".to_string())]);
        assert_eq!(response.body, body);
    }
}

#[test]
fn a_method_that_is_none_becomes_get() {
    let made = |method: &str| {
        local_request("http://h", method, "/", &Vec::new(), &None).unwrap().method
    };
    assert_eq!(made("POST"), "POST");
    assert_eq!(made("x-own!#$%&'*+-.^_`|~9"), "x-own!#$%&'*+-.^_`|~9");
    assert_eq!(made(""), "GET");
    assert_eq!(made("PO ST"), "GET");
    assert_eq!(made("P/T"), "GET");
    assert_eq!(made("POST\u{e9}"), "GET");
}

#[test]
fn each_waiting_request_of_a_stale_device_is_told_once() {
    let mut registry = registry();
    register(&mut registry, "a", 0);
    register(&mut registry, "b", 0);
    register(&mut registry, "c", 0);
    let sent = [("r1", "a", 0), ("same", "a", 0), ("same", "b", 0), ("r3", "c", 100)];
    for (id, target, seconds) in sent {
        registry
            .start_request(
                id.to_string(),
                target,
                "GET".to_string(),
                "/".to_string(),
                Vec::new(),
                None,
                seconds * 1_000_000_000,
            )
            .unwrap();
    }
    let mut told: Vec<String> = registry
        .gc_stale_devices(120_001)
        .into_iter()
        .map(|reply| reply.request_id)
        .collect();
    told.sort();
    assert_eq!(registry.online_count(), 1);
    assert_eq!(told, ["r1", "same", "same"]);
}
