//! What the server tells about itself and about the devices that it knows.
use crosspaste_server::admin::{
    clients, count_online, create_pairing, show_pairing, AdminClient, ListedClient,
};
use crosspaste_server::clock::{now_ms, now_ns, reading_ns, system_time_ms};
use crosspaste_server::config::{Config, HostAddress, ListenAddress};
use crosspaste_server::database::StoredClient;
use crosspaste_server::discovery::{
    discovery_outcome, plan_discovery, sanitize_host_label, DiscoveryError,
    CROSSPASTE_SERVICE_TYPE,
};
use crosspaste_server::hub::{Hub, LoadedClient};
use crosspaste_server::protocol::{
    DevicePublicInfo, CROSSPASTE_PATHS, PAIRING_VERSION, SYNC_API_VERSION,
};
use crosspaste_server::qr::render_qr_png;
use crosspaste_server::registry::Registry;
use crosspaste_server::secure::ServerKeys;
use crosspaste_server::sync_info::{
    build_server_sync_info, decode_qr_payload, default_prefix, encode_qr_payload,
    encode_sync_info_header, encode_txt_record, interface_rank, platform_name, qr_content_of,
    rotate_right, server_host_infos, Interface, QrPayloadError, SyncInfo,
};
use std::sync::Arc;

fn config() -> Config {
    Config {
        listen: ListenAddress {
            host: HostAddress { text: "0.0.0.0".to_string(), v6: false },
            unspecified: true,
            port: 39445,
        },
        auth_token: String::new(),
        max_body_bytes: 1024,
        device_ttl_secs: 120,
        room_ttl_secs: 600,
        max_inflight: 64,
        request_timeout_secs: 60,
        enable_mdns: true,
        public_host: None,
        network_interface: None,
        data_dir: "data".to_string(),
        server_instance_id: "crosspaste-server".to_string(),
        server_device_name: "CrossPaste Server".to_string(),
        server_user_name: "server".to_string(),
        log: "info".to_string(),
    }
}

fn interface(name: &str, octets: [u8; 4], prefix: u8) -> Interface {
    Interface {
        name: name.to_string(),
        up: true,
        loopback: false,
        link_local: false,
        point_to_point: false,
        v4: Some(octets),
        prefix,
    }
}

fn hosts(config: &Config, interfaces: &[Interface]) -> Vec<(String, i16)> {
    server_host_infos(config, interfaces)
        .into_iter()
        .map(|host| (host.host_address, host.network_prefix_length))
        .collect()
}

fn server_info() -> SyncInfo {
    build_server_sync_info(
        &config(),
        "linux",
        "x86_64",
        &[interface("eth0", [192, 168, 1, 2], 24)],
    )
}

#[test]
fn the_best_interface_is_told() {
    let mut all = vec![
        interface("docker0", [192, 168, 0, 1], 24),
        interface("other", [192, 168, 0, 2], 24),
        interface("WLAN0", [10, 0, 0, 3], 8),
        interface("en0", [172, 16, 0, 4], 16),
        interface("en1", [172, 31, 0, 5], 20),
        interface("en2", [172, 20, 0, 6], 20),
    ];
    assert_eq!(hosts(&config(), &all), vec![("172.31.0.5".to_string(), 20)]);
    all[4].up = false;
    assert_eq!(hosts(&config(), &all), vec![("172.20.0.6".to_string(), 20)]);
    all[5].loopback = true;
    assert_eq!(hosts(&config(), &all), vec![("172.16.0.4".to_string(), 16)]);
    all[3].link_local = true;
    assert_eq!(hosts(&config(), &all), vec![("10.0.0.3".to_string(), 8)]);
    all[2].point_to_point = true;
    assert_eq!(hosts(&config(), &all), vec![("192.168.0.2".to_string(), 24)]);
    all[1].v4 = None;
    assert_eq!(hosts(&config(), &all), vec![("192.168.0.1".to_string(), 24)]);
    let mut named = config();
    named.network_interface = Some("nothing".to_string());
    assert!(hosts(&named, &all).is_empty());
    named.network_interface = Some("docker0".to_string());
    assert_eq!(hosts(&named, &all).len(), 1);
}

#[test]
fn a_given_address_goes_before_interfaces() {
    let all = [interface("eth0", [192, 168, 1, 2], 24)];
    let mut listening = config();
    listening.listen.unspecified = false;
    listening.listen.host = HostAddress { text: "10.1.2.3".to_string(), v6: false };
    assert_eq!(hosts(&listening, &all), vec![("10.1.2.3".to_string(), 24)]);
    listening.public_host = Some(HostAddress { text: "2001:db8::1".to_string(), v6: true });
    assert_eq!(hosts(&listening, &all), vec![("2001:db8::1".to_string(), 64)]);
    assert_eq!(default_prefix(&HostAddress { text: String::new(), v6: false }), 24);
}

#[test]
fn interfaces_are_ranked() {
    let rank = |name: &str, octets: [u8; 4]| {
        let rank = interface_rank(name, &octets, 24);
        (rank.interface_type, rank.subnet)
    };
    assert_eq!(rank("EN0", [192, 168, 9, 9]), (0, 0));
    assert_eq!(rank("wlp3s0", [172, 15, 0, 1]), (0, 3));
    assert_eq!(rank("utun3", [172, 32, 0, 1]), (2, 3));
    assert_eq!(rank("veth1", [10, 1, 1, 1]), (2, 2));
    assert_eq!(rank("ppp0", [172, 16, 0, 1]), (1, 1));
    assert_eq!(rank("bridge0", [8, 8, 8, 8]), (2, 3));
}

#[test]
fn the_server_tells_about_itself() {
    let info = server_info();
    assert_eq!(info.app_info.app_instance_id, "crosspaste-server");
    assert_eq!(info.app_info.app_revision, "server");
    assert_eq!(info.app_info.pairing_version, Some(2));
    assert_eq!(info.endpoint_info.platform.name, "Linux");
    assert_eq!(info.endpoint_info.platform.version, "linux");
    assert_eq!(info.endpoint_info.platform.arch, "x86_64");
    assert_eq!(info.endpoint_info.platform.bit_mode, usize::BITS as i32);
    assert_eq!(info.endpoint_info.port, 39445);
    assert_eq!(platform_name("macos"), "Macos");
    assert_eq!(platform_name("windows"), "Windows");
    assert_eq!(platform_name("freebsd"), "Unknown");
    assert_eq!((SYNC_API_VERSION, PAIRING_VERSION), (3, 2));
    assert!(CROSSPASTE_PATHS.contains(&"/sync/telnet"));
}

#[test]
fn scanned_codes_give_back_what_was_put_in() {
    let json = br#"{"appInfo":{}}"#;
    for token in [0u32, 1, 13, 14, 123_456, u32::MAX] {
        let payload = encode_qr_payload(json, token);
        let (read, read_token) = decode_qr_payload(&payload).unwrap();
        assert_eq!(read, json);
        assert_eq!(read_token, token);
    }
    // "abc" rotated by 4 % 3, and the token 4.
    assert_eq!(encode_qr_payload(b"abc", 4), "Y2FiAAAABA==");
    assert_eq!(encode_qr_payload(b"", 4), "AAAABA==");
    assert_eq!(decode_qr_payload("AAAABA=="), Err(QrPayloadError::TooShort));
    let words = "Invalid symbol 37, offset 0.".to_string();
    assert_eq!(decode_qr_payload("%"), Err(QrPayloadError::Encoding(words.clone())));
    assert_eq!(decode_qr_payload("%").unwrap_err().message(), words);
    assert_eq!(decode_qr_payload("AAAABA==").unwrap_err().message(), "QR payload too short");
    assert_eq!(qr_content_of(Ok(b"cab\0\0\0\x04".to_vec())), Ok((b"abc".to_vec(), 4)));
    assert_eq!(rotate_right(b"abcd", 1), b"dabc");
    assert_eq!(rotate_right(b"abcd", 0), b"abcd");
    assert_eq!(rotate_right(b"", 0), b"");
    assert_eq!(rotate_right(b"", 3), b"");
}

#[test]
fn the_txt_record_is_numbered_pieces() {
    assert_eq!(encode_sync_info_header(b"hello"), "aGVsbG8=");
    let record = encode_txt_record(b"hello", 3);
    let expected = [("0", "aGV"), ("1", "sbG"), ("2", "8=")];
    assert_eq!(record.len(), 3);
    for ((key, value), (name, piece)) in record.iter().zip(expected) {
        assert_eq!((key.as_str(), value.as_str()), (name, piece));
    }
    assert_eq!(encode_txt_record(b"hello", 8).len(), 1);
    assert!(encode_txt_record(b"", 8).is_empty());
}

#[test]
fn host_labels_are_plain() {
    assert_eq!(sanitize_host_label("My Server_1"), "My-Server-1");
    assert_eq!(sanitize_host_label("--a.b--"), "a-b");
    assert_eq!(sanitize_host_label("\u{e9}"), "crosspaste-server");
    assert_eq!(sanitize_host_label(""), "crosspaste-server");
}

#[test]
fn the_server_announces_itself_or_says_why_not() {
    let plan = plan_discovery(&config(), &server_info(), b"{}").unwrap().unwrap();
    assert_eq!(plan.host_name, "crosspaste-server.local.");
    assert_eq!(plan.port, 39445);
    assert_eq!(plan.properties, vec![("0".to_string(), "e30=".to_string())]);
    assert_eq!(plan.announcements.len(), 1);
    assert_eq!(plan.announcements[0].address, "192.168.1.2");
    assert_eq!(plan.announcements[0].instance, "crosspaste@crosspaste-server@192_168_1_2");
    let mut silent = config();
    silent.enable_mdns = false;
    assert!(plan_discovery(&silent, &server_info(), b"{}").unwrap().is_none());
    let lost = build_server_sync_info(&config(), "linux", "x86_64", &[]);
    let error = plan_discovery(&config(), &lost, b"{}").unwrap_err();
    assert_eq!(error, DiscoveryError::NoInterface);
    assert_eq!(
        error.message(),
        "no routable network interface found; set CROSSPASTE_SERVER_PUBLIC_HOST"
    );
    assert_eq!(discovery_outcome(1), Ok(()));
    assert_eq!(discovery_outcome(0), Err(DiscoveryError::NoneRegistered));
    assert_eq!(
        DiscoveryError::NoneRegistered.message(),
        "failed to register mDNS on all interfaces"
    );
    assert_eq!(CROSSPASTE_SERVICE_TYPE, "_crosspasteService._tcp.local.");
}

#[test]
fn codes_to_scan_are_drawn() {
    let png = render_qr_png("hello").unwrap();
    assert_eq!(png[..8], [0x89, b'P', b'N', b'G', 0x0d, 0x0a, 0x1a, 0x0a]);
    let size = u32::from_be_bytes([png[16], png[17], png[18], png[19]]);
    assert!(size >= 320);
    assert_eq!(render_qr_png("hello").unwrap(), png);
    assert_ne!(render_qr_png("other").unwrap(), png);
    assert_eq!(render_qr_png(&"x".repeat(8000)), Err("data too long".to_string()));
}

#[test]
fn an_administrator_opens_a_pairing() {
    let mut hub = Hub::load_or_create(ServerKeys::generate(), Vec::new());
    let shown = show_pairing("admin", 42, b"{}", 1_000).unwrap();
    assert_eq!(shown.code, "000042");
    assert_eq!(shown.expires_at_ms, 31_000);
    assert_eq!(shown.audit.action, "pairing_code_created");
    assert_eq!(shown.audit.detail, "token 000042");
    assert!(shown.qr_data_uri.starts_with("data:image/png;base64,"));
    let opened = create_pairing(&mut hub, "admin", b"{}", 1_000).unwrap();
    assert_eq!(hub.pairing_challenges(1_000)[0].code, opened.code);
    assert!(create_pairing(&mut hub, "admin", &[b'x'; 8000], 1_000).is_err());
}

fn stored(id: &str, last_seen_ms: Option<i64>) -> ListedClient {
    ListedClient {
        client: StoredClient {
            app_instance_id: id.to_string(),
            paired_at_ms: 5,
            crypt_public_key: Vec::new(),
            sync_info_json: None,
            last_seen_ms,
        },
        info: None,
    }
}

#[test]
fn devices_are_listed_for_administrators() {
    let mut told = server_info();
    told.endpoint_info.device_name = "Alpha".to_string();
    let loaded = LoadedClient { client: stored("hub-known", None).client, sync_info: Some(told) };
    let hub = Hub::load_or_create(ServerKeys::generate(), vec![loaded]);
    let mut registry = Registry::new(Arc::new(config()));
    registry.register_device(
        "tunnelled".to_string(),
        Some("Zulu".to_string()),
        Some("9.9".to_string()),
        None,
        77,
    );
    let now = 100_000;
    let devices = clients(
        server_info(),
        &[
            stored("tunnelled", Some(1)),
            stored("stale", Some(now - 45_001)),
            stored("hub-known", None),
            stored("recent", Some(now - 45_000)),
            stored("ahead", Some(i64::MAX)),
        ],
        &hub,
        &registry,
        now,
    );
    let listed: Vec<(&str, &str, bool)> = devices
        .iter()
        .map(|device| {
            (device.app_instance_id.as_str(), device.device_name.as_str(), device.online)
        })
        .collect();
    assert_eq!(
        listed,
        vec![
            ("crosspaste-server", "CrossPaste Server", true),
            ("tunnelled", "Zulu", true),
            ("ahead", "ahead", true),
            ("recent", "recent", true),
            ("hub-known", "Alpha", false),
            ("stale", "stale", false),
        ]
    );
    assert!(devices[0].is_server && devices[0].last_seen_ms == Some(now));
    assert_eq!(devices[0].addresses, vec!["192.168.1.2"]);
    assert_eq!(devices[1].last_seen_ms, Some(77));
    assert_eq!(devices[1].app_version, "9.9");
    assert_eq!(devices[1].platform_name, "Unknown");
    assert_eq!(devices[4].device_id.as_deref(), Some("crosspaste-server"));
    assert_eq!(devices[4].paired_at_ms, Some(5));
    let alone = AdminClient::from_client(&stored("x", None).client, None, None, false);
    assert_eq!(alone.app_version, "");
    assert_eq!(alone.port, None);
}

#[test]
fn a_device_counts_as_online_once() {
    let device = |id: &str| DevicePublicInfo {
        app_instance_id: id.to_string(),
        device_name: None,
        app_version: None,
        online: true,
        last_seen_ms: 0,
    };
    let recent = vec!["a".to_string(), "b".to_string(), "a".to_string()];
    assert_eq!(count_online(&recent, &vec![device("b"), device("c")]), 3);
    assert_eq!(count_online(&Vec::new(), &Vec::new()), 0);
}

#[test]
fn time_is_counted_from_the_epoch() {
    assert_eq!(system_time_ms(1_999_999), 1);
    assert_eq!(system_time_ms(-1), 0);
    assert_eq!(reading_ns(Ok(5)), 5);
    assert_eq!(reading_ns(Err(5)), -5);
    assert_eq!(reading_ns(Ok(u128::MAX)), i128::MAX);
    assert_eq!(reading_ns(Err(u128::MAX)), i128::MIN);
    assert!(now_ms() > 1_600_000_000_000);
    assert!(now_ns() > 1_600_000_000_000_000_000);
}
