//! Broadcasts to several clients, from beginning to end.
use base64::engine::general_purpose::STANDARD;
use base64::Engine;
use crosspaste_server::broadcast::{PasteRun, PushAction, PushEvent, PushRun};
use crosspaste_server::database::StoredClient;
use crosspaste_server::delivery::Call;
use crosspaste_server::hub::{Hub, LoadedClient, PushPrepareResponse};
use crosspaste_server::secure::ServerKeys;
use crosspaste_server::sync_info::{AppInfo, EndpointInfo, HostInfo, PlatformInfo, SyncInfo};

fn document(keys: &ServerKeys) -> Vec<u8> {
    STANDARD.decode(keys.crypt_public_key_der_b64().unwrap()).unwrap()
}

fn loaded(id: &str, key: Vec<u8>, hosts: &[&str]) -> LoadedClient {
    LoadedClient {
        client: StoredClient {
            app_instance_id: id.to_string(),
            paired_at_ms: 1,
            crypt_public_key: key,
            sync_info_json: None,
            last_seen_ms: None,
        },
        sync_info: Some(SyncInfo {
            app_info: AppInfo {
                app_instance_id: id.to_string(),
                app_version: "1".to_string(),
                app_revision: "r".to_string(),
                user_name: "u".to_string(),
                pairing_version: None,
            },
            endpoint_info: EndpointInfo {
                device_id: "d".to_string(),
                device_name: "n".to_string(),
                platform: PlatformInfo {
                    name: "Linux".to_string(),
                    arch: "x86_64".to_string(),
                    bit_mode: 64,
                    version: "linux".to_string(),
                },
                host_info_list: hosts
                    .iter()
                    .map(|host| HostInfo {
                        network_prefix_length: 24,
                        host_address: host.to_string(),
                        last_seen: 0,
                    })
                    .collect(),
                port: 13129,
            },
        }),
    }
}

/// A hub with a source, a client that can be reached, one without an address and one whose key is
/// no key; the keys of the one that can be reached, and the server's public document.
fn hub_of_four() -> (Hub, ServerKeys, Vec<u8>) {
    let keys = ServerKeys::generate();
    let server = document(&keys);
    let client = ServerKeys::generate();
    let hub = Hub::load_or_create(
        keys,
        vec![
            loaded("source", document(&ServerKeys::generate()), &["10.0.0.1"]),
            loaded("homeless", document(&ServerKeys::generate()), &[]),
            loaded("client", document(&client), &["10.0.0.2"]),
            loaded("keyless", vec![1, 2, 3], &["10.0.0.3"]),
        ],
    );
    (hub, client, server)
}

fn header<'a>(call: &'a Call, name: &str) -> Option<&'a str> {
    call.headers.iter().find(|(key, _)| key == name).map(|(_, value)| value.as_str())
}

fn sent(action: PushAction) -> Call {
    match action {
        PushAction::Send(call) => call,
        other => panic!("{other:?}"),
    }
}

#[test]
fn an_entry_reaches_every_client_that_can_be_reached() {
    let (hub, client, server) = hub_of_four();
    for (status, delivered, failed) in [(Some(200), 1, 2), (Some(404), 0, 3), (None, 0, 3)] {
        let mut run = PasteRun::start(&hub, "source", "me", b"{}".to_vec());
        let call = run.next(&hub).unwrap();
        assert_eq!(call.url, "http://10.0.0.2:13129/sync/paste");
        assert_eq!(header(&call, "appInstanceId"), Some("me"));
        assert_eq!(header(&call, "targetAppInstanceId"), Some("client"));
        assert_eq!(client.decrypt_from_client(&server, &call.body).unwrap(), b"{}".to_vec());
        run.answered(status);
        assert!(run.next(&hub).is_none());
        let report = run.report();
        assert_eq!(report.attempted, 3);
        assert_eq!(report.delivered, delivered);
        assert_eq!(report.failed, failed);
    }
}

#[test]
fn a_file_is_announced_sent_and_confirmed() {
    let (hub, client, server) = hub_of_four();
    let mut run = PushRun::start(&hub, "source", "me", b"{\"id\":1}".to_vec());
    let call = sent(run.begin(&hub));
    assert_eq!(call.url, "http://10.0.0.2:13129/sync/paste");
    assert_eq!(header(&call, "X-Sync-Mode"), Some("push"));
    assert_eq!(client.decrypt_from_client(&server, &call.body).unwrap(), b"{\"id\":1}".to_vec());

    let answer = client.encrypt_for_client(&server, b"[7]").unwrap();
    let action = run.on_event(&hub, PushEvent::Answered { status: 200, body: answer });
    assert!(matches!(action, PushAction::Read(json) if json == b"[7]".to_vec()));
    let prepare = PushPrepareResponse {
        paste_id: 77,
        chunk_count: 2,
        chunk_size: 4,
        session_token: "token".to_string(),
        need_icon: false,
    };
    assert!(matches!(run.on_event(&hub, PushEvent::Prepared(prepare)), PushAction::Load));

    let mut call = sent(run.on_event(&hub, PushEvent::Loaded(vec![1, 2, 3, 4, 5])));
    for (index, piece) in [("0", vec![1, 2, 3, 4]), ("1", vec![5])] {
        assert_eq!(call.url, "http://10.0.0.2:13129/sync/file/push");
        assert_eq!(header(&call, "X-Paste-Id"), Some("77"));
        assert_eq!(header(&call, "X-Chunk-Index"), Some(index));
        assert_eq!(header(&call, "X-Session-Token"), Some("token"));
        assert_eq!(client.decrypt_from_client(&server, &call.body).unwrap(), piece);
        let event = PushEvent::Answered { status: 200, body: Vec::new() };
        call = sent(run.on_event(&hub, event));
    }
    assert_eq!(call.url, "http://10.0.0.2:13129/sync/paste/push/complete");
    let event = PushEvent::Answered { status: 204, body: Vec::new() };
    assert!(matches!(run.on_event(&hub, event), PushAction::Finished));
    let report = run.report();
    assert_eq!((report.attempted, report.delivered, report.failed), (3, 1, 2));
}

/// Brings a broadcast to the stage at which the file is loaded.
fn until_load(hub: &Hub, client: &ServerKeys, server: &[u8], chunk_count: usize) -> PushRun {
    let mut run = PushRun::start(hub, "source", "me", Vec::new());
    sent(run.begin(hub));
    let answer = client.encrypt_for_client(server, b"{}").unwrap();
    run.on_event(hub, PushEvent::Answered { status: 200, body: answer });
    let prepare = PushPrepareResponse {
        paste_id: 1,
        chunk_count,
        chunk_size: 4,
        session_token: "t".to_string(),
        need_icon: false,
    };
    run.on_event(hub, PushEvent::Prepared(prepare));
    run
}

fn assert_given_up(mut run: PushRun, hub: &Hub, event: PushEvent) {
    assert!(matches!(run.on_event(hub, event), PushAction::Finished));
    let report = run.report();
    assert_eq!((report.attempted, report.delivered, report.failed), (3, 0, 3));
}

#[test]
fn a_file_is_given_up_at_every_stage() {
    let (hub, client, server) = hub_of_four();
    let announced = || {
        let mut run = PushRun::start(&hub, "source", "me", Vec::new());
        sent(run.begin(&hub));
        run
    };
    assert_given_up(announced(), &hub, PushEvent::Failed);
    assert_given_up(announced(), &hub, PushEvent::Answered { status: 500, body: Vec::new() });
    assert_given_up(announced(), &hub, PushEvent::Answered { status: 200, body: vec![1] });

    let mut reading = announced();
    let answer = client.encrypt_for_client(&server, b"no json").unwrap();
    reading.on_event(&hub, PushEvent::Answered { status: 200, body: answer });
    assert_given_up(reading, &hub, PushEvent::Failed);

    assert_given_up(until_load(&hub, &client, &server, 1), &hub, PushEvent::Failed);
    assert_given_up(
        until_load(&hub, &client, &server, 9),
        &hub,
        PushEvent::Loaded(vec![1, 2, 3]),
    );

    let mut uploading = until_load(&hub, &client, &server, 1);
    sent(uploading.on_event(&hub, PushEvent::Loaded(vec![1, 2, 3])));
    assert_given_up(uploading, &hub, PushEvent::Answered { status: 403, body: Vec::new() });
}

#[test]
fn nobody_else_is_there() {
    let hub = Hub::load_or_create(
        ServerKeys::generate(),
        vec![loaded("source", Vec::new(), &["10.0.0.1"])],
    );
    let mut paste = PasteRun::start(&hub, "source", "me", Vec::new());
    assert!(paste.next(&hub).is_none());
    assert_eq!(paste.report().attempted, 0);
    let mut push = PushRun::start(&hub, "source", "me", Vec::new());
    assert!(matches!(push.begin(&hub), PushAction::Finished));
    assert_eq!(push.report().attempted, 0);
}

#[test]
fn each_client_is_asked_once() {
    let hub = Hub::load_or_create(
        ServerKeys::generate(),
        vec![
            loaded("source", document(&ServerKeys::generate()), &["10.0.0.1"]),
            loaded("one", document(&ServerKeys::generate()), &["10.0.0.2"]),
            loaded("two", document(&ServerKeys::generate()), &["10.0.0.3"]),
            loaded("three", document(&ServerKeys::generate()), &["10.0.0.4"]),
        ],
    );
    let mut run = PasteRun::start(&hub, "source", "me", b"{}".to_vec());
    let mut asked = Vec::new();
    for status in [Some(200), Some(500), Some(204)] {
        let call = run.next(&hub).unwrap();
        asked.push(header(&call, "targetAppInstanceId").unwrap().to_string());
        run.answered(status);
    }
    assert!(run.next(&hub).is_none());
    asked.sort();
    assert_eq!(asked, ["one", "three", "two"]);
    let report = run.report();
    assert_eq!((report.attempted, report.delivered, report.failed), (3, 2, 1));
}
