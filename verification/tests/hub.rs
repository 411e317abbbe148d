//! Pairing, encryption and the files that pass through the hub.
use base64::engine::general_purpose::STANDARD;
use base64::Engine;
use crosspaste_server::broadcast::{entry_to_announce, entry_to_hand};
use crosspaste_server::database::{load_or_create_server_keys, StoredClient};
use crosspaste_server::delivery::{
    client_base_url, finish_push, icon_answer, icon_call, is_success, paste_call,
    percent_encode_path_segment, prepare_answer, prepare_call, Broadcast, CallMethod, Pull,
    Target, Upload,
};
use crosspaste_server::hub::{
    chunk_file_name, icon_path, token_from, CompletedPush, Hub, HubError, LoadedClient,
    PushPrepareResponse, FILE_CHUNK_SIZE,
};
use crosspaste_server::paste::{normalize_paste, Field, Paste};
use crosspaste_server::secure::{
    compute_sas, pairing_request_sign_data, pairing_response_sign_data, seal_with, open_with,
    verify_key_exchange_request, verify_pairing_request, verify_trust_confirm,
    KeyExchangeRequest, PairingRequest, SecureError, ServerKeys, TrustConfirmRequest,
    TrustRequest,
};
use crosspaste_server::sync_info::{AppInfo, EndpointInfo, HostInfo, PlatformInfo, SyncInfo};
use p256::ecdsa::Signature;
use p256::pkcs8::{DecodePrivateKey, DecodePublicKey};
use p256::{PublicKey, SecretKey};

fn info(id: &str, hosts: &[&str], port: i32) -> SyncInfo {
    SyncInfo {
        app_info: AppInfo {
            app_instance_id: id.to_string(),
            app_version: "1.2.3".to_string(),
            app_revision: "r".to_string(),
            user_name: "u".to_string(),
            pairing_version: Some(2),
        },
        endpoint_info: EndpointInfo {
            device_id: format!("{id}-device"),
            device_name: format!("{id} name"),
            platform: PlatformInfo {
                name: "Linux".to_string(),
                arch: "x86_64".to_string(),
                bit_mode: 64,
                version: "linux".to_string(),
            },
            host_info_list: hosts
                .iter()
                .map(|host| HostInfo {
                    network_prefix_length: 24,
                    host_address: host.to_string(),
                    last_seen: 0,
                })
                .collect(),
            port,
        },
    }
}

fn public_document(keys: &ServerKeys) -> Vec<u8> {
    STANDARD.decode(keys.crypt_public_key_der_b64().unwrap()).unwrap()
}

fn stored(id: &str, key: Vec<u8>) -> StoredClient {
    StoredClient {
        app_instance_id: id.to_string(),
        paired_at_ms: 123,
        crypt_public_key: key,
        sync_info_json: None,
        last_seen_ms: None,
    }
}

/// A hub with one paired client, that client's keys, and the server's public document.
fn paired() -> (Hub, ServerKeys, Vec<u8>) {
    let client = ServerKeys::generate();
    let keys = ServerKeys::generate();
    let server = public_document(&keys);
    let loaded = LoadedClient {
        client: stored("client", public_document(&client)),
        sync_info: Some(info("client", &["192.168.1.7"], 13129)),
    };
    (Hub::load_or_create(keys, vec![loaded]), client, server)
}

fn trust_request(client: &ServerKeys, token: u32) -> TrustRequest {
    let pairing_request = PairingRequest {
        sign_public_key: client.sign_public_key_der_b64().unwrap(),
        crypt_public_key: client.crypt_public_key_der_b64().unwrap(),
        token,
        timestamp: 5,
    };
    let signature = client.sign(&pairing_request_sign_data(&pairing_request)).unwrap();
    TrustRequest { pairing_request, signature }
}

fn exchange_request(client: &ServerKeys) -> KeyExchangeRequest {
    let sign_public_key = client.sign_public_key_der_b64().unwrap();
    let crypt_public_key = client.crypt_public_key_der_b64().unwrap();
    let signature =
        client.sign(format!("{sign_public_key}{crypt_public_key}{}", -7).as_bytes()).unwrap();
    KeyExchangeRequest { sign_public_key, crypt_public_key, timestamp: -7, signature }
}

fn confirm_request(client: &ServerKeys) -> TrustConfirmRequest {
    TrustConfirmRequest { timestamp: 9, signature: client.sign(b"9").unwrap() }
}

fn file_paste(size: u64) -> Paste {
    Paste::Object(vec![
        ("id".to_string(), Field::Integer(42)),
        ("appInstanceId".to_string(), Field::Text("source".to_string())),
        ("pasteType".to_string(), Field::Integer(3)),
        ("size".to_string(), Field::Integer(size as i128)),
        ("hash".to_string(), Field::Text("test".to_string())),
    ])
}

#[test]
fn persisted_keys_and_clients_survive_restart() {
    let made = load_or_create_server_keys(None).unwrap();
    let documents = made.to_save.unwrap();
    let original_public_key = made.keys.crypt_public_key_der_b64().unwrap();
    let restored = load_or_create_server_keys(Some(documents)).unwrap();
    assert_eq!(restored.keys.crypt_public_key_der_b64().unwrap(), original_public_key);
    let loaded = LoadedClient { client: stored("client-a", vec![1, 2, 3]), sync_info: None };
    let hub = Hub::load_or_create(restored.keys, vec![loaded]);
    assert!(hub.is_paired("client-a"));
    assert!(!hub.is_paired("client-b"));
    assert_eq!(hub.paired_count(), 1);
    assert_eq!(hub.list_clients()[0].paired_at_ms, 123);
    assert_eq!(hub.client_crypt_key("client-a").unwrap(), &[1, 2, 3]);
    assert!(hub.client_crypt_key("client-b").is_none());
    assert!(hub.client_sync_info("client-a").is_none());
    assert!(matches!(
        hub.encrypt_for_client("client-a", b"x"),
        Err(HubError::Secure(SecureError::PublicKey(words)))
            if words == PublicKey::from_public_key_der(&[1, 2, 3]).unwrap_err().to_string()
    ));
}

#[test]
fn file_push_session_tracks_and_stores_chunks() {
    let loaded = LoadedClient { client: stored("source", Vec::new()), sync_info: None };
    let mut hub = Hub::load_or_create(ServerKeys::generate(), vec![loaded]);
    let size = FILE_CHUNK_SIZE + 3;
    assert_eq!(hub.check_push("source", &file_paste(size)), Ok(2));
    let prepared = hub.prepare_push("source", file_paste(size), 1_700).unwrap();
    assert_eq!(prepared.chunk_count, 2);
    assert_eq!(prepared.chunk_size, FILE_CHUNK_SIZE);
    assert_eq!(prepared.paste_id, 1_700);
    assert!(!prepared.need_icon);
    let token = prepared.session_token.as_str();
    assert_eq!(
        hub.locate_push_chunk("source", 1_700, 0, token).unwrap(),
        ("1700".to_string(), "0.chunk".to_string())
    );
    hub.store_push_chunk("source", 1_700, 0, token).unwrap();
    let (incomplete, completed) = hub.complete_push("source", 1_700, token).unwrap();
    assert_eq!(incomplete.missing_chunks, vec![1]);
    assert!(completed.is_none());
    hub.store_push_chunk("source", 1_700, 1, token).unwrap();
    let (complete, completed) = hub.complete_push("source", 1_700, token).unwrap();
    assert!(complete.missing_chunks.is_empty());
    let completed = completed.unwrap();
    assert_eq!(completed.directory, "1700");
    assert_eq!(completed.from_app_instance_id, "source");
    let broadcast = Broadcast::start(&hub, &completed.from_app_instance_id);
    assert!(broadcast.next().is_none());
    assert_eq!(broadcast.report().attempted, 0);
    finish_push(&mut hub, completed);
    assert_eq!(
        hub.read_file_chunk(1_700, 1).unwrap(),
        ("1700".to_string(), "1.chunk".to_string())
    );
}

#[test]
fn a_push_is_refused_to_others() {
    let (mut hub, _, _) = paired();
    let paste = |fields: Vec<(String, Field)>| Paste::Object(fields);
    assert_eq!(hub.check_push("nobody", &file_paste(1)), Err(HubError::UnpairedClient));
    assert_eq!(hub.check_push("client", &paste(Vec::new())), Err(HubError::MissingSize));
    let negative = paste(vec![("size".to_string(), Field::Integer(-1))]);
    assert_eq!(hub.check_push("client", &negative), Err(HubError::MissingSize));
    let worded = paste(vec![("size".to_string(), Field::Text("1".to_string()))]);
    assert_eq!(hub.check_push("client", &worded), Err(HubError::MissingSize));
    assert_eq!(hub.check_push("client", &file_paste(0)), Err(HubError::SizeNotPositive));
    assert_eq!(hub.check_push("client", &file_paste(FILE_CHUNK_SIZE)), Ok(1));
    assert!(hub.prepare_push("nobody", file_paste(1), 1).is_err());
    hub.open_push("client", file_paste(1), "token".to_string(), 7).unwrap();
    assert_eq!(
        hub.store_push_chunk("client", 8, 0, "token"),
        Err(HubError::PushSessionNotFound)
    );
    assert_eq!(
        hub.store_push_chunk("other", 7, 0, "token"),
        Err(HubError::PushOwnerMismatch)
    );
    assert_eq!(hub.store_push_chunk("client", 7, 0, "x"), Err(HubError::InvalidPushToken));
    assert_eq!(hub.store_push_chunk("client", 7, 1, "token"), Err(HubError::ChunkOutOfRange));
    assert!(matches!(
        hub.locate_push_chunk("client", 7, 1, "token"),
        Err(HubError::ChunkOutOfRange)
    ));
    assert!(matches!(
        hub.complete_push("other", 7, "token"),
        Err(HubError::PushOwnerMismatch)
    ));
    assert!(matches!(hub.read_file_chunk(7, 0), Err(HubError::StoredFileNotFound)));
    hub.keep_file(7, "7".to_string(), 1);
    assert!(matches!(hub.read_file_chunk(7, 1), Err(HubError::ChunkOutOfRange)));
}

#[test]
fn a_client_pairs_with_the_token() {
    let client = ServerKeys::generate();
    let mut hub = Hub::load_or_create(ServerKeys::generate(), Vec::new());
    let request = trust_request(&client, 123_456);
    assert!(matches!(
        hub.trust_v1("c", &request, 1),
        Err(HubError::TokenNotRequested)
    ));
    hub.set_pairing_token(123_456, 1_000);
    assert!(matches!(hub.trust_v1("c", &request, 31_001), Err(HubError::TokenExpired)));
    assert!(matches!(
        hub.trust_v1("c", &trust_request(&client, 654_321), 31_000),
        Err(HubError::TokenMismatch)
    ));
    let mut forged = trust_request(&client, 123_456);
    forged.pairing_request.timestamp += 1;
    assert!(matches!(
        hub.trust_v1("c", &forged, 31_000),
        Err(HubError::InvalidPairingSignature)
    ));
    let mut unreadable = trust_request(&client, 123_456);
    unreadable.signature = "?".to_string();
    assert!(matches!(
        hub.trust_v1("c", &unreadable, 31_000),
        Err(HubError::Secure(SecureError::Base64(words)))
            if words == "Invalid symbol 63, offset 0."
    ));
    assert!(!hub.is_paired("c"));
    let (response, record) = hub.trust_v1("c", &request, 31_000).unwrap();
    assert!(hub.is_paired("c"));
    assert_eq!(record.app_instance_id, "c");
    assert_eq!(record.paired_at_ms, 31_000);
    assert_eq!(record.crypt_public_key, public_document(&client));
    let answer = &response.pairing_response;
    assert_eq!(answer.timestamp, 31_000);
    let expected = format!("{}{}31000", answer.sign_public_key, answer.crypt_public_key);
    assert_eq!(pairing_response_sign_data(answer), expected.as_bytes());
    let as_request = KeyExchangeRequest {
        sign_public_key: answer.sign_public_key.clone(),
        crypt_public_key: answer.crypt_public_key.clone(),
        timestamp: answer.timestamp,
        signature: response.signature.clone(),
    };
    assert_eq!(verify_key_exchange_request(&as_request), Ok(true));
    let server = STANDARD.decode(&answer.crypt_public_key).unwrap();
    let sent = client.encrypt_for_client(&server, b"hello").unwrap();
    assert_eq!(hub.decrypt_from_client("c", &sent).unwrap(), b"hello");
    hub.remove_client("c");
    assert!(!hub.is_paired("c"));
    assert_eq!(hub.decrypt_from_client("c", &sent), Err(HubError::MissingCryptKey));
}

#[test]
fn a_client_pairs_by_short_code() {
    let client = ServerKeys::generate();
    let keys = ServerKeys::generate();
    let server = public_document(&keys);
    let mut hub = Hub::load_or_create(keys, Vec::new());
    let request = exchange_request(&client);
    let mut forged = exchange_request(&client);
    forged.timestamp = 0;
    assert!(matches!(
        hub.exchange_keys_v2("c", &forged, 0),
        Err(HubError::InvalidKeyExchangeSignature)
    ));
    assert!(matches!(
        hub.confirm_trust_v2("c", &confirm_request(&client), 0),
        Err(HubError::KeyExchangeNotFound)
    ));
    let (response, sas) = hub.exchange_keys_v2("c", &request, 1_000).unwrap();
    assert_eq!(sas, compute_sas(&public_document(&client), &server));
    assert_eq!(response.timestamp, 1_000);
    assert_eq!(STANDARD.decode(&response.crypt_public_key).unwrap(), server);
    let as_request = KeyExchangeRequest {
        sign_public_key: response.sign_public_key.clone(),
        crypt_public_key: response.crypt_public_key.clone(),
        timestamp: response.timestamp,
        signature: response.signature.clone(),
    };
    assert_eq!(verify_key_exchange_request(&as_request), Ok(true));
    let challenges = hub.pairing_challenges(31_000);
    assert_eq!(challenges.len(), 1);
    assert_eq!(challenges[0].client_id, "c");
    assert_eq!(challenges[0].code, format!("{sas:06}"));
    assert_eq!(challenges[0].kind, "sas-v2");
    assert!(hub.pairing_challenges(31_001).is_empty());
    assert!(matches!(
        hub.confirm_trust_v2("c", &confirm_request(&client), 31_001),
        Err(HubError::KeyExchangeExpired)
    ));
    assert!(matches!(
        hub.confirm_trust_v2("c", &confirm_request(&ServerKeys::generate()), 31_000),
        Err(HubError::InvalidConfirmationSignature)
    ));
    let (confirmed, record) =
        hub.confirm_trust_v2("c", &confirm_request(&client), 31_000).unwrap();
    assert_eq!(record.crypt_public_key, public_document(&client));
    let answer = TrustConfirmRequest {
        timestamp: confirmed.timestamp,
        signature: confirmed.signature.clone(),
    };
    assert_eq!(verify_trust_confirm(&response.sign_public_key, &answer), Ok(true));
    assert!(hub.is_paired("c"));
    assert!(matches!(
        hub.confirm_trust_v2("c", &confirm_request(&client), 31_000),
        Err(HubError::KeyExchangeNotFound)
    ));
}

#[test]
fn challenges_that_last_longest_come_first() {
    let mut hub = Hub::load_or_create(ServerKeys::generate(), Vec::new());
    hub.exchange_keys_v2("early", &exchange_request(&ServerKeys::generate()), 0).unwrap();
    hub.exchange_keys_v2("late", &exchange_request(&ServerKeys::generate()), 20).unwrap();
    hub.exchange_keys_v2("same", &exchange_request(&ServerKeys::generate()), 20).unwrap();
    hub.set_pairing_token_for(7, None, 10);
    let order: Vec<String> =
        hub.pairing_challenges(30).into_iter().map(|challenge| challenge.client_id).collect();
    assert_eq!(order, vec!["late", "same", "扫码配对", "early"]);
    hub.set_pairing_token_for(7, Some("named"), 30);
    let first = &hub.pairing_challenges(30)[0];
    assert_eq!(first.client_id, "named");
    assert_eq!(first.code, "000007");
    assert_eq!(first.kind, "token-v1");
    assert_eq!(first.expires_at_ms, 30_030);
}

#[test]
fn issued_tokens_have_six_digits() {
    assert_eq!(token_from(0), 100_000);
    assert_eq!(token_from(899_999), 999_999);
    assert_eq!(token_from(900_000), 100_000);
    let mut hub = Hub::load_or_create(ServerKeys::generate(), Vec::new());
    let token = hub.issue_pairing_token(0);
    assert!((100_000..=999_999).contains(&token));
    assert_eq!(hub.pairing_challenges(0)[0].code, token.to_string());
    let token = hub.issue_pairing_token_for(Some("x"), 0);
    assert_eq!(hub.pairing_challenges(0)[0].code, token.to_string());
    assert_eq!(hub.pairing_challenges(0)[0].client_id, "x");
}

#[test]
fn streams_survive_the_way_there_and_back() {
    let (hub, client, server) = paired();
    let plain: Vec<u8> = (0..600_000u32).map(|i| (i % 251) as u8).collect();
    let stream = hub.encrypt_stream_for_client("client", &plain).unwrap();
    assert_eq!(stream.len(), 2 * (4 + 262_144 + 32) + 4 + 75_712 / 16 * 16 + 32);
    assert_eq!(hub.decrypt_stream_from_client("client", &stream).unwrap(), plain);
    let first = client.decrypt_from_client(&server, &stream[4..4 + 262_176]).unwrap();
    assert_eq!(first, plain[..262_144]);
    let mut sent: Vec<u8> = Vec::new();
    for part in [&b"one "[..], b"", b"and two"] {
        let payload = client.encrypt_for_client(&server, part).unwrap();
        sent.extend_from_slice(&(payload.len() as u32).to_be_bytes());
        sent.extend_from_slice(&payload);
    }
    assert_eq!(hub.decrypt_stream_from_client("client", &sent).unwrap(), b"one and two");
    assert_eq!(hub.encrypt_stream_for_client("client", &[]).unwrap(), Vec::<u8>::new());
    assert_eq!(hub.encrypt_stream_for_client("nobody", &[]).unwrap(), Vec::<u8>::new());
    assert_eq!(
        hub.encrypt_stream_for_client("nobody", b"x"),
        Err(HubError::MissingCryptKey)
    );
    let cases: [(&[u8], HubError); 4] = [
        (&[0, 0, 0], HubError::TruncatedLength),
        (&[0, 0, 0, 2, 9], HubError::TruncatedChunk),
        (&[0, 0, 0, 1, 9], HubError::Secure(SecureError::CiphertextTooShort)),
        (&[0, 0, 0, 0], HubError::Secure(SecureError::CiphertextTooShort)),
    ];
    for (stream, error) in cases {
        assert_eq!(hub.decrypt_stream_from_client("client", stream), Err(error));
    }
}

#[test]
fn payloads_open_only_whole_and_with_the_key() {
    let key = [7u8; 32];
    let payload = seal_with(&key, &[1; 16], b"0123456789abcdef");
    assert_eq!(payload.len(), 48);
    assert_eq!(payload[..16], [1; 16]);
    assert_ne!(payload[16..32], b"0123456789abcdef"[..]);
    assert_eq!(open_with(&key, &payload).unwrap(), b"0123456789abcdef");
    assert_eq!(open_with(&key, &payload[..15]), Err(SecureError::CiphertextTooShort));
    assert_eq!(open_with(&key, &payload[..40]), Err(SecureError::Padding));
    assert_eq!(open_with(&key, &payload[..16]), Err(SecureError::Padding));
    let (hub, _, _) = paired();
    assert_eq!(
        hub.decrypt_from_client("client", &[0; 15]),
        Err(HubError::Secure(SecureError::CiphertextTooShort))
    );
    assert_ne!(
        hub.encrypt_for_client("client", b"x").unwrap(),
        hub.encrypt_for_client("client", b"x").unwrap()
    );
}

#[test]
fn signatures_are_read_before_they_are_checked() {
    let client = ServerKeys::generate();
    let good = trust_request(&client, 1);
    assert_eq!(verify_pairing_request(&good), Ok(true));
    let mut request = good.clone();
    request.pairing_request.sign_public_key = "AAAA".to_string();
    let words = PublicKey::from_public_key_der(&[0, 0, 0]).unwrap_err().to_string();
    assert_eq!(verify_pairing_request(&request), Err(SecureError::PublicKey(words)));
    let mut request = good.clone();
    request.signature = "AAAA".to_string();
    let words = Signature::from_der(&[0, 0, 0]).unwrap_err().to_string();
    assert_eq!(verify_pairing_request(&request), Err(SecureError::Signature(words)));
    let mut request = good.clone();
    request.pairing_request.sign_public_key = "*".to_string();
    let words = "Invalid symbol 42, offset 0.".to_string();
    assert_eq!(verify_pairing_request(&request), Err(SecureError::Base64(words)));
    let mut request = good.clone();
    request.pairing_request.token = 2;
    assert_eq!(verify_pairing_request(&request), Ok(false));
    let mut exchange = exchange_request(&client);
    assert_eq!(verify_key_exchange_request(&exchange), Ok(true));
    exchange.signature = client.sign(b"other").unwrap();
    assert_eq!(verify_key_exchange_request(&exchange), Ok(false));
    let own = client.sign_public_key_der_b64().unwrap();
    let other = ServerKeys::generate().sign_public_key_der_b64().unwrap();
    assert_eq!(verify_trust_confirm(&own, &confirm_request(&client)), Ok(true));
    assert_eq!(verify_trust_confirm(&other, &confirm_request(&client)), Ok(false));
    let documents = client.private_keys_pkcs8().unwrap();
    for (sign, crypt) in [(&[][..], &documents.1[..]), (&documents.0[..], &[][..])] {
        match ServerKeys::from_pkcs8(sign, crypt) {
            Err(error) => {
                let words = SecretKey::from_pkcs8_der(&[]).unwrap_err().to_string();
                assert_eq!(error, SecureError::PrivateKey(words));
            }
            Ok(_) => panic!("expected an error"),
        }
    }
    for (error, words) in [
        (SecureError::Base64("not base64".to_string()), "not base64"),
        (SecureError::PrivateKey("no private key".to_string()), "no private key"),
        (SecureError::PublicKey("no public key".to_string()), "no public key"),
        (SecureError::Signature("no signature".to_string()), "no signature"),
        (SecureError::Signing, "signature operation failed"),
        (SecureError::CiphertextTooShort, "ciphertext too short"),
        (SecureError::Padding, "invalid encrypted payload padding"),
    ] {
        assert_eq!(error.message(), words);
    }
}

#[test]
fn short_codes_do_not_depend_on_the_side() {
    let a = public_document(&ServerKeys::generate());
    let b = public_document(&ServerKeys::generate());
    assert_eq!(compute_sas(&a, &b), compute_sas(&b, &a));
    // SHA-256 of "abc" begins with ba7816bf.
    assert_eq!(compute_sas(b"a", b"bc"), (0xba78_16bf_u32 & 0x7fff_ffff) % 1_000_000);
    assert_eq!(compute_sas(b"bc", b"a"), 948_671);
}

#[test]
fn entries_are_taken_from_paired_clients() {
    let (mut hub, _, _) = paired();
    assert!(matches!(
        hub.receive_paste("nobody", &file_paste(9), 77),
        Err(HubError::UnpairedClient)
    ));
    let record = hub.receive_paste("client", &file_paste(9), 77).unwrap();
    assert_eq!((record.paste_id, record.source.as_str()), (42, "client"));
    assert_eq!((record.paste_type, record.size), (Some(3), Some(9)));
    hub.keep_paste(&record, file_paste(9));
    let bare = Paste::Other("[]".to_string());
    let record = hub.receive_paste("client", &bare, 77).unwrap();
    assert_eq!((record.paste_id, record.paste_type, record.size), (77, None, None));
    assert!(hub.update_client_sync_info("nobody", info("x", &[], 1)).is_err());
    hub.update_client_sync_info("client", info("x", &["h"], 1)).unwrap();
    assert_eq!(hub.client_sync_info("client").unwrap().endpoint_info.device_name, "x name");
}

#[test]
fn entries_go_on_in_the_name_of_the_server() {
    match normalize_paste(&file_paste(9), "server", Some(7)) {
        Paste::Object(fields) => {
            assert_eq!(fields.len(), 5);
            assert!(matches!(&fields[0], (name, Field::Integer(7)) if name == "id"));
            assert!(matches!(&fields[1], (name, Field::Text(id))
                if name == "appInstanceId" && id == "server"));
            assert!(matches!(&fields[4], (name, Field::Text(hash))
                if name == "hash" && hash == "test"));
        }
        other => panic!("expected an object, got {other:?}"),
    }
    let completed = CompletedPush {
        paste_id: 8,
        from_app_instance_id: "source".to_string(),
        paste: file_paste(9),
        chunk_count: 1,
        directory: "8".to_string(),
    };
    let announced = entry_to_announce(&completed, "server");
    assert_eq!(announced.signed("id"), Some(8));
    assert!(matches!(&announced, Paste::Object(fields)
        if matches!(&fields[1].1, Field::Text(id) if id == "server")));
    let handed = entry_to_hand(&file_paste(9), "server");
    assert_eq!(handed.signed("id"), Some(42));
    assert!(matches!(&handed, Paste::Object(fields)
        if matches!(&fields[1].1, Field::Text(id) if id == "server")));
    match normalize_paste(&Paste::Object(Vec::new()), "server", None) {
        Paste::Object(fields) => assert_eq!(fields.len(), 1),
        other => panic!("expected an object, got {other:?}"),
    }
    assert!(matches!(
        normalize_paste(&Paste::Other("1".to_string()), "server", Some(7)),
        Paste::Other(json) if json == "1"
    ));
    let paste = file_paste(u64::MAX);
    assert_eq!(paste.unsigned("size"), Some(u64::MAX));
    assert_eq!(paste.signed("size"), None);
    assert_eq!(paste.signed("hash"), None);
    assert_eq!(paste.signed("none"), None);
}

#[test]
fn addresses_of_clients() {
    let url = |hosts: &[&str]| client_base_url(&info("x", hosts, 80));
    assert_eq!(url(&["10.0.0.1", "10.0.0.2"]).as_deref(), Some("http://10.0.0.1:80"));
    assert_eq!(url(&["fe80::1"]).as_deref(), Some("http://[fe80::1]:80"));
    assert_eq!(url(&[]), None);
    assert_eq!(percent_encode_path_segment("a/b c~"), "a%2Fb%20c~");
}

#[test]
fn a_broadcast_counts_every_client_once() {
    let (mut hub, client, server) = paired();
    let key = public_document(&ServerKeys::generate());
    let more = vec![
        LoadedClient {
            client: stored("client", public_document(&client)),
            sync_info: Some(info("client", &["192.168.1.7"], 13129)),
        },
        LoadedClient {
            client: stored("origin", key.clone()),
            sync_info: Some(info("origin", &["192.168.1.8"], 1)),
        },
        LoadedClient {
            client: stored("hidden", key),
            sync_info: Some(info("hidden", &[], 1)),
        },
    ];
    let keys = ServerKeys::generate();
    let own = public_document(&keys);
    assert_ne!(own, server);
    hub = Hub::load_or_create(keys, more);
    let mut broadcast = Broadcast::start(&hub, "origin");
    assert_eq!(broadcast.report().attempted, 2);
    let mut seen = Vec::new();
    while let Some(target) = broadcast.next() {
        seen.push(target.client_id.clone());
        let outcome = match paste_call(&hub, target, "server", b"{}") {
            Ok(call) => {
                assert_eq!(call.method, CallMethod::Post);
                assert_eq!(call.url, "http://192.168.1.7:13129/sync/paste");
                assert_eq!(
                    call.headers,
                    vec![
                        ("appInstanceId".to_string(), "server".to_string()),
                        ("targetAppInstanceId".to_string(), "client".to_string()),
                        ("secure".to_string(), "1".to_string()),
                        ("content-type".to_string(), "application/json".to_string()),
                    ]
                );
                assert_eq!(client.decrypt_from_client(&own, &call.body).unwrap(), b"{}");
                is_success(204)
            }
            Err(error) => {
                assert_eq!(error, HubError::NoReachableHost);
                false
            }
        };
        broadcast.settle(outcome);
    }
    seen.sort();
    assert_eq!(seen, vec!["client", "hidden"]);
    let report = broadcast.report();
    assert_eq!((report.attempted, report.delivered, report.failed), (2, 1, 1));
    assert!(!is_success(199) && is_success(200) && is_success(299) && !is_success(300));
}

#[test]
fn a_file_goes_out_piece_by_piece() {
    let (hub, client, server) = paired();
    let target = Target {
        client_id: "client".to_string(),
        info: info("client", &["fe80::1"], 13129),
    };
    let (base, call) = prepare_call(&hub, &target, "server", b"{}").unwrap();
    assert_eq!(base, "http://[fe80::1]:13129");
    assert_eq!(call.url, "http://[fe80::1]:13129/sync/paste");
    assert_eq!(call.headers[3], ("X-Sync-Mode".to_string(), "push".to_string()));
    let answer = client.encrypt_for_client(&server, b"{\"pasteId\":1}").unwrap();
    assert_eq!(prepare_answer(&hub, "client", 200, &answer).unwrap(), b"{\"pasteId\":1}");
    assert_eq!(
        prepare_answer(&hub, "client", 403, &answer),
        Err(HubError::PushRejected { status: 403 })
    );
    let prepare = |chunk_size: u64, chunk_count: usize| PushPrepareResponse {
        paste_id: -3,
        chunk_count,
        chunk_size,
        session_token: "token".to_string(),
        need_icon: false,
    };
    let source = b"0123456789".to_vec();
    assert!(matches!(
        Upload::start(&base, "client", "server", &prepare(0, 1), source.clone()),
        Err(HubError::ChunkSizeZero)
    ));
    assert!(matches!(
        Upload::start(&base, "client", "server", &prepare(4, 2), source.clone()),
        Err(HubError::ChunkCountMismatch { expected: 2, got: 3 })
    ));
    let mut upload =
        Upload::start(&base, "client", "server", &prepare(4, 3), source.clone()).unwrap();
    let mut arrived = Vec::new();
    for index in 0..3 {
        let call = upload.call(&hub).unwrap().unwrap();
        assert_eq!(call.url, "http://[fe80::1]:13129/sync/file/push");
        assert_eq!(call.headers[3], ("X-Paste-Id".to_string(), "-3".to_string()));
        assert_eq!(call.headers[4], ("X-Chunk-Index".to_string(), index.to_string()));
        assert_eq!(call.headers[5], ("X-Session-Token".to_string(), "token".to_string()));
        arrived.extend(client.decrypt_from_client(&server, &call.body).unwrap());
        assert_eq!(
            upload.answered(500),
            Err(HubError::ChunkRejectedByTarget { index })
        );
        upload.answered(200).unwrap();
    }
    assert_eq!(arrived, source);
    let call = upload.call(&hub).unwrap().unwrap();
    assert_eq!(call.url, "http://[fe80::1]:13129/sync/paste/push/complete");
    assert_eq!(call.headers.len(), 6);
    assert!(client.decrypt_from_client(&server, &call.body).unwrap().is_empty());
    assert_eq!(upload.answered(404), Err(HubError::CompletionRejected));
    upload.answered(204).unwrap();
    assert!(upload.call(&hub).unwrap().is_none());
    let stranger =
        Upload::start(&base, "nobody", "server", &prepare(4, 3), source).unwrap();
    assert!(matches!(stranger.call(&hub), Err(HubError::MissingCryptKey)));
}

#[test]
fn a_file_is_fetched_piece_by_piece() {
    let (mut hub, client, server) = paired();
    let size = FILE_CHUNK_SIZE + 1;
    let start = |hub: &Hub, id: &str, paste: &Paste| Pull::start(hub, id, "server", paste, 55);
    let no_id = Paste::Object(vec![("size".to_string(), Field::Integer(1))]);
    assert!(matches!(start(&hub, "client", &no_id), Err(HubError::MissingId)));
    let no_size = Paste::Object(vec![("id".to_string(), Field::Integer(1))]);
    assert!(matches!(start(&hub, "client", &no_size), Err(HubError::MissingSize)));
    assert!(matches!(start(&hub, "nobody", &file_paste(size)), Err(HubError::NoSyncInfo)));
    hub.update_client_sync_info("client", info("client", &[], 1)).unwrap();
    assert!(matches!(start(&hub, "client", &file_paste(size)), Err(HubError::NoReachableHost)));
    hub.update_client_sync_info("client", info("client", &["10.0.0.9"], 1)).unwrap();
    let mut pull = start(&hub, "client", &file_paste(size)).unwrap();
    assert_eq!(pull.directory(), "pull-55");
    for index in 0..2usize {
        let call = pull.call(&hub).unwrap().unwrap();
        assert_eq!(call.url, "http://10.0.0.9:1/pull/file");
        assert_eq!(
            client.decrypt_from_client(&server, &call.body).unwrap(),
            format!("{{\"chunkIndex\":{index},\"id\":42}}").into_bytes()
        );
        assert_eq!(
            pull.answered(&hub, 500, &[]),
            Err(HubError::ChunkRejectedBySource { index })
        );
        assert_eq!(pull.answered(&hub, 200, &[1]), Err(HubError::TruncatedLength));
        let sealed = client.encrypt_for_client(&server, b"piece").unwrap();
        let mut stream = (sealed.len() as u32).to_be_bytes().to_vec();
        stream.extend(sealed);
        let (file, piece) = pull.answered(&hub, 200, &stream).unwrap();
        assert_eq!(file, chunk_file_name(index));
        assert_eq!(piece, b"piece");
    }
    assert!(pull.call(&hub).unwrap().is_none());
    assert_eq!(pull.finish(&mut hub), 55);
    assert_eq!(
        hub.read_file_chunk(55, 1).unwrap(),
        ("pull-55".to_string(), "1.chunk".to_string())
    );
    let empty = start(&hub, "client", &file_paste(0)).unwrap();
    assert!(empty.call(&hub).unwrap().is_none());
}

#[test]
fn icons_have_names_of_one_form() {
    assert_eq!(
        icon_path("abc").unwrap(),
        "ba7816bf8f01cfea414140de5dae2223b00361a396177a9cb410ff61f20015ad"
    );
    assert_eq!(icon_path(""), Err(HubError::InvalidIconSource));
    assert!(icon_path(&"a".repeat(1024)).is_ok());
    assert_eq!(icon_path(&"a".repeat(1025)), Err(HubError::InvalidIconSource));
    let (hub, _, _) = paired();
    let call = icon_call(&hub, "client", "server", "My App/1").unwrap();
    assert_eq!(call.method, CallMethod::Get);
    assert_eq!(call.url, "http://192.168.1.7:13129/pull/icon/My%20App%2F1");
    assert_eq!(call.headers, vec![("appInstanceId".to_string(), "server".to_string())]);
    assert!(matches!(icon_call(&hub, "client", "s", ""), Err(HubError::InvalidIconSource)));
    assert!(matches!(icon_call(&hub, "nobody", "s", "x"), Err(HubError::NoSyncInfo)));
    assert_eq!(icon_answer(200), Ok(()));
    assert_eq!(icon_answer(404), Err(HubError::IconRejected));
}

#[test]
fn refusals_of_the_hub_have_words() {
    let cases = [
        (HubError::InvalidPairingSignature, "invalid pairing signature"),
        (HubError::TokenNotRequested, "pairing token was not requested"),
        (HubError::TokenExpired, "pairing token expired"),
        (HubError::TokenMismatch, "pairing token mismatch"),
        (HubError::InvalidKeyExchangeSignature, "invalid key exchange signature"),
        (HubError::KeyExchangeNotFound, "key exchange not found or expired"),
        (HubError::KeyExchangeExpired, "key exchange expired"),
        (HubError::InvalidConfirmationSignature, "invalid trust confirmation signature"),
        (HubError::UnpairedClient, "unpaired client"),
        (HubError::MissingId, "file paste is missing id"),
        (HubError::MissingSize, "file paste is missing size"),
        (HubError::SizeNotPositive, "file paste size must be positive"),
        (HubError::PushSessionNotFound, "push session not found"),
        (HubError::PushOwnerMismatch, "push session owner mismatch"),
        (HubError::InvalidPushToken, "invalid push session token"),
        (HubError::ChunkOutOfRange, "chunk index out of range"),
        (HubError::StoredFileNotFound, "stored file not found"),
        (HubError::NoSyncInfo, "source client has no SyncInfo"),
        (HubError::NoReachableHost, "source client has no reachable host"),
        (HubError::MissingCryptKey, "missing client crypt key"),
        (HubError::InvalidIconSource, "invalid icon source"),
        (HubError::TruncatedLength, "truncated encrypted stream length"),
        (HubError::TruncatedChunk, "truncated encrypted stream chunk"),
        (HubError::ChunkSizeTooLarge, "out of range integral type conversion attempted"),
        (HubError::ChunkSizeZero, "target chunk size is zero"),
        (
            HubError::ChunkCountMismatch { expected: 2, got: 3 },
            "target chunk count mismatch: expected 2, got 3",
        ),
        (HubError::PushRejected { status: 403 }, "file push prepare rejected: 403"),
        (HubError::ChunkRejectedByTarget { index: 4 }, "target rejected chunk 4"),
        (HubError::CompletionRejected, "target rejected file push completion"),
        (HubError::ChunkRejectedBySource { index: 5 }, "source rejected file chunk 5"),
        (HubError::IconRejected, "source icon request failed"),
        (HubError::Secure(SecureError::Padding), "invalid encrypted payload padding"),
        (HubError::Secure(SecureError::Signature("no signature".to_string())), "no signature"),
    ];
    for (error, words) in cases {
        assert_eq!(error.message(), words);
    }
}
