//! Authenticated sessions and what travels in them.

use lan_clipboard::net::crypto::{
    decrypt_bytes, decrypt_raw_payload_bytes, derive_session_key_material, discovery_domain_id,
    discovery_domain_id_from_secret, effective_secret, encrypt_bytes, encrypt_bytes_with,
    encrypt_raw_payload_bytes, encrypt_raw_payload_bytes_with,
};
use lan_clipboard::net::error::NetError;
use lan_clipboard::net::handshake::{
    build_ack, build_challenge, build_response, clear_session_keys, client_confirm, client_respond,
    derive_session, parse_local_device_id, server_accept, server_greet, verify_ack,
    verify_challenge, verify_response, Session, SessionRole, ACK_BYTES, CHALLENGE_BYTES,
    DEVICE_ID_BYTES, HEADER_BYTES, NONCE_BYTES, RESPONSE_BYTES, RESPONSE_PREFIX_BYTES,
};
use lan_clipboard::net::socket::{
    binds_source, is_self_socket_addr, parse_ipv4_peer, peer_to_text, send_transfer_id,
    write_timeout_for_payload, AddressFamily, IpAddress, SourceError, HANDSHAKE_TIMEOUT_MS,
};
use lan_clipboard::net::wire::{
    chunks_for, control_frame_limit, decode_raw_payload_frame, decode_wire_body_bytes,
    encode_raw_payload_frame, encode_wire_body, encode_wire_message, frame_length, length_prefixed,
    raw_frame_limit, raw_plain_limit, validate_top_level_names, FileStreamStart, ImageStreamStart,
    PayloadStreamEnd, WireBody, MAX_FUTURE_CLOCK_SKEW_US, MAX_IMAGE_SOURCE_BYTES,
    RAW_PAYLOAD_PLAIN_BYTES,
};
use lan_clipboard::protocol::{ClipboardItem, ClipboardPayload};
use lan_clipboard::settings::Settings;
use uuid::Uuid;

const SECRET: &str = "ABCDEFGHIJKLMNOPQRSTUVWXYZ";

const NOW_US: u64 = 1_700_000_000_000_000;

fn ids() -> ([u8; 16], [u8; 16]) {
    (Uuid::from_u128(1).into_bytes(), Uuid::from_u128(2).into_bytes())
}

fn exchange(seed: u8) -> ([u8; CHALLENGE_BYTES], [u8; RESPONSE_BYTES], [u8; ACK_BYTES]) {
    let (client, server) = ids();
    let challenge = build_challenge(SECRET, &server, &[seed; NONCE_BYTES]).unwrap();
    let response =
        build_response(SECRET, &challenge, &client, &[seed.wrapping_add(1); NONCE_BYTES]).unwrap();
    let session =
        derive_session(SECRET, &challenge, &response, server, client, SessionRole::Server).unwrap();
    let ack = build_ack(SECRET, &challenge, &response, &session.session_id).unwrap();
    (challenge, response, ack)
}

fn test_session_pair(seed: u8) -> (Session, Session) {
    let (client_id, server_id) = ids();
    let (challenge, response, _) = exchange(seed);
    let client =
        derive_session(SECRET, &challenge, &response, client_id, server_id, SessionRole::Client)
            .unwrap();
    let server =
        derive_session(SECRET, &challenge, &response, server_id, client_id, SessionRole::Server)
            .unwrap();
    (client, server)
}

fn test_settings() -> Settings {
    let mut settings = Settings::default();
    settings.limits.max_item_bytes = 32 * 1024 * 1024;
    settings
}

fn base_item(payload: ClipboardPayload, size_bytes: u64) -> ClipboardItem {
    ClipboardItem {
        id: Uuid::new_v4().to_string(),
        content_hash: "a".repeat(64),
        created_at_us: NOW_US,
        source_device_id: Uuid::from_u128(1).to_string(),
        size_bytes,
        payload,
    }
}

fn hello() -> ClipboardItem {
    base_item(ClipboardPayload::Text { text: "hello".to_string() }, 5)
}

#[test]
fn handshake_messages_are_fixed_length() {
    assert_eq!(CHALLENGE_BYTES, 88);
    assert_eq!(RESPONSE_BYTES, 88);
    assert_eq!(ACK_BYTES, 56);
}

#[test]
fn tampering_and_wrong_key_are_rejected() {
    let (mut challenge, mut response, mut ack) = exchange(7);
    assert!(verify_challenge("WRONGSHAREDCODEWRONGSHARED", &challenge).is_err());

    challenge[HEADER_BYTES + DEVICE_ID_BYTES] ^= 1;
    assert!(verify_challenge(SECRET, &challenge).is_err());
    challenge[HEADER_BYTES + DEVICE_ID_BYTES] ^= 1;

    let (client, server) = ids();
    response[RESPONSE_PREFIX_BYTES - 1] ^= 1;
    assert!(verify_response(SECRET, &challenge, &server, &response).is_err());
    response[RESPONSE_PREFIX_BYTES - 1] ^= 1;

    let session =
        derive_session(SECRET, &challenge, &response, server, client, SessionRole::Server).unwrap();
    ack[ACK_BYTES - 1] ^= 1;
    assert!(verify_ack(SECRET, &challenge, &response, &session.session_id, &ack).is_err());
}

#[test]
fn response_is_bound_to_fresh_challenge() {
    let (client, server) = ids();
    let old_challenge = build_challenge(SECRET, &server, &[1; NONCE_BYTES]).unwrap();
    let old_response = build_response(SECRET, &old_challenge, &client, &[2; NONCE_BYTES]).unwrap();
    let fresh_challenge = build_challenge(SECRET, &server, &[3; NONCE_BYTES]).unwrap();
    assert!(verify_response(SECRET, &fresh_challenge, &server, &old_response).is_err());
}

#[test]
fn directional_session_keys_match_only_opposite_direction() {
    let (client, server) = test_session_pair(9);
    assert_eq!(client.session_id, server.session_id);
    assert_eq!(client.send_control_key, server.receive_control_key);
    assert_eq!(client.receive_control_key, server.send_control_key);
    assert_eq!(client.send_raw_key, server.receive_raw_key);
    assert_eq!(client.receive_raw_key, server.send_raw_key);
    assert_ne!(client.send_control_key, client.receive_control_key);
    assert_ne!(client.send_raw_key, client.receive_raw_key);
}

#[test]
fn handshake_timeout_is_short_and_fixed() {
    assert_eq!(HANDSHAKE_TIMEOUT_MS, 2_000);
}

#[test]
fn malformed_header_and_same_device_id_are_rejected() {
    let (client, server) = ids();
    let mut challenge = build_challenge(SECRET, &server, &[4; NONCE_BYTES]).unwrap();
    challenge[7] = 1;
    assert!(verify_challenge(SECRET, &challenge).is_err());

    let challenge = build_challenge(SECRET, &server, &[4; NONCE_BYTES]).unwrap();
    let response = build_response(SECRET, &challenge, &server, &[5; NONCE_BYTES]).unwrap();
    assert!(verify_response(SECRET, &challenge, &server, &response).is_err());
    assert_ne!(client, server);
}

#[test]
fn sequence_counters_never_wrap() {
    let (mut client, mut server) = test_session_pair(40);
    client.next_send_control_sequence = u64::MAX;
    server.expected_receive_control_sequence = u64::MAX;
    assert!(client.advance_send_control_sequence().is_err());
    assert!(server.advance_receive_control_sequence().is_err());
    assert_eq!(client.next_send_control_sequence, u64::MAX);
    assert_eq!(server.expected_receive_control_sequence, u64::MAX);
}

#[test]
fn whole_handshake_authenticates_both_device_ids() {
    let (client_id, server_id) = (Uuid::from_u128(1), Uuid::from_u128(2));
    let (server_bytes, challenge) = server_greet(SECRET, &server_id.to_string()).unwrap();
    let (response, pending) = client_respond(SECRET, &client_id.to_string(), &challenge).unwrap();
    let (ack, server) = server_accept(SECRET, server_bytes, &challenge, &response).unwrap();
    let client = client_confirm(SECRET, &challenge, &response, pending, &ack).unwrap();
    assert_eq!(client.peer_device_id, server_id.into_bytes());
    assert_eq!(server.peer_device_id, client_id.into_bytes());
    assert_eq!(client.session_id, server.session_id);
    assert_eq!(client.send_control_key, server.receive_control_key);
    assert!(client.source_matches_peer(&server_id.to_string()));
    assert!(!client.source_matches_peer(&client_id.to_string()));

    let (_, other) = server_greet(SECRET, &server_id.to_string()).unwrap();
    assert_ne!(challenge, other);
    assert!(server_accept(SECRET, server_bytes, &other, &response).is_err());
    assert!(client_respond("", &client_id.to_string(), &challenge).is_err());
    assert!(client_respond(SECRET, &server_id.to_string(), &challenge).is_err());
    assert!(parse_local_device_id("not-a-uuid").is_err());
    assert!(parse_local_device_id(&Uuid::nil().to_string()).is_err());
}

#[test]
fn cleared_keys_are_gone() {
    let (mut client, _) = test_session_pair(50);
    let id = client.session_id;
    clear_session_keys(&mut client);
    assert_eq!(client.send_control_key, [0; 32]);
    assert_eq!(client.receive_raw_key, [0; 32]);
    assert_eq!(client.session_id, id);
}

#[test]
fn sealed_bytes_are_opened_only_as_they_were_sealed() {
    let key = [7u8; 32];
    let (nonce, body) = encrypt_bytes(b"plain", b"aad", &key).unwrap();
    assert_ne!(&body[..5], b"plain");
    assert_eq!(decrypt_bytes(&nonce, &body, b"aad", &key).unwrap(), b"plain");
    assert!(decrypt_bytes(&nonce, &body, b"other", &key).is_err());
    assert!(decrypt_bytes(&nonce, &body, b"aad", &[8u8; 32]).is_err());
    let again = encrypt_bytes_with(b"plain", b"aad", &key, &nonce).unwrap();
    assert_eq!(again, body);

    let (nonce, body) = encrypt_raw_payload_bytes(b"chunk", b"aad", &key).unwrap();
    assert_eq!(body.len(), 5 + 16);
    assert_eq!(decrypt_raw_payload_bytes(&nonce, &body, b"aad", &key).unwrap(), b"chunk");
    assert!(decrypt_raw_payload_bytes(&nonce, &body, b"other", &key).is_err());
    assert_eq!(encrypt_raw_payload_bytes_with(b"chunk", b"aad", &key, &nonce).unwrap(), body);
}

#[test]
fn domains_are_told_apart_by_their_code() {
    let mut settings = test_settings();
    settings.sync.shared_code = format!("  {SECRET} ");
    assert_eq!(effective_secret(&settings), SECRET);
    assert_eq!(discovery_domain_id(&settings), discovery_domain_id_from_secret(SECRET));
    assert_eq!(discovery_domain_id(&settings).len(), 32);
    assert_ne!(discovery_domain_id_from_secret(SECRET), discovery_domain_id_from_secret("other"));
    let keys = derive_session_key_material(SECRET, b"transcript").unwrap();
    let other = derive_session_key_material(SECRET, b"another").unwrap();
    assert_ne!(keys.session_id, other.session_id);
    assert_ne!(keys.client_to_server_control, keys.server_to_client_control);
    assert!(derive_session_key_material(" ", b"transcript").is_err());
}

#[test]
fn local_path_payloads_are_not_wire_serializable() {
    let item = base_item(
        ClipboardPayload::FileBundleDir {
            bundle_dir: "/tmp/private".to_string(),
            top_level_names: vec!["private".to_string()],
        },
        1,
    );
    let (mut client, _) = test_session_pair(1);
    assert!(encode_wire_message(&item, &test_settings(), &mut client, NOW_US).is_err());
}

#[test]
fn portable_payload_must_match_declared_size() {
    let item = base_item(ClipboardPayload::Text { text: "hello".to_string() }, 1);
    let (mut client, _) = test_session_pair(1);
    assert!(encode_wire_message(&item, &test_settings(), &mut client, NOW_US).is_err());
}

#[test]
fn images_require_raw_stream_transport() {
    let item = base_item(ClipboardPayload::ImagePng { png_bytes: vec![7; 32] }, 32);
    let (mut client, _) = test_session_pair(2);
    assert!(encode_wire_message(&item, &test_settings(), &mut client, NOW_US).is_err());
}

#[test]
fn image_stream_start_accepts_configured_total_size() {
    let settings = test_settings();
    let size_bytes = 27 * 1024 * 1024 + 1;
    let start = ImageStreamStart {
        item_id: Uuid::new_v4().to_string(),
        content_hash: "b".repeat(64),
        created_at_us: NOW_US,
        source_device_id: Uuid::from_u128(1).to_string(),
        size_bytes,
        chunk_count: size_bytes.div_ceil(RAW_PAYLOAD_PLAIN_BYTES),
    };
    let (mut client, mut server) = test_session_pair(3);
    let frame = encode_wire_body(
        &WireBody::ImageStreamRawStart(start.clone()),
        &settings,
        &mut client,
        NOW_US,
    )
    .unwrap();
    let decoded = decode_wire_body_bytes(&frame[4..], &settings, &mut server, NOW_US).unwrap();
    assert!(
        matches!(decoded, WireBody::ImageStreamRawStart(meta) if meta.size_bytes == size_bytes)
    );
    assert!(start.validate(&settings, NOW_US).is_ok());
}

#[test]
fn image_stream_start_rejects_decode_unsafe_size() {
    let mut settings = Settings::default();
    settings.limits.max_item_bytes = MAX_IMAGE_SOURCE_BYTES + 1;
    let size_bytes = MAX_IMAGE_SOURCE_BYTES + 1;
    let start = ImageStreamStart {
        item_id: Uuid::new_v4().to_string(),
        content_hash: "c".repeat(64),
        created_at_us: NOW_US,
        source_device_id: Uuid::from_u128(1).to_string(),
        size_bytes,
        chunk_count: size_bytes.div_ceil(RAW_PAYLOAD_PLAIN_BYTES),
    };
    assert!(start.validate(&settings, NOW_US).is_err());
}

#[test]
fn top_level_names_reject_traversal_and_duplicates() {
    assert!(validate_top_level_names(&vec!["../secret".to_string()]).is_err());
    assert!(validate_top_level_names(&vec!["A.txt".to_string(), "a.txt".to_string()]).is_err());
    assert!(validate_top_level_names(&vec!["safe.txt".to_string()]).is_ok());
}

#[test]
fn future_timestamps_are_rejected() {
    let item = ClipboardItem {
        created_at_us: NOW_US.saturating_add(MAX_FUTURE_CLOCK_SKEW_US + 1_000_000),
        ..hello()
    };
    let (mut client, _) = test_session_pair(1);
    assert!(encode_wire_message(&item, &test_settings(), &mut client, NOW_US).is_err());
}

#[test]
fn control_frames_are_session_bound_and_strictly_sequenced() {
    let settings = test_settings();
    let item = hello();
    let (mut client, mut server) = test_session_pair(11);
    let payload = encode_wire_message(&item, &settings, &mut client, NOW_US).unwrap();
    assert_eq!(u64::from_be_bytes(payload[22..30].try_into().unwrap()), 0);
    let decoded = decode_wire_body_bytes(&payload[4..], &settings, &mut server, NOW_US).unwrap();
    assert!(matches!(decoded, WireBody::ClipboardItem(_)));
    assert!(decode_wire_body_bytes(&payload[4..], &settings, &mut server, NOW_US).is_err());

    let (_, mut other_server) = test_session_pair(12);
    assert!(decode_wire_body_bytes(&payload[4..], &settings, &mut other_server, NOW_US).is_err());
}

#[test]
fn control_tampering_skipped_sequence_and_source_spoofing_fail() {
    let settings = test_settings();
    let item = hello();

    let (mut client, mut server) = test_session_pair(20);
    let mut payload = encode_wire_message(&item, &settings, &mut client, NOW_US).unwrap();
    *payload.last_mut().unwrap() ^= 1;
    assert!(decode_wire_body_bytes(&payload[4..], &settings, &mut server, NOW_US).is_err());

    let (mut client, mut server) = test_session_pair(21);
    let mut payload = encode_wire_message(&item, &settings, &mut client, NOW_US).unwrap();
    payload[22..30].copy_from_slice(&1u64.to_be_bytes());
    assert!(decode_wire_body_bytes(&payload[4..], &settings, &mut server, NOW_US).is_err());

    let mut spoofed = item;
    spoofed.source_device_id = Uuid::from_u128(99).to_string();
    let (mut client, mut server) = test_session_pair(22);
    let payload = encode_wire_message(&spoofed, &settings, &mut client, NOW_US).unwrap();
    assert!(decode_wire_body_bytes(&payload[4..], &settings, &mut server, NOW_US).is_err());
}

#[test]
fn raw_frames_bind_session_transfer_and_chunk() {
    let settings = test_settings();
    let transfer_id = Uuid::new_v4().to_string();
    let (client, server) = test_session_pair(30);
    let frame = encode_raw_payload_frame(&settings, &client, &transfer_id, 0, b"chunk").unwrap();
    assert_eq!(
        decode_raw_payload_frame(&frame, &settings, &server, &transfer_id, 0).unwrap(),
        b"chunk"
    );
    assert!(decode_raw_payload_frame(&frame, &settings, &server, &transfer_id, 1).is_err());
    assert!(decode_raw_payload_frame(&frame, &settings, &server, &Uuid::new_v4().to_string(), 0)
        .is_err());

    let (_, other_server) = test_session_pair(31);
    assert!(decode_raw_payload_frame(&frame, &settings, &other_server, &transfer_id, 0).is_err());
}

#[test]
fn items_arrive_as_they_were_sent() {
    let settings = test_settings();
    for payload in [
        ClipboardPayload::Text { text: "世界".to_string() },
        ClipboardPayload::Html { html: "<b>xyz".to_string() },
        ClipboardPayload::Rtf { rtf: "{\\rtf}".to_string() },
    ] {
        let kind = payload.kind();
        let item = base_item(payload, 6);
        let (mut client, mut server) = test_session_pair(60);
        let frame = encode_wire_message(&item, &settings, &mut client, NOW_US).unwrap();
        let WireBody::ClipboardItem(received) =
            decode_wire_body_bytes(&frame[4..], &settings, &mut server, NOW_US).unwrap()
        else {
            panic!("expected an item");
        };
        assert_eq!(received.id, item.id);
        assert_eq!(received.content_hash, item.content_hash);
        assert_eq!(received.created_at_us, item.created_at_us);
        assert_eq!(received.source_device_id, item.source_device_id);
        assert_eq!(received.size_bytes, 6);
        assert_eq!(received.payload.kind(), kind);
        assert_eq!(client.next_send_control_sequence, 1);
        assert_eq!(server.expected_receive_control_sequence, 1);
    }
}

#[test]
fn stream_frames_arrive_as_they_were_sent() {
    let settings = test_settings();
    let (mut client, mut server) = test_session_pair(61);
    let start = FileStreamStart {
        item_id: Uuid::new_v4().to_string(),
        content_hash: "d".repeat(64),
        created_at_us: NOW_US,
        source_device_id: Uuid::from_u128(1).to_string(),
        size_bytes: 3_000_000,
        chunk_count: chunks_for(3_000_000),
        top_level_names: vec!["a".to_string(), "b.txt".to_string()],
    };
    assert_eq!(start.chunk_count, 3);
    let frame = encode_wire_body(
        &WireBody::FileStreamRawStart(start.clone()),
        &settings,
        &mut client,
        NOW_US,
    )
    .unwrap();
    assert!(matches!(
        decode_wire_body_bytes(&frame[4..], &settings, &mut server, NOW_US).unwrap(),
        WireBody::FileStreamRawStart(meta)
            if meta.top_level_names == start.top_level_names && meta.chunk_count == 3
    ));
    let end = PayloadStreamEnd {
        item_id: start.item_id.clone(),
        chunk_count: 3,
        digest_sha256: [9; 32],
    };
    let frame =
        encode_wire_body(&WireBody::PayloadStreamEnd(end), &settings, &mut client, NOW_US).unwrap();
    assert!(matches!(
        decode_wire_body_bytes(&frame[4..], &settings, &mut server, NOW_US).unwrap(),
        WireBody::PayloadStreamEnd(end) if end.digest_sha256 == [9; 32] && end.chunk_count == 3
    ));
}

#[test]
fn frames_are_bounded() {
    let mut settings = test_settings();
    assert_eq!(control_frame_limit(&settings), 8_388_608 + 262_144);
    assert_eq!(raw_plain_limit(&settings), 1_048_576);
    settings.limits.max_item_bytes = 100;
    assert_eq!(control_frame_limit(&settings), 100 + 262_144);
    assert_eq!(raw_plain_limit(&settings), 100);
    assert!(raw_frame_limit(&settings) > 100);
    assert_eq!(length_prefixed(b"abc", 3).unwrap(), [0, 0, 0, 3, b'a', b'b', b'c']);
    assert!(length_prefixed(b"abcd", 3).is_err());
    assert_eq!(frame_length(&[0, 0, 1, 0], 256).unwrap(), 256);
    assert!(frame_length(&[0, 0, 1, 1], 256).is_err());
    assert!(frame_length(&[0, 0, 0, 0], 256).is_err());
    let (client, _) = test_session_pair(62);
    assert!(encode_raw_payload_frame(
        &settings,
        &client,
        &Uuid::new_v4().to_string(),
        0,
        &[1u8; 101]
    )
    .is_err());
}

#[test]
fn errors_of_the_wire_have_words() {
    let (mut client, _) = test_session_pair(63);
    let mut item = hello();
    item.id = "x".to_string();
    let error = encode_wire_message(&item, &test_settings(), &mut client, NOW_US).unwrap_err();
    assert_eq!(error, NetError::InvalidItemId);
    assert!(!error.message().is_empty());
}

#[test]
fn peers_are_written_as_text() {
    assert_eq!(peer_to_text("192.168.1.2", 32910), "192.168.1.2:32910");
    assert_eq!(parse_ipv4_peer("192.168.1.2:32910"), Some(([192, 168, 1, 2], 32910)));
    assert_eq!(parse_ipv4_peer("192.168.1.2"), None);
    assert_eq!(parse_ipv4_peer("192.168.1.2:65536"), None);
    let item = hello();
    assert_eq!(
        send_transfer_id("10.0.0.1:1", None, &item),
        format!("send:10.0.0.1:{}", item.id)
    );
    assert_eq!(
        send_transfer_id("[fe80::1]:1", Some("fe80::1"), &item),
        format!("send:fe80::1:{}", item.id)
    );
    assert_eq!(send_transfer_id("nobody", None, &item), format!("send:nobody:{}", item.id));
    let own = Some(IpAddress::V4([10, 0, 0, 1]));
    assert!(is_self_socket_addr(&IpAddress::V4([10, 0, 0, 1]), &own));
    assert!(!is_self_socket_addr(&IpAddress::V4([10, 0, 0, 2]), &own));
    assert!(is_self_socket_addr(&IpAddress::V4([127, 3, 0, 2]), &own));
    let mut ipv6 = [0u8; 16];
    ipv6[15] = 1;
    assert!(is_self_socket_addr(&IpAddress::V6(ipv6), &own));
    ipv6[0] = 0xfe;
    assert!(!is_self_socket_addr(&IpAddress::V6(ipv6), &own));
    assert!(is_self_socket_addr(&IpAddress::V6(ipv6), &Some(IpAddress::V6(ipv6))));
}

#[test]
fn sockets_are_tuned() {
    assert_eq!(write_timeout_for_payload(0), 8_000);
    assert_eq!(write_timeout_for_payload(u64::MAX), 120_000);
    assert_eq!(binds_source(None, None, AddressFamily::V4), Ok(false));
    assert_eq!(
        binds_source(Some("10.0.0.1"), Some(AddressFamily::V4), AddressFamily::V4),
        Ok(true)
    );
    assert_eq!(
        binds_source(Some("::1"), Some(AddressFamily::V6), AddressFamily::V4),
        Err(SourceError::OtherFamily)
    );
    assert_eq!(binds_source(Some("x"), None, AddressFamily::V4), Err(SourceError::Invalid));
}
