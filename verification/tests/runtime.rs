//! What a running synchronization does: queues, peers, transfers and streams.

use lan_clipboard::clipboard::types::ClipboardError;
use lan_clipboard::net::crypto::discovery_domain_id;
use lan_clipboard::net::deadline::{
    effective_read_deadline, handshake_deadline, remaining_before, Direction, ExchangeError,
    ReadDeadline, TimedExchange, TimedRead,
};
use lan_clipboard::net::dedupe::{
    recent_event_seen, register_ignored_local_hash, register_recent_event,
    should_drop_duplicate_outbound, should_ignore_local_observation, BoundedRecentSet,
    APPLIED_HASH_LIMIT, RECENT_EVENT_ID_LIMIT, RECENT_EVENT_TTL_MS,
};
use lan_clipboard::net::device::{
    is_valid_device_id, is_valid_discovery_domain_id, normalize_device_name,
    validate_discovered_device, DiscoveredDevice, DEVICE_NAME_MAX_BYTES,
};
use lan_clipboard::net::discovery::{
    build_service_info, discovery_budget, filter_devices_for_local_ip, info_to_device,
    is_likely_virtual_interface, list_network_interfaces, local_device_name, next_probe_timeout,
    pick_best_ipv4, pick_local_ip, reachability_workers, resolve_local_ip_override, sort_reachable_devices, udp_broadcast_targets,
    DiscoveryScan, LocalInterface, LocalIpError, PresenceError, ResolvedService,
    DISCOVERED_DEVICE_LIMIT, MDNS_RESOLVED_EVENT_LIMIT,
};
use lan_clipboard::net::display::{
    file_stream_label, file_stream_summary, looks_like_text_file, payload_label, payload_summary,
};
use lan_clipboard::net::domain::{clear_member_cache, collect_peer_targets, prune_stale_queue_entries};
use lan_clipboard::net::engine::{
    devices, prepare_start, presence_config, presence_must_restart, presence_signature, status,
};
use lan_clipboard::bytes::hex_of;
use lan_clipboard::clipboard::fingerprint::hex_hash;
use lan_clipboard::net::file_stream::{
    ensure_current, file_receive_deadline, file_receive_timeouts, file_stream_buffer_bytes,
    should_emit_progress, ChunkCounter, FileReceiveTimeouts, FrameCutter, StreamError,
    FILE_RECEIVE_IDLE_TIMEOUT_MS, FILE_RECEIVE_MAX_TOTAL_TIMEOUT_MS,
};
use lan_clipboard::net::flow::{
    enqueue_inbound_item, enqueue_outbound_item, finish_inbound_item, finish_outbound_item,
    next_inbound_item, next_outbound_item, should_skip_remote_item, ApplyResult, BroadcastReport,
    InboundOutcome, InboundStep, OutboundOutcome, OutboundStep,
};
use lan_clipboard::net::inbound::{
    acquire_payload_receive, begin_file_receive, begin_image_receive, finish_file_receive,
    finish_image_receive, handle_incoming_item, incoming_body, release_payload_receive,
    stream_ends_well, IncomingBody, IncomingConnections, StreamOutcome,
};
use lan_clipboard::net::ipv4::{ipv4_to_text, is_same_lan_scope, is_usable_ipv4, parse_ipv4};
use lan_clipboard::net::item::{build_item, build_item_with};
use lan_clipboard::net::lifecycle::{bind_address, finish_scan, note_loop_failure, plan_round};
use lan_clipboard::net::logs::{
    bounded_message, log_file_line, logs_tail, push_log, set_error, should_rotate_log_file,
    LOG_LIMIT, MAX_LOG_FILE_BYTES, MAX_LOG_MESSAGE_BYTES,
};
use lan_clipboard::net::marker::{compare_markers, item_marker, update_latest_item};
use lan_clipboard::net::members::{
    mark_known_member, merge_discovered_devices, prune_stale_discovered_devices,
    replace_discovered_devices, MemberCache, DISCOVERY_MEMBER_TTL_MS, KNOWN_MEMBER_LIMIT,
};
use lan_clipboard::net::metrics::{item_age_ms, percent_for};
use lan_clipboard::net::queue::{new_queue_entry, outbound_lane, schedule_retry, QueueLane};
use lan_clipboard::net::sender::{
    begin_send, broadcast_peers, broadcast_report, check_stream_sent, next_write_end,
    note_send_event, parallel_sends, stream_announcement, stream_end, SendEvent,
    MAX_PARALLEL_PEER_SENDS,
};
use lan_clipboard::net::state::RuntimeState;
use lan_clipboard::net::transfers::{
    current_transfers, has_active_transfers, update_transfer_progress, TRANSFER_RETENTION_MS,
};
use lan_clipboard::net::udp::{
    announcement_to_device, may_receive_announcement, own_announcement, DiscoveryAnnouncement,
    UDP_RECEIVE_PACKET_LIMIT,
};
use lan_clipboard::net::watch::{
    next_watch_interval, note_internal_content, should_read_snapshot, take_up_local_item,
};
use lan_clipboard::net::wire::{chunks_for, FileStreamStart, ImageStreamStart, PayloadStreamEnd, WireBody};
use lan_clipboard::net::workers::{main_loop_sleep_ms, queue_loop_sleep_ms};
use lan_clipboard::protocol::{ClipboardItem, ClipboardPayload};
use lan_clipboard::settings::Settings;
use uuid::Uuid;

const OWN_ID: u128 = 1;

fn id(value: u128) -> String {
    Uuid::from_u128(value).hyphenated().to_string()
}

fn settings() -> Settings {
    let mut settings = Settings::default();
    settings.sync.device_id = id(OWN_ID);
    settings
}

fn device(index: usize) -> DiscoveredDevice {
    DiscoveredDevice {
        device_id: id(index as u128 + 1),
        device_name: format!("device-{index:03}"),
        addr: format!("192.168.1.{}", index % 200 + 1),
        port: 32910,
    }
}

fn test_device(index: usize) -> DiscoveredDevice {
    DiscoveredDevice {
        device_id: id(index as u128 + 1),
        device_name: format!("device-{index}"),
        addr: "192.168.1.20".to_string(),
        port: 32910,
    }
}

fn text_item(number: u128, created_at_us: u64, source: u128) -> ClipboardItem {
    ClipboardItem {
        id: id(1000 + number),
        content_hash: format!("{number:064x}"),
        created_at_us,
        source_device_id: id(source),
        size_bytes: 5,
        payload: ClipboardPayload::Text { text: "hello".to_string() },
    }
}

fn interface(name: &str, ip: [u8; 4]) -> LocalInterface {
    LocalInterface { name: name.to_string(), ip }
}

fn announcement() -> DiscoveryAnnouncement {
    DiscoveryAnnouncement {
        v: 2,
        app: "lan-clipboard".to_string(),
        device_id: id(2),
        device_name: "peer laptop".to_string(),
        domain_id: "0123456789abcdef0123456789abcdef".to_string(),
        tcp_port: 32910,
    }
}

#[test]
fn recent_event_ids_have_a_hard_capacity_and_keep_newest_entries() {
    let mut state = RuntimeState::new();
    for index in 0..(RECENT_EVENT_ID_LIMIT + 32) {
        register_recent_event(&mut state, &format!("event-{index:05}"), 0);
    }
    assert_eq!(state.recent_event_ids.len(), RECENT_EVENT_ID_LIMIT);
    assert_eq!(state.recent_event_ids.entries.len(), RECENT_EVENT_ID_LIMIT);
    assert!(!state.recent_event_ids.contains("event-00000"));
    assert!(state.recent_event_ids.contains(&format!("event-{:05}", RECENT_EVENT_ID_LIMIT + 31)));
}

#[test]
fn applied_hashes_have_a_hard_capacity_and_keep_newest_entries() {
    let mut state = RuntimeState::new();
    for index in 0..(APPLIED_HASH_LIMIT + 32) {
        register_ignored_local_hash(&mut state, &format!("hash-{index:05}"), 0);
    }
    assert_eq!(state.ignored_local_hashes.len(), APPLIED_HASH_LIMIT);
    assert_eq!(state.ignored_local_hashes.entries.len(), APPLIED_HASH_LIMIT);
    assert!(!state.ignored_local_hashes.contains("hash-00000"));
    assert!(state.ignored_local_hashes.contains(&format!("hash-{:05}", APPLIED_HASH_LIMIT + 31)));
}

#[test]
fn repeated_keys_do_not_grow_the_fifo_sidecar() {
    let mut state = RuntimeState::new();
    for _ in 0..(RECENT_EVENT_ID_LIMIT * 2) {
        register_recent_event(&mut state, "same-event", 0);
        register_ignored_local_hash(&mut state, "same-hash", 0);
    }
    assert_eq!(state.recent_event_ids.len(), 1);
    assert_eq!(state.recent_event_ids.entries.len(), 1);
    assert_eq!(state.ignored_local_hashes.len(), 1);
    assert_eq!(state.ignored_local_hashes.entries.len(), 1);
}

#[test]
fn keys_expire_when_they_are_too_old() {
    let mut set = BoundedRecentSet::new(100, 2);
    set.insert("a", 0);
    set.insert("b", 50);
    assert!(set.contains_fresh("a", 99));
    assert!(!set.contains_fresh("a", 100));
    assert!(set.contains_fresh("b", 101));
    set.insert("c", 102);
    set.insert("d", 103);
    assert!(!set.contains("b") && set.contains("c") && set.contains("d"));
    set.clear();
    assert_eq!(set.len(), 0);

    let mut state = RuntimeState::new();
    register_recent_event(&mut state, "event", 10);
    assert!(recent_event_seen(&mut state, "event", 9 + RECENT_EVENT_TTL_MS));
    assert!(!recent_event_seen(&mut state, "event", 10 + RECENT_EVENT_TTL_MS));
}

#[test]
fn discovered_member_caches_remain_bounded() {
    let mut cache = MemberCache::new();
    merge_discovered_devices(&mut cache, (0..(DISCOVERED_DEVICE_LIMIT * 3)).map(device).collect(), 0);
    assert!(cache.devices.len() <= DISCOVERED_DEVICE_LIMIT);
    assert!(cache.seen_at.len() <= DISCOVERED_DEVICE_LIMIT);

    replace_discovered_devices(
        &mut cache,
        None,
        (400..(400 + DISCOVERED_DEVICE_LIMIT * 3)).map(device).collect(),
        0,
    );
    assert!(cache.devices.len() <= DISCOVERED_DEVICE_LIMIT);
    assert!(cache.seen_at.len() <= DISCOVERED_DEVICE_LIMIT);
}

#[test]
fn known_member_cache_evicts_at_hard_limit() {
    let mut known = Vec::new();
    for index in 0..(KNOWN_MEMBER_LIMIT * 3) {
        mark_known_member(&mut known, "addr", &format!("192.168.1.1:{}", 1024 + index));
    }
    assert_eq!(known.len(), KNOWN_MEMBER_LIMIT);
}

#[test]
fn only_silent_devices_leave_the_cache() {
    let mut cache = MemberCache::new();
    merge_discovered_devices(&mut cache, vec![device(1)], 0);
    merge_discovered_devices(&mut cache, vec![device(2)], 10_000);
    merge_discovered_devices(&mut cache, Vec::new(), 20_000);
    prune_stale_discovered_devices(&mut cache, DISCOVERY_MEMBER_TTL_MS - 1);
    assert_eq!(cache.devices.len(), 2);
    prune_stale_discovered_devices(&mut cache, DISCOVERY_MEMBER_TTL_MS);
    assert_eq!(cache.devices.len(), 1);
    assert_eq!(cache.devices[0].device_id, device(2).device_id);
}

#[test]
fn validates_discovery_identity_fields() {
    assert!(is_valid_device_id("550e8400-e29b-41d4-a716-446655440000"));
    assert!(!is_valid_device_id("550E8400-E29B-41D4-A716-446655440000"));
    assert!(!is_valid_device_id("not-a-uuid"));
    assert!(is_valid_discovery_domain_id("0123456789abcdef0123456789abcdef"));
    assert!(!is_valid_discovery_domain_id("0123456789ABCDEF0123456789ABCDEF"));
    assert_eq!(normalize_device_name(" laptop ").as_deref(), Some("laptop"));
    assert!(normalize_device_name("bad\nname").is_none());
    assert!(normalize_device_name(&"x".repeat(DEVICE_NAME_MAX_BYTES + 1)).is_none());
}

#[test]
fn validates_complete_discovered_device() {
    assert!(validate_discovered_device(&test_device(1)));
    let mut invalid = test_device(2);
    invalid.port = 0;
    assert!(!validate_discovered_device(&invalid));
    invalid = test_device(3);
    invalid.addr = "127.0.0.1".to_string();
    assert!(!validate_discovered_device(&invalid));
}

#[test]
fn private_scope_prefilter_does_not_assume_a_slash_24_netmask() {
    let ip = |text: &str| parse_ipv4(text).expect("address");
    assert!(is_same_lan_scope(&ip("10.20.1.4"), &ip("10.20.200.9")));
    assert!(is_same_lan_scope(&ip("192.168.0.4"), &ip("192.168.1.9")));
    assert!(!is_same_lan_scope(&ip("10.20.1.4"), &ip("192.168.1.9")));
    assert!(is_same_lan_scope(&ip("100.64.0.4"), &ip("100.64.8.9")));
}

#[test]
fn addresses_are_read_and_written() {
    assert_eq!(parse_ipv4("192.168.1.20"), Some([192, 168, 1, 20]));
    assert_eq!(parse_ipv4("192.168.1.256"), None);
    assert_eq!(parse_ipv4("192.168.01.2"), None);
    assert_eq!(parse_ipv4("1.2.3"), None);
    assert_eq!(ipv4_to_text(&[10, 0, 255, 1]), "10.0.255.1");
    assert!(!is_usable_ipv4(&[127, 0, 0, 1]));
    assert!(!is_usable_ipv4(&[169, 254, 1, 1]));
    assert!(is_usable_ipv4(&[192, 168, 1, 1]));
}

#[test]
fn local_addresses_are_chosen_from_real_interfaces() {
    assert_eq!(
        pick_best_ipv4(&vec![[8, 8, 8, 8], [192, 168, 1, 5]]),
        Some([192, 168, 1, 5])
    );
    assert_eq!(pick_best_ipv4(&vec![[127, 0, 0, 1]]), None);
    assert!(is_likely_virtual_interface("vEthernet (WSL)", true));
    assert!(!is_likely_virtual_interface("vEthernet (WSL)", false));
    assert!(!is_likely_virtual_interface("Wi-Fi", true));
    let interfaces = Some(vec![
        interface("vEthernet (WSL)", [172, 17, 0, 1]),
        interface("eth0", [192, 168, 1, 5]),
    ]);
    assert_eq!(pick_local_ip(&interfaces, true), Some([192, 168, 1, 5]));
    assert_eq!(resolve_local_ip_override("", false, &interfaces), Ok(None));
    assert_eq!(resolve_local_ip_override("192.168.1.5", false, &interfaces), Ok(Some([192, 168, 1, 5])));
    assert_eq!(resolve_local_ip_override("fe80::1", true, &interfaces), Err(LocalIpError::NotIpv4));
    assert_eq!(
        LocalIpError::NotIpv4.message("fe80::1"),
        "selected local ip must be ipv4: fe80::1"
    );
    assert_eq!(resolve_local_ip_override("bad", false, &interfaces), Err(LocalIpError::Invalid));
    assert_eq!(resolve_local_ip_override("192.168.1.6", false, &interfaces), Ok(None));
    assert_eq!(resolve_local_ip_override("127.0.0.1", false, &interfaces), Err(LocalIpError::NotUsable));
    let options = list_network_interfaces(&interfaces, false);
    assert!(options.iter().any(|option| option.ip == "192.168.1.5" && option.name == "eth0"));
}

#[test]
fn devices_outside_the_selected_network_are_left_out() {
    let interfaces = Some(vec![interface("eth0", [10, 0, 0, 5])]);
    let mut near = test_device(1);
    near.addr = "10.9.0.1".to_string();
    let kept = filter_devices_for_local_ip(
        vec![near, test_device(2)],
        Some("10.0.0.5"),
        &interfaces,
    );
    assert_eq!(kept.len(), 1);
    assert_eq!(kept[0].addr, "10.9.0.1");
    assert_eq!(
        udp_broadcast_targets("", &interfaces),
        [[255, 255, 255, 255], [10, 0, 0, 255]]
    );
}

#[test]
fn discovery_splits_its_time() {
    let budget = discovery_budget(2_200);
    assert_eq!(budget.shutdown_ms, 100);
    assert_eq!(budget.reachability_ms, 400);
    assert_eq!(budget.browse_ms + budget.shutdown_ms + budget.reachability_ms, 2_200);
}

fn resolved(device_id: &str, address: [u8; 4]) -> ResolvedService {
    ResolvedService {
        fullname: format!("{device_id}._lan-clipboard._tcp.local."),
        device_id: Some(device_id.to_string()),
        domain_id: Some("0123456789abcdef0123456789abcdef".to_string()),
        device_name: Some("peer".to_string()),
        addresses: vec![address],
        port: 32910,
    }
}

#[test]
fn resolved_services_become_devices() {
    let domain = "0123456789abcdef0123456789abcdef";
    let found = info_to_device(&resolved(&id(2), [192, 168, 1, 9]), &id(1), domain, None)
        .expect("device");
    assert_eq!(found.addr, "192.168.1.9");
    assert!(info_to_device(&resolved(&id(1), [192, 168, 1, 9]), &id(1), domain, None).is_none());
    let other = "ffffffffffffffffffffffffffffffff";
    assert!(info_to_device(&resolved(&id(2), [192, 168, 1, 9]), &id(1), other, None).is_none());

    let mut scan = DiscoveryScan::new();
    assert!(scan.observe(&resolved(&id(2), [192, 168, 1, 9]), &id(1), domain, None));
    scan.observe(&resolved(&id(2), [192, 168, 1, 9]), &id(1), domain, None);
    assert_eq!(scan.devices.len(), 1);
    let mut rounds = 2;
    while scan.observe(&resolved(&id(2), [192, 168, 1, 9]), &id(1), domain, None) {
        rounds += 1;
        assert!(rounds <= MDNS_RESOLVED_EVENT_LIMIT);
    }
    let mut list = vec![device(3), device(1)];
    sort_reachable_devices(&mut list);
    assert_eq!(list[0].device_name, "device-001");
}

#[test]
fn services_are_announced_with_a_valid_identity() {
    let settings = settings();
    let names = vec!["laptop".to_string()];
    assert_eq!(local_device_name(&names, &id(1)), "laptop");
    assert!(local_device_name(&Vec::new(), &id(1)).len() > 0);
    let interfaces = Some(vec![interface("eth0", [192, 168, 1, 5])]);
    let config = presence_config(&settings, &id(1), &names);
    let record = build_service_info(&config, false, &interfaces, false).expect("record");
    assert_eq!(record.ip, "192.168.1.5");
    assert_eq!(record.port, settings.sync.listen_port);
    assert_eq!(record.device_name, "laptop");
    let signature = presence_signature(&config);
    assert!(!presence_must_restart(&Some(signature.clone()), true, &signature));
    assert!(presence_must_restart(&Some(signature.clone()), false, &signature));
    assert!(presence_must_restart(&None, true, &signature));
    assert_eq!(build_service_info(&config, false, &None, false).unwrap_err(), PresenceError::NoLocalIp);
}

#[test]
fn accepts_only_well_formed_udp_announcements() {
    let expected_domain = "0123456789abcdef0123456789abcdef";
    let source = Some([192, 168, 1, 10]);
    assert!(announcement_to_device(&announcement(), source, &id(1), expected_domain).is_some());

    let mut invalid = announcement();
    invalid.tcp_port = 0;
    assert!(announcement_to_device(&invalid, source, &id(1), expected_domain).is_none());
    invalid = announcement();
    invalid.device_name = "bad\nname".to_string();
    assert!(announcement_to_device(&invalid, source, &id(1), expected_domain).is_none());
    invalid = announcement();
    invalid.device_id = "not-a-uuid".to_string();
    assert!(announcement_to_device(&invalid, source, &id(1), expected_domain).is_none());
}

#[test]
fn own_announcements_are_understood_by_others() {
    let settings = settings();
    let own = own_announcement(&settings, &id(1), "laptop").expect("announcement");
    let found = announcement_to_device(&own, Some([192, 168, 1, 10]), &id(2), &own.domain_id)
        .expect("device");
    assert_eq!(found.device_id, id(1));
    assert_eq!(found.device_name, "laptop");
    assert_eq!(found.addr, "192.168.1.10");
    assert!(announcement_to_device(&own, Some([192, 168, 1, 10]), &id(1), &own.domain_id).is_none());
    assert!(may_receive_announcement(UDP_RECEIVE_PACKET_LIMIT - 1, 0, false));
    assert!(!may_receive_announcement(UDP_RECEIVE_PACKET_LIMIT, 0, false));
    assert!(!may_receive_announcement(0, 0, true));
}

#[test]
fn writer_buffer_is_bounded_by_configured_item_limit() {
    let mut settings = settings();
    settings.limits.max_item_bytes = 64 * 1024;
    assert_eq!(file_stream_buffer_bytes(&settings), 64 * 1024);

    settings.limits.max_item_bytes = u64::MAX;
    assert_eq!(file_stream_buffer_bytes(&settings), 1_048_576);
}

#[test]
fn receive_timeout_budget_is_fast_to_override_and_absolutely_bounded() {
    let small = file_receive_timeouts(1);
    assert_eq!(small.total_ms, 31_000);
    assert_eq!(small.idle_ms, FILE_RECEIVE_IDLE_TIMEOUT_MS);

    let huge = file_receive_timeouts(u64::MAX);
    assert_eq!(huge.total_ms, FILE_RECEIVE_MAX_TOTAL_TIMEOUT_MS);

    let test_override = FileReceiveTimeouts { total_ms: 5, idle_ms: 1 };
    assert_eq!(test_override.total_ms, 5);
    assert_eq!(test_override.idle_ms, 1);
    let deadline = file_receive_deadline(test_override, 100);
    assert_eq!(deadline.total_deadline_ms, 105);
    assert_eq!(deadline.idle_timeout_ms, 1);
}

#[test]
fn trickle_progress_does_not_extend_the_total_deadline() {
    let mut read = TimedRead::start(ReadDeadline::new(100, 40), 0);
    assert_eq!(read.remaining(0), Some(40));
    assert_eq!(read.remaining(40), None);
    read.progress(30);
    assert_eq!(read.remaining(50), Some(20));
    read.progress(65);
    read.progress(95);
    assert_eq!(read.remaining(99), Some(1));
    assert_eq!(read.remaining(100), None);
    assert_eq!(remaining_before(10, 4), Some(6));
    assert_eq!(remaining_before(10, 10), None);
    let own = effective_read_deadline(1_000, 0, None);
    assert_eq!(own.total_deadline_ms, 9_000);
    let external = effective_read_deadline(1_000, 0, Some(ReadDeadline::new(2_000, 5)));
    assert_eq!((external.total_deadline_ms, external.idle_timeout_ms), (2_000, 5));
    let patient = effective_read_deadline(1_000, 0, Some(ReadDeadline::new(90_000, 60_000)));
    assert_eq!((patient.total_deadline_ms, patient.idle_timeout_ms), (9_000, 30_000));
}

#[test]
fn handshake_read_deadline_is_not_extended_by_trickle_progress() {
    let mut exchange = TimedExchange::start(Direction::Read, 10, 70);
    let mut now = 0;
    let result = loop {
        match exchange.next(now) {
            Ok(Some(wait)) => {
                assert_eq!(now + wait, 70);
                now += wait.min(20);
                exchange.moved(1).expect("byte");
            }
            Ok(None) => break Ok(()),
            Err(error) => break Err(error),
        }
    };
    assert_eq!(result, Err(ExchangeError::DeadlineExceeded));
    assert!(now < 1_000);
    assert_eq!(exchange.done, 4);
}

#[test]
fn handshakes_have_two_seconds() {
    let deadline = handshake_deadline(500);
    assert_eq!(deadline, 2_500);
    assert_eq!(handshake_deadline(u64::MAX), u64::MAX);
    let mut write = TimedExchange::start(Direction::Write, 4, deadline);
    assert_eq!(write.next(2_499), Ok(Some(1)));
    assert_eq!(write.next(2_500), Err(ExchangeError::DeadlineExceeded));
    assert_eq!(write.moved(0), Err(ExchangeError::PeerStoppedAccepting));
    assert_eq!(write.moved(4), Ok(()));
    assert_eq!(write.next(9_999), Ok(None));
    let mut read = TimedExchange::start(Direction::Read, 4, deadline);
    let closed = read.moved(0).unwrap_err();
    assert_eq!(closed.message(), "peer closed during handshake");
}

#[test]
fn pieces_of_a_stream_are_cut_to_size() {
    let mut settings = settings();
    settings.limits.max_item_bytes = 4;
    let mut cutter = FrameCutter::new(&settings, 10);
    assert_eq!(cutter.push(b"abc").len(), 0);
    let frames = cutter.push(b"defghij");
    assert_eq!(frames, [b"abcd".to_vec(), b"efgh".to_vec()]);
    assert_eq!(cutter.claim(&frames[0]), Ok(0));
    assert_eq!(cutter.claim(&frames[1]), Ok(1));
    let rest = cutter.take_rest().expect("rest");
    assert_eq!(rest, b"ij");
    assert_eq!(cutter.claim(&rest), Ok(2));
    assert!(cutter.take_rest().is_none());
    assert_eq!(cutter.claim(b"k"), Err(StreamError::ExceededDeclaredSize));
    assert_eq!(hex_of(&cutter.digest_sha256()), hex_hash(b"abcdefghij"));

    let mut counter = ChunkCounter::new(6);
    assert!(counter.expects_more());
    assert_eq!(counter.accept(b"abcd"), Ok(()));
    assert_eq!(
        counter.ensure_complete(),
        Err(StreamError::Incomplete { received: 4, expected: 6 })
    );
    assert_eq!(counter.accept(b"efg"), Err(StreamError::ExceededExpectedSize));
    assert_eq!(counter.accept(b"ef"), Ok(()));
    assert!(!counter.expects_more());
    assert_eq!(counter.ensure_complete(), Ok(()));
    assert_eq!(hex_of(&counter.digest_sha256()), hex_hash(b"abcdef"));
    assert!(should_emit_progress(250, 1, 10));
    assert!(!should_emit_progress(249, 1, 10));
    assert!(should_emit_progress(0, 10, 10));
}

#[test]
fn log_messages_are_bounded_without_splitting_utf8() {
    let message = "界".repeat(MAX_LOG_MESSAGE_BYTES);
    let bounded = bounded_message(&message);
    assert!(bounded.len() <= MAX_LOG_MESSAGE_BYTES);
    assert!(bounded.ends_with("… [truncated]"));
    assert_eq!(bounded_message("short"), "short");
}

#[test]
fn logs_are_kept_up_to_a_limit() {
    let mut logs = Vec::new();
    for index in 0..(LOG_LIMIT + 5) {
        push_log(&mut logs, "info", &format!("line {index}"), index as u64);
    }
    assert_eq!(logs.len(), LOG_LIMIT);
    assert_eq!(logs[0].message, "line 5");
    let tail = logs_tail(&logs, 2);
    assert_eq!(tail.len(), 2);
    assert_eq!(tail[1].message, format!("line {}", LOG_LIMIT + 4));
    let mut last_error = None;
    set_error(&mut last_error, &mut logs, "bad", 9);
    assert_eq!(last_error.as_deref(), Some("bad"));
    assert_eq!(logs[LOG_LIMIT - 1].level, "ERROR");
    assert!(should_rotate_log_file(Some(MAX_LOG_FILE_BYTES), "x"));
    assert!(!should_rotate_log_file(None, "x"));
    assert!(log_file_line(5, "info", 7, "text").contains("text"));
}

#[test]
fn shares_and_ages_are_whole_numbers() {
    assert_eq!(percent_for(0, 0), 0);
    assert_eq!(percent_for(1, 3), 33);
    assert_eq!(percent_for(5, 3), 100);
    assert_eq!(item_age_ms(&text_item(1, 1_000_000, 2), 3_500_000), 2_500);
    assert_eq!(item_age_ms(&text_item(1, 5_000_000, 2), 3_500_000), 0);
}

#[test]
fn labels_say_what_a_payload_is() {
    assert!(looks_like_text_file("Notes.TXT"));
    assert!(!looks_like_text_file("photo.png"));
    let one = vec!["a.txt".to_string()];
    let two = vec!["a.txt".to_string(), "b.png".to_string()];
    assert_ne!(file_stream_label(&one), file_stream_label(&two));
    assert!(file_stream_summary(&one).contains("a.txt"));
    let text = ClipboardPayload::Text { text: "hello".to_string() };
    assert!(payload_summary(&text).contains("hello"));
    assert!(payload_label(&text).len() > 0);
}

#[test]
fn the_latest_event_wins_on_every_device() {
    let older = text_item(1, 10, 5);
    let newer = text_item(2, 11, 2);
    let tie = text_item(3, 11, 3);
    let mut latest = None;
    assert!(update_latest_item(&mut latest, &older));
    assert!(update_latest_item(&mut latest, &newer));
    assert!(!update_latest_item(&mut latest, &older));
    assert!(update_latest_item(&mut latest, &tie));
    assert_eq!(latest.unwrap().id, tie.id);
    assert_eq!(
        compare_markers(&item_marker(&older), &item_marker(&newer)),
        std::cmp::Ordering::Less
    );
    assert_eq!(
        compare_markers(&item_marker(&tie), &item_marker(&newer)),
        std::cmp::Ordering::Greater
    );
}

#[test]
fn copies_are_sent_once_and_taken_up_everywhere() {
    let mut state = RuntimeState::new();
    let item = text_item(1, 10, OWN_ID);
    let (taken, discarded) = take_up_local_item(&mut state, item.clone(), 0);
    assert!(taken && discarded.is_empty());
    let (again, _) = take_up_local_item(&mut state, item.clone(), 1);
    assert!(!again);

    let lanes = [QueueLane::Realtime, QueueLane::Visual, QueueLane::Bulk];
    let OutboundStep::Send { entry } = next_outbound_item(&mut state, &lanes, 1) else {
        panic!("expected an item");
    };
    assert_eq!(entry.item.id, item.id);
    let report = BroadcastReport {
        attempted: 2,
        delivered: 1,
        failed_peers: vec!["10.0.0.2:32910".to_string()],
        deferred: false,
    };
    assert_eq!(finish_outbound_item(&mut state, entry, report, 2), OutboundOutcome::Retrying);
    assert!(matches!(next_outbound_item(&mut state, &lanes, 2), OutboundStep::Idle));
    let OutboundStep::Send { entry } = next_outbound_item(&mut state, &lanes, 600) else {
        panic!("expected the item again");
    };
    assert_eq!(entry.pending_peers, Some(vec!["10.0.0.2:32910".to_string()]));
    let report = BroadcastReport {
        attempted: 1,
        delivered: 1,
        failed_peers: Vec::new(),
        deferred: false,
    };
    assert_eq!(finish_outbound_item(&mut state, entry, report, 601), OutboundOutcome::Completed);
    assert!(state.outbound_queue.is_empty());
    assert!(should_drop_duplicate_outbound(&mut state, &item, 601));
}

#[test]
fn items_wait_for_peers() {
    let mut state = RuntimeState::new();
    enqueue_outbound_item(&mut state, text_item(1, 10, OWN_ID), 0);
    let OutboundStep::Send { entry } = next_outbound_item(&mut state, &[QueueLane::Realtime], 0)
    else {
        panic!("expected an item");
    };
    let report =
        BroadcastReport { attempted: 0, delivered: 0, failed_peers: Vec::new(), deferred: false };
    assert_eq!(finish_outbound_item(&mut state, entry, report, 0), OutboundOutcome::Retrying);
    assert_eq!(state.outbound_queue.len(), 1);
}

#[test]
fn the_same_content_is_sent_once() {
    let mut state = RuntimeState::new();
    let first = text_item(1, 10, OWN_ID);
    let copied_again = ClipboardItem { id: id(2_000), created_at_us: 20, ..first.clone() };
    assert!(enqueue_outbound_item(&mut state, first, 0).0);
    assert!(!enqueue_outbound_item(&mut state, copied_again.clone(), 20_000).0);
    assert_eq!(state.outbound_queue.len(), 1);

    let OutboundStep::Send { entry } =
        next_outbound_item(&mut state, &[QueueLane::Realtime], 20_000)
    else {
        panic!("expected an item");
    };
    assert!(!enqueue_outbound_item(&mut state, copied_again.clone(), 20_001).0);
    let report =
        BroadcastReport { attempted: 2, delivered: 2, failed_peers: Vec::new(), deferred: false };
    assert_eq!(finish_outbound_item(&mut state, entry, report, 20_002), OutboundOutcome::Completed);
    assert!(!enqueue_outbound_item(&mut state, copied_again, 900_000).0);
    assert!(state.outbound_queue.is_empty());
    assert!(enqueue_outbound_item(&mut state, text_item(2, 30, OWN_ID), 900_001).0);
}

#[test]
fn lanes_keep_bulk_out_of_the_way() {
    let image = ClipboardItem {
        payload: ClipboardPayload::ImagePng { png_bytes: vec![1] },
        ..text_item(1, 10, 1)
    };
    let files = ClipboardItem {
        payload: ClipboardPayload::FileList {
            paths: vec!["/a".to_string()],
            top_level_names: vec!["a".to_string()],
            estimated_archive_bytes: 1,
        },
        ..text_item(2, 10, 1)
    };
    assert_eq!(outbound_lane(&new_queue_entry(text_item(3, 1, 1), 0)), QueueLane::Realtime);
    assert_eq!(outbound_lane(&new_queue_entry(image, 0)), QueueLane::Visual);
    assert_eq!(outbound_lane(&new_queue_entry(files, 0)), QueueLane::Bulk);
}

#[test]
fn received_items_are_applied_once() {
    let mut state = RuntimeState::new();
    let item = text_item(1, 10, 2);
    let (accepted, _) =
        handle_incoming_item(&mut state, "10.0.0.2:1", item.clone(), &id(OWN_ID), false, 0);
    assert!(accepted);
    let InboundStep::Apply { entry, transfer_id } = next_inbound_item(&mut state, 0) else {
        panic!("expected an item");
    };
    assert!(transfer_id.is_some());
    let result = ApplyResult::Applied { content_hash: Some("f".repeat(64)) };
    assert!(matches!(
        finish_inbound_item(&mut state, entry, transfer_id, result, 1),
        InboundOutcome::Applied { .. }
    ));
    assert!(state.ignored_local_hashes.contains(&"f".repeat(64)));
    assert!(state.ignored_local_hashes.contains(&item.content_hash));
    let (accepted, _) =
        handle_incoming_item(&mut state, "10.0.0.2:1", item.clone(), &id(OWN_ID), false, 2);
    assert!(!accepted);
    let (skip, _) = should_skip_remote_item(&mut state, &item, 3);
    assert!(skip);
    let echo = ClipboardItem { content_hash: "f".repeat(64), ..text_item(9, 20, OWN_ID) };
    assert!(should_ignore_local_observation(&mut state, &echo, 4));
}

#[test]
fn own_items_are_not_accepted_from_others() {
    let mut state = RuntimeState::new();
    let own = text_item(1, 10, OWN_ID);
    let (accepted, _) =
        handle_incoming_item(&mut state, "10.0.0.2:1", own, &id(OWN_ID), false, 0);
    assert!(!accepted);
    let other = text_item(2, 10, 2);
    let (accepted, _) =
        handle_incoming_item(&mut state, "10.0.0.2:1", other, &id(OWN_ID), true, 0);
    assert!(!accepted);
}

#[test]
fn busy_clipboards_are_tried_again() {
    let mut state = RuntimeState::new();
    enqueue_inbound_item(&mut state, text_item(1, 10, 2), "receive:x", "10.0.0.2:1", 0);
    let InboundStep::Apply { entry, transfer_id } = next_inbound_item(&mut state, 0) else {
        panic!("expected an item");
    };
    let busy = ApplyResult::Busy { error: "busy".to_string() };
    assert!(matches!(
        finish_inbound_item(&mut state, entry, transfer_id, busy, 0),
        InboundOutcome::Retrying
    ));
    let InboundStep::Apply { entry, transfer_id } = next_inbound_item(&mut state, 1_000) else {
        panic!("expected the item again");
    };
    let failed = ApplyResult::Failed { error: "unsupported".to_string() };
    assert!(matches!(
        finish_inbound_item(&mut state, entry, transfer_id, failed, 1_000),
        InboundOutcome::Discarded { .. }
    ));
    assert!(state.inbound_queue.is_empty());
}

#[test]
fn overtaken_items_are_dropped() {
    let mut state = RuntimeState::new();
    enqueue_inbound_item(&mut state, text_item(1, 10, 2), "receive:x", "10.0.0.2:1", 0);
    update_latest_item(&mut state.latest_item, &text_item(2, 20, 3));
    let discarded = prune_stale_queue_entries(&mut state);
    assert_eq!(discarded.len(), 1);
    assert!(matches!(next_inbound_item(&mut state, 0), InboundStep::Idle));
}

#[test]
fn settings_changes_forget_members() {
    let mut state = RuntimeState::new();
    merge_discovered_devices(&mut state.members, vec![device(3)], 0);
    clear_member_cache(&mut state);
    assert!(state.members.devices.is_empty());
    merge_discovered_devices(&mut state.members, vec![device(3)], 0);
    finish_scan(&mut state, Ok(Vec::new()), 1);
    assert_eq!(state.members.devices.len(), 1);
    finish_scan(&mut state, Err("mdns".to_string()), 2);
    assert_eq!(state.members.devices.len(), 1);
}

#[test]
fn peers_are_the_devices_found() {
    let settings = settings();
    let mut state = RuntimeState::new();
    merge_discovered_devices(&mut state.members, vec![device(3), device(1), device(0)], 0);
    let interfaces = Some(vec![interface("eth0", [192, 168, 1, 100])]);
    let peers = collect_peer_targets(&mut state, &settings, &interfaces, false, 0);
    assert_eq!(peers, ["192.168.1.2:32910", "192.168.1.4:32910"]);
    let pending = Some(vec!["192.168.1.4:32910".to_string(), "192.168.1.9:32910".to_string()]);
    let peers = broadcast_peers(&mut state, &settings, &pending, &interfaces, false, 0);
    assert!(peers.contains(&"192.168.1.4:32910".to_string()));
    assert!(!peers.contains(&"192.168.1.2:32910".to_string()));
    let shown = devices(&mut state, None, &interfaces, 0);
    assert_eq!(shown.len(), 3);
    let names = vec!["laptop".to_string()];
    let status = status(&mut state, true, &settings, &names, None, &interfaces, false, 0);
    assert!(status.running);
    assert_eq!(status.device_name, "laptop");
}

#[test]
fn peer_worker_pool_caps_peak_concurrency_and_preserves_failures() {
    let mut state = RuntimeState::new();
    let peers: Vec<String> = (0..16).map(|index| format!("peer-{index}")).collect();
    let outcomes = peers.iter().map(|peer| peer != "peer-3" && peer != "peer-12").collect();
    let report = broadcast_report(&mut state, &text_item(1, 10, OWN_ID), peers, outcomes);
    assert_eq!(report.attempted, 16);
    assert_eq!(report.delivered, 14);
    assert_eq!(report.failed_peers, ["peer-3", "peer-12"]);
    assert_eq!(parallel_sends(16), MAX_PARALLEL_PEER_SENDS);
    assert_eq!(parallel_sends(3), 3);
}

#[test]
fn sending_is_shown_as_a_transfer() {
    let mut state = RuntimeState::new();
    let item = text_item(1, 10, OWN_ID);
    let transfer = begin_send(&mut state, "10.0.0.2:32910", None, &item, 0).expect("transfer");
    assert!(has_active_transfers(&state.transfers));
    update_transfer_progress(&mut state.transfers, &transfer, 2, 5, 1);
    assert_eq!(current_transfers(&mut state.transfers, 1)[0].percent, 40);
    assert_eq!(next_write_end(&state, &transfer, false, 0, 5_000_000), Ok(4_194_304));
    assert_eq!(next_write_end(&state, &transfer, false, 4_194_304, 5_000_000), Ok(5_000_000));
    assert_eq!(next_write_end(&state, &transfer, true, 0, 5), Err(StreamError::Canceled));
    assert!(note_send_event(&mut state, &item, "10.0.0.2:32910", &transfer, SendEvent::Delivered, 2));
    assert!(!has_active_transfers(&state.transfers));
    assert_eq!(current_transfers(&mut state.transfers, 2 + TRANSFER_RETENTION_MS + 1).len(), 0);

    let transfer = begin_send(&mut state, "10.0.0.3:32910", None, &item, 3).expect("transfer");
    let event = SendEvent::ConnectFailed { error: "refused".to_string() };
    assert!(!note_send_event(&mut state, &item, "10.0.0.3:32910", &transfer, event, 4));
    assert_eq!(current_transfers(&mut state.transfers, 4)[0].status, "sending");
    let event = SendEvent::HandshakeFailed { error: "refused".to_string() };
    assert!(!note_send_event(&mut state, &item, "10.0.0.3:32910", &transfer, event, 4));
    assert_eq!(current_transfers(&mut state.transfers, 4)[0].status, "failed");
}

#[test]
fn overtaken_items_are_not_streamed() {
    let mut state = RuntimeState::new();
    let item = text_item(1, 10, OWN_ID);
    update_latest_item(&mut state.latest_item, &text_item(2, 20, 3));
    assert!(begin_send(&mut state, "no address", None, &item, 0).is_none());
    assert!(state.transfers.is_empty());
    let transfer = begin_send(&mut state, "[fe80::2]:32910", Some("fe80::2"), &item, 4);
    assert_eq!(transfer, Some(format!("send:fe80::2:{}", item.id)));
    assert_eq!(
        ensure_current(&state, "send:x", &item_marker(&item), false),
        Err(StreamError::Superseded)
    );
}

fn sent(content: &[u8]) -> FrameCutter {
    let mut cutter = FrameCutter::new(&settings(), content.len() as u64);
    for frame in cutter.push(content) {
        cutter.claim(&frame).expect("frame");
    }
    if let Some(rest) = cutter.take_rest() {
        cutter.claim(&rest).expect("rest");
    }
    cutter
}

#[test]
fn altered_file_streams_are_refused() {
    let mut state = RuntimeState::new();
    let item = ClipboardItem {
        size_bytes: 512,
        payload: ClipboardPayload::FileList {
            paths: vec!["/home/a".to_string()],
            top_level_names: vec!["a".to_string()],
            estimated_archive_bytes: 512,
        },
        ..text_item(1, 10, 2)
    };
    let Some(WireBody::FileStreamRawStart(meta)) = stream_announcement(&item) else {
        panic!("expected a file stream");
    };
    begin_file_receive(&mut state, "10.0.0.2:1", &meta, 0).expect("begin");
    let mut counter = ChunkCounter::new(512);
    counter.accept(&[4; 512]).unwrap();
    let result = finish_file_receive(
        &mut state,
        "10.0.0.2:1",
        meta,
        "/bundle".to_string(),
        counter,
        Some(stream_end(&item, sent(&[3; 512]))),
        &id(OWN_ID),
        false,
        1,
    );
    assert!(matches!(result, Err(StreamError::Integrity)));
    assert_eq!(state.transfers[0].status, "failed");
}

#[test]
fn streams_are_checked_at_their_end() {
    let item = ClipboardItem {
        size_bytes: 9,
        payload: ClipboardPayload::ImagePng { png_bytes: vec![7; 9] },
        ..text_item(1, 10, OWN_ID)
    };
    let Some(WireBody::ImageStreamRawStart(meta)) = stream_announcement(&item) else {
        panic!("expected an image stream");
    };
    assert_eq!((meta.size_bytes, meta.chunk_count), (9, 1));
    assert!(stream_announcement(&text_item(2, 10, OWN_ID)).is_none());
    let end = Some(stream_end(&item, sent(&[7; 9])));
    let digest = sent(&[7; 9]).digest_sha256();
    assert!(stream_ends_well(&end, &item.id, 1, 1, &digest));
    assert!(!stream_ends_well(&end, &item.id, 1, 1, &[6; 32]));
    assert!(!stream_ends_well(&end, &item.id, 1, 2, &digest));
    assert!(!stream_ends_well(&None, &item.id, 1, 1, &digest));
    assert_eq!(check_stream_sent(&item, 9, None), Ok(()));
    assert_eq!(
        check_stream_sent(&item, 8, None),
        Err(StreamError::ImageSizeMismatch { sent: 8, expected: 9 })
    );
    let files = ClipboardItem {
        size_bytes: 512,
        payload: ClipboardPayload::FileList {
            paths: vec!["/a".to_string()],
            top_level_names: vec!["a".to_string()],
            estimated_archive_bytes: 512,
        },
        ..text_item(3, 10, OWN_ID)
    };
    assert_eq!(check_stream_sent(&files, 512, Some(&files.content_hash)), Ok(()));
    assert_eq!(check_stream_sent(&files, 512, Some("other")), Err(StreamError::FilesChanged));
    assert_eq!(check_stream_sent(&files, 512, None), Err(StreamError::FilesChanged));
    assert_eq!(
        check_stream_sent(&files, 511, Some(&files.content_hash)),
        Err(StreamError::ArchiveSizeMismatch { sent: 511, expected: 512 })
    );
}

#[test]
fn complete_image_streams_are_accepted() {
    let mut state = RuntimeState::new();
    let meta = ImageStreamStart {
        item_id: id(1001),
        content_hash: "ba7816bf8f01cfea414140de5dae2223b00361a396177a9cb410ff61f20015ad"
            .to_string(),
        created_at_us: 10,
        source_device_id: id(2),
        size_bytes: 3,
        chunk_count: 1,
    };
    let begun = begin_image_receive(&mut state, "10.0.0.2:1", &meta, 0).expect("begin");
    assert!(begun.contains(&id(1001)));
    let mut counter = ChunkCounter::new(3);
    counter.accept(b"abc").unwrap();
    let digest = [
        0xba, 0x78, 0x16, 0xbf, 0x8f, 0x01, 0xcf, 0xea, 0x41, 0x41, 0x40, 0xde, 0x5d, 0xae, 0x22,
        0x23, 0xb0, 0x03, 0x61, 0xa3, 0x96, 0x17, 0x7a, 0x9c, 0xb4, 0x10, 0xff, 0x61, 0xf2, 0x00,
        0x15, 0xad,
    ];
    let end = Some(WireBody::PayloadStreamEnd(PayloadStreamEnd {
        item_id: id(1001),
        chunk_count: 1,
        digest_sha256: digest,
    }));
    let outcome = finish_image_receive(
        &mut state,
        "10.0.0.2:1",
        meta,
        b"abc".to_vec(),
        counter,
        end,
        &id(OWN_ID),
        false,
        1,
    );
    assert!(matches!(outcome, Ok(StreamOutcome::Accepted { .. })));
    assert_eq!(state.inbound_queue.len(), 1);
}

#[test]
fn broken_file_streams_fail_their_transfer() {
    let mut state = RuntimeState::new();
    let meta = FileStreamStart {
        item_id: id(1001),
        content_hash: "a".repeat(64),
        created_at_us: 10,
        source_device_id: id(2),
        size_bytes: 512,
        chunk_count: 1,
        top_level_names: vec!["a".to_string()],
    };
    begin_file_receive(&mut state, "10.0.0.2:1", &meta, 0).expect("begin");
    let mut counter = ChunkCounter::new(512);
    counter.accept(&[3; 512]).unwrap();
    let result = finish_file_receive(
        &mut state,
        "10.0.0.2:1",
        meta,
        "/bundle".to_string(),
        counter,
        None,
        &id(OWN_ID),
        false,
        1,
    );
    assert!(result.is_err());
    assert!(state.inbound_queue.is_empty());
    assert_eq!(state.transfers[0].status, "failed");
}

#[test]
fn complete_file_streams_are_accepted() {
    let mut state = RuntimeState::new();
    let item = ClipboardItem {
        size_bytes: 512,
        payload: ClipboardPayload::FileList {
            paths: vec!["/home/a".to_string()],
            top_level_names: vec!["a".to_string()],
            estimated_archive_bytes: 512,
        },
        ..text_item(1, 10, 2)
    };
    let Some(WireBody::FileStreamRawStart(meta)) = stream_announcement(&item) else {
        panic!("expected a file stream");
    };
    assert!(meta.validate(&settings(), 10).is_ok());
    begin_file_receive(&mut state, "10.0.0.2:1", &meta, 0).expect("begin");
    let mut counter = ChunkCounter::new(512);
    counter.accept(&[3; 512]).unwrap();
    let result = finish_file_receive(
        &mut state,
        "10.0.0.2:1",
        meta,
        "/bundle".to_string(),
        counter,
        Some(stream_end(&item, sent(&[3; 512]))),
        &id(OWN_ID),
        false,
        1,
    );
    assert!(matches!(result, Ok(StreamOutcome::Accepted { .. })));
    assert_eq!(state.inbound_queue[0].item.id, item.id);
    assert!(matches!(
        &state.inbound_queue[0].item.payload,
        ClipboardPayload::FileBundleDir { bundle_dir, top_level_names }
            if bundle_dir == "/bundle" && top_level_names == &["a".to_string()]
    ));
}

#[test]
fn probes_share_their_time() {
    assert_eq!(reachability_workers(3), 3);
    assert_eq!(reachability_workers(100), 8);
    assert_eq!(next_probe_timeout(1_000, 0), Some(220));
    assert_eq!(next_probe_timeout(1_000, 900), Some(100));
    assert_eq!(next_probe_timeout(1_000, 1_000), None);
}

#[test]
fn frames_do_not_depend_on_how_they_are_written() {
    let mut settings = settings();
    settings.limits.max_item_bytes = 4;
    let mut whole = FrameCutter::new(&settings, 10);
    let mut bytewise = FrameCutter::new(&settings, 10);
    let expected = whole.push(b"abcdefghij");
    let mut frames = Vec::new();
    for byte in b"abcdefghij" {
        frames.extend(bytewise.push(&[*byte]));
    }
    assert_eq!(frames, expected);
    assert_eq!(whole.take_rest(), bytewise.take_rest());
    assert_eq!(chunks_for(1_048_576), 1);
    assert_eq!(chunks_for(1_048_577), 2);
}

#[test]
fn retries_are_bounded_in_number_and_age() {
    let mut entry = new_queue_entry(text_item(1, 10, 1), 0);
    let mut now = 0;
    let mut retries = 0;
    while schedule_retry(&mut entry, now) {
        retries += 1;
        assert_eq!(entry.next_attempt_at_ms - now, (30 * retries).min(500));
        now = entry.next_attempt_at_ms;
    }
    assert_eq!(retries, 24);
    assert!(now < 9_000);
    let mut old = new_queue_entry(text_item(2, 10, 1), 0);
    assert!(!schedule_retry(&mut old, 30_001));
}

#[test]
fn finished_transfers_are_forgotten_first() {
    let mut state = RuntimeState::new();
    for index in 0..40u64 {
        let item = text_item(u128::from(index), 10, OWN_ID);
        let peer = format!("10.0.0.2:{}", 2_000 + index);
        let transfer = begin_send(&mut state, &peer, None, &item, index).expect("transfer");
        if index < 39 {
            note_send_event(&mut state, &item, &peer, &transfer, SendEvent::Delivered, index);
        }
    }
    let shown = current_transfers(&mut state.transfers, 40);
    assert_eq!(shown.len(), 24);
    assert!(shown.iter().any(|transfer| transfer.status == "sending"));
    let later = current_transfers(&mut state.transfers, 40 + TRANSFER_RETENTION_MS);
    assert_eq!(later.len(), 1);
}

#[test]
fn bounding_twice_changes_nothing() {
    let bounded = bounded_message(&"界".repeat(MAX_LOG_MESSAGE_BYTES));
    assert_eq!(bounded_message(&bounded), bounded);
    assert!(is_valid_discovery_domain_id(&discovery_domain_id(&settings())));
}

#[test]
fn streams_cannot_begin_with_their_end() {
    let end = WireBody::PayloadStreamEnd(PayloadStreamEnd {
        item_id: id(1),
        chunk_count: 1,
        digest_sha256: [0; 32],
    });
    assert_eq!(incoming_body(end).unwrap_err(), StreamError::UnexpectedEnd);
    assert!(matches!(
        incoming_body(WireBody::ClipboardItem(text_item(1, 1, 1))),
        Ok(IncomingBody::Item(_))
    ));
    assert!(StreamError::Stale.message().len() > 0);
}

#[test]
fn incoming_connections_are_limited() {
    let mut connections = IncomingConnections::new();
    for number in 0..4 {
        assert!(connections.register(number, Some("10.0.0.2".to_string())));
    }
    assert!(!connections.register(4, Some("10.0.0.2".to_string())));
    for number in 5..17 {
        assert!(connections.register(number, Some(format!("10.0.1.{number}"))));
    }
    assert!(!connections.register(17, Some("10.0.3.1".to_string())));
    connections.release(0);
    assert!(connections.register(18, Some("10.0.0.2".to_string())));

    let mut active = 0;
    assert_eq!(acquire_payload_receive(&mut active), Ok(()));
    assert_eq!(acquire_payload_receive(&mut active), Ok(()));
    assert_eq!(acquire_payload_receive(&mut active), Err(StreamError::ReceiveLimit));
    release_payload_receive(&mut active);
    assert_eq!(acquire_payload_receive(&mut active), Ok(()));
}

#[test]
fn items_are_built_from_what_was_copied() {
    let text = ClipboardPayload::Text { text: "abc".to_string() };
    let unused = || Err(ClipboardError::Unsupported);
    let built = build_item_with(&text, &id(1), 0, unused(), Uuid::from_u128(9).into_bytes(), 77)
        .expect("hash")
        .expect("item");
    assert_eq!(built.id, id(9));
    assert_eq!(built.source_device_id, id(1));
    assert_eq!(built.created_at_us, 77);
    assert_eq!(built.size_bytes, 3);
    let drawn = build_item(&text, &id(1), 0, unused(), 77).unwrap().unwrap();
    assert_ne!(drawn.id, built.id);
    assert_eq!(drawn.content_hash, built.content_hash);
}

#[test]
fn watching_slows_down_while_nothing_changes() {
    assert_eq!(next_watch_interval(500, true), 50);
    assert_eq!(next_watch_interval(50, false), 100);
    assert_eq!(next_watch_interval(400, false), 500);
    assert!(should_read_snapshot(Some(1), Some(2)));
    assert!(!should_read_snapshot(Some(2), Some(2)));
    assert!(should_read_snapshot(None, None));
    let mut state = RuntimeState::new();
    note_internal_content(&mut state, Some("a".repeat(64)), 5);
    assert_eq!(state.last_local_observed.unwrap().observed_at_ms, 5);
}

#[test]
fn the_main_loop_keeps_its_rounds() {
    let mut state = RuntimeState::new();
    let plan = plan_round(&state, true, 500, 3_000);
    assert!(plan.announce && plan.scan);
    let plan = plan_round(&state, false, 499, 2_999);
    assert!(!plan.announce && !plan.scan);
    assert_eq!(main_loop_sleep_ms(&state), 80);
    assert_eq!(queue_loop_sleep_ms(true), 5);
    assert_eq!(queue_loop_sleep_ms(false), 40);
    enqueue_outbound_item(&mut state, text_item(1, 1, OWN_ID), 0);
    assert_eq!(main_loop_sleep_ms(&state), 15);
    note_loop_failure(&mut state, "udp", "refused", 3);
    assert!(state.last_error.is_some() || !state.logs.is_empty());
    assert_eq!(bind_address("", false, &None), Ok(None));
    assert!(bind_address("::1", true, &None).is_err());
    let interfaces = Some(vec![interface("eth0", [10, 0, 0, 5])]);
    assert_eq!(bind_address("10.0.0.5", false, &interfaces), Ok(Some([10, 0, 0, 5])));
}

#[test]
fn starting_needs_encryption_and_a_code() {
    let mut state = RuntimeState::new();
    let mut settings = settings();
    assert!(prepare_start(&mut state, &settings).is_ok());
    settings.security.encryption_enabled = false;
    assert_eq!(
        prepare_start(&mut state, &settings).unwrap_err(),
        "protocol v5 requires encrypted authenticated sessions"
    );
}
