//! Who a content is sent to, and what a newer event makes superfluous.

use crate::net::dedupe::clear_content_inflight;
use crate::net::device::DiscoveredDevice;
use crate::net::discovery;
use crate::net::discovery::{
    parse_selected_ipv4, selected_or_active_local_ip, LocalInterface,
};
use crate::net::ipv4;
use crate::net::ipv4::{
    ipv4_to_text, is_private_lan_ipv4, is_same_lan_scope, is_usable_ipv4, parse_ipv4, Ipv4,
};
use crate::net::marker;
use crate::net::marker::{is_stale_marker, item_marker, ItemMarker, MarkerView};
use crate::net::members;
use crate::net::members::{clear_members, prune_stale_discovered_devices};
use crate::net::queue;
use crate::net::queue::{EntryView, QueueEntry};
use crate::net::socket;
use crate::net::socket::{is_self_socket_addr, peer_to_text, IpAddress};
use crate::net::state;
use crate::net::state::{RuntimeState, StateView};
use crate::order;
use crate::order::stable_sort;
use crate::protocol;
use crate::protocol::{ClipboardPayload, PayloadView};
use crate::settings::Settings;
use crate::text;
use crate::text::{is_text_before, same_text};
use vstd::prelude::*;

verus! {

/// What decides who a content is sent to.
pub struct PeerRules {
    pub self_device_id: Seq<char>,
    pub scope: Option<Seq<u8>>,
    pub own_ip: Option<Seq<char>>,
}

/// The address of a device.
pub open spec fn device_ip(d: DiscoveredDevice) -> Seq<u8> {
    ipv4::ipv4_of(d.addr@)->Some_0
}

/// A content is sent to a device: another one, on the network that is used, at an
/// address that is not this device's own.
#[verifier::opaque]
pub open spec fn is_target(d: DiscoveredDevice, rules: PeerRules) -> bool {
    &&& d.device_id@ != rules.self_device_id
    &&& ipv4::ipv4_of(d.addr@) is Some
    &&& rules.scope is Some ==> ipv4::same_scope(rules.scope->Some_0, device_ip(d))
    &&& !socket::is_own_address(device_ip(d), rules.own_ip)
}

/// Device `i` stands for its address: it is a target, and no later one has the
/// same address.
pub open spec fn stands_for_address(list: Seq<DiscoveredDevice>, rules: PeerRules, i: int) -> bool {
    is_target(list[i], rules) && forall|j: int|
        i < j < list.len() && #[trigger] is_target(list[j], rules) ==> list[j].addr@
            != list[i].addr@
}

/// The peers among the first `n` devices, in the order of the list.
pub open spec fn peers_upto(list: Seq<DiscoveredDevice>, rules: PeerRules, n: int) -> Seq<Seq<char>>
    decreases n,
{
    if n <= 0 {
        Seq::empty()
    } else if stands_for_address(list, rules, n - 1) {
        peers_upto(list, rules, n - 1).push(
            socket::peer_text(list[n - 1].addr@, list[n - 1].port),
        )
    } else {
        peers_upto(list, rules, n - 1)
    }
}

/// The order of texts.
pub open spec fn by_text() -> spec_fn(Seq<char>, Seq<char>) -> bool {
    |a: Seq<char>, b: Seq<char>| text::text_before(a, b)
}

/// The peers that a content is sent to.
pub open spec fn peers_of(list: Seq<DiscoveredDevice>, rules: PeerRules) -> Seq<Seq<char>> {
    order::sorted(peers_upto(list, rules, list.len() as int), by_text())
}

/// What decides who a content is sent to, with the given settings.
pub open spec fn rules_of(
    device_id: Seq<char>,
    local_ip: Seq<char>,
    active_ip: Option<Seq<char>>,
    interfaces: Option<Seq<LocalInterface>>,
    on_windows: bool,
) -> PeerRules {
    let own = discovery::effective_ip(local_ip, active_ip, interfaces, on_windows);
    PeerRules {
        self_device_id: text::trimmed(device_id),
        scope: match own {
            Some(ip) => match discovery::resolved_ip(ip, false, interfaces) {
                Ok(found) => found,
                Err(_) => None,
            },
            None => None,
        },
        own_ip: own,
    }
}

/// Sorts texts.
pub(crate) fn sort_texts(list: &mut Vec<String>)
    ensures
        protocol::texts(final(list)@) == order::sorted(protocol::texts(old(list)@), by_text()),
{
    let ghost before = |a: String, b: String| text::text_before(a@, b@);
    let ghost f = |s: String| s@;
    let ghost all = list@;
    let is_before = |a: &String, b: &String| -> (r: bool)
        ensures
            r == text::text_before(a@, b@),
        { is_text_before(a, b) };
    stable_sort(list, is_before, Ghost(before));
    proof {
        order::sorted_map(all, f, before, by_text());
        assert(protocol::texts(all) =~= all.map_values(f));
        assert(protocol::texts(list@) =~= list@.map_values(f));
    }
}

/// Finds the peers that a content is sent to. Devices that were not heard of for
/// too long are forgotten first.
pub fn collect_peer_targets(
    state: &mut RuntimeState,
    settings: &Settings,
    interfaces: &Option<Vec<LocalInterface>>,
    on_windows: bool,
    now_ms: u64,
) -> (peers: Vec<String>)
    requires
        old(state).wf(),
    ensures
        final(state).wf(),
        members::is_pruned(old(state).members, final(state).members, now_ms),
        final(state)@ == (StateView { members: final(state).members, ..old(state)@ }),
        protocol::texts(peers@) == peers_of(
            final(state).members.devices@,
            rules_of(
                settings@.device_id,
                settings@.local_ip,
                old(state)@.active_ip,
                discovery::listed(*interfaces),
                on_windows,
            ),
        ),
{
    prune_stale_discovered_devices(&mut state.members, now_ms);
    let active = match &state.active_local_ip {
        Some(ip) => Some(ip.clone()),
        None => None,
    };
    let own = selected_or_active_local_ip(settings, None, active, interfaces, on_windows);
    let scope: Option<Ipv4> = match &own {
        Some(ip) => match parse_selected_ipv4(Some(ip.as_str()), false, interfaces) {
            Ok(found) => found,
            Err(_) => None,
        },
        None => None,
    };
    let self_id = settings.sync_device_id();
    let ghost rules = rules_of(
        settings@.device_id,
        settings@.local_ip,
        old(state)@.active_ip,
        discovery::listed(*interfaces),
        on_windows,
    );
    assert(rules.self_device_id == self_id@);
    assert(rules.own_ip == crate::net::transfers::text_option(own));
    assert(rules.scope == discovery::ip_option(scope));
    let mut peers = peers_among(&state.members.devices, &self_id, &scope, &own, Ghost(rules));
    sort_texts(&mut peers);
    peers
}

/// Tells whether a later target has the address of device `i`.
fn has_later_target(
    devices: &Vec<DiscoveredDevice>,
    i: usize,
    self_id: &str,
    scope: &Option<Ipv4>,
    own: &Option<String>,
    Ghost(rules): Ghost<PeerRules>,
) -> (found: bool)
    requires
        i < devices.len(),
        is_described(rules, self_id@, *scope, *own),
    ensures
        found <==> exists|k: int|
            i < k < devices@.len() && #[trigger] is_target(devices@[k], rules)
                && devices@[k].addr@ == devices@[i as int].addr@,
{
    let mut j: usize = i + 1;
    while j < devices.len()
        invariant
            i < j <= devices.len(),
                is_described(rules, self_id@, *scope, *own),
            forall|k: int|
                i < k < j && #[trigger] is_target(devices@[k], rules) ==> devices@[k].addr@
                    != devices@[i as int].addr@,
        decreases devices.len() - j,
    {
        if is_peer_target(&devices[j], self_id, scope, own, Ghost(rules)) && same_text(
            &devices[j].addr,
            &devices[i].addr,
        ) {
            assert(is_target(devices@[j as int], rules));
            return true;
        }
        j = j + 1;
    }
    false
}

/// The peers among devices, in the order of the list.
fn peers_among(
    devices: &Vec<DiscoveredDevice>,
    self_id: &str,
    scope: &Option<Ipv4>,
    own: &Option<String>,
    Ghost(rules): Ghost<PeerRules>,
) -> (peers: Vec<String>)
    requires
        is_described(rules, self_id@, *scope, *own),
    ensures
        protocol::texts(peers@) == peers_upto(devices@, rules, devices@.len() as int),
{
    let mut peers: Vec<String> = Vec::new();
    let mut i: usize = 0;
    assert(protocol::texts(peers@) =~= peers_upto(devices@, rules, 0));
    while i < devices.len()
        invariant
            i <= devices.len(),
                is_described(rules, self_id@, *scope, *own),
            protocol::texts(peers@) == peers_upto(devices@, rules, i as int),
        decreases devices.len() - i,
    {
        let ghost before = peers@;
        let chosen = is_peer_target(&devices[i], self_id, scope, own, Ghost(rules))
            && !has_later_target(devices, i, self_id, scope, own, Ghost(rules));
        assert(chosen == stands_for_address(devices@, rules, i as int));
        if chosen {
            peers.push(peer_to_text(&devices[i].addr, devices[i].port));
            assert(protocol::texts(peers@) =~= protocol::texts(before).push(
                socket::peer_text(devices@[i as int].addr@, devices@[i as int].port),
            ));
        }
        i = i + 1;
    }
    peers
}

/// The rules as plain values.
spec fn is_described(
    rules: PeerRules,
    self_id: Seq<char>,
    scope: Option<Ipv4>,
    own: Option<String>,
) -> bool {
    &&& rules.self_device_id == self_id
    &&& rules.own_ip == crate::net::transfers::text_option(own)
    &&& rules.scope == discovery::ip_option(scope)
}

fn is_peer_target(
    d: &DiscoveredDevice,
    self_id: &str,
    scope: &Option<Ipv4>,
    own: &Option<String>,
    Ghost(rules): Ghost<PeerRules>,
) -> (target: bool)
    requires
        is_described(rules, self_id@, *scope, *own),
    ensures
        target == is_target(*d, rules),
{
    proof {
        reveal(is_target);
    }
    if same_text(&d.device_id, self_id) {
        return false;
    }
    match parse_ipv4(&d.addr) {
        Some(ip) => {
            if let Some(selected) = scope {
                if !is_same_lan_scope(selected, &ip) {
                    return false;
                }
            }
            let own_address = match own {
                Some(text) => match parse_ipv4(text) {
                    Some(found) => Some(IpAddress::V4(found)),
                    None => None,
                },
                None => None,
            };
            !is_self_socket_addr(&IpAddress::V4(ip), &own_address)
        },
        None => false,
    }
}

/// An entry was overtaken by a newer event.
pub open spec fn is_overtaken(e: EntryView, latest: Option<MarkerView>) -> bool {
    marker::is_stale(latest, marker::marker_of(e.item))
}

/// The entries that were not overtaken.
pub open spec fn still_current(q: Seq<EntryView>, latest: Option<MarkerView>) -> Seq<EntryView> {
    q.filter(|e: EntryView| !is_overtaken(e, latest))
}

/// The entries that were overtaken.
pub open spec fn overtaken(q: Seq<EntryView>, latest: Option<MarkerView>) -> Seq<EntryView> {
    q.filter(|e: EntryView| is_overtaken(e, latest))
}

/// Contents in flight without those of some entries.
pub open spec fn without_contents(inflight: Set<Seq<char>>, q: Seq<EntryView>) -> Set<Seq<char>>
    decreases q.len(),
{
    if q.len() == 0 {
        inflight
    } else {
        without_contents(inflight, q.drop_last()).remove(q.last().item.content_hash)
    }
}

/// The state without what the latest event has overtaken.
pub open spec fn without_overtaken(s: StateView) -> StateView {
    StateView {
        outbound: still_current(s.outbound, s.latest),
        inbound: still_current(s.inbound, s.latest),
        inflight: without_contents(s.inflight, overtaken(s.outbound, s.latest)),
        ..s
    }
}

/// The contents of entries.
pub open spec fn contents(q: Seq<EntryView>) -> Seq<PayloadView> {
    q.map_values(|e: EntryView| e.item.payload)
}

/// Several contents as plain values.
pub open spec fn payloads(v: Seq<ClipboardPayload>) -> Seq<PayloadView> {
    v.map_values(|p: ClipboardPayload| p@)
}

/// Takes the entries that were overtaken out of a queue.
fn drop_overtaken(queue: &mut Vec<QueueEntry>, latest: &Option<ItemMarker>) -> (dropped: Vec<
    QueueEntry,
>)
    ensures
        queue::entries(final(queue)@) == still_current(
            queue::entries(old(queue)@),
            marker::latest_view(*latest),
        ),
        queue::entries(dropped@) == overtaken(
            queue::entries(old(queue)@),
            marker::latest_view(*latest),
        ),
{
    let ghost all = queue::entries(queue@);
    let ghost newest = marker::latest_view(*latest);
    let ghost keep = |e: EntryView| !is_overtaken(e, newest);
    let ghost leave = |e: EntryView| is_overtaken(e, newest);
    let ghost mut done: int = 0;
    let mut dropped: Vec<QueueEntry> = Vec::new();
    let mut i: usize = 0;
    proof {
        reveal(Seq::filter);
    }
    assert(queue::entries(queue@) =~= all.take(0).filter(keep) + all.skip(0));
    assert(queue::entries(dropped@) =~= all.take(0).filter(leave));
    while i < queue.len()
        invariant
            newest == marker::latest_view(*latest),
            keep == (|e: EntryView| !is_overtaken(e, newest)),
            leave == (|e: EntryView| is_overtaken(e, newest)),
            0 <= done <= all.len(),
            i <= queue.len(),
            i == all.take(done).filter(keep).len(),
            queue::entries(queue@) == all.take(done).filter(keep) + all.skip(done),
            queue::entries(dropped@) == all.take(done).filter(leave),
        decreases queue.len() - i,
    {
        let ghost now = queue::entries(queue@);
        let ghost kept = all.take(done).filter(keep);
        proof {
            assert(now.len() == queue@.len());
            assert(now[i as int] == all[done]);
            assert(now[i as int] == queue@[i as int]@);
            assert(all.take(done + 1) =~= all.take(done).push(all[done]));
            all.take(done).lemma_filter_push(all[done], keep);
            all.take(done).lemma_filter_push(all[done], leave);
        }
        let entry_marker = item_marker(&queue[i].item);
        if is_stale_marker(latest, &entry_marker) {
            let ghost left = dropped@;
            let entry = queue.remove(i);
            dropped.push(entry);
            assert(queue::entries(dropped@) =~= queue::entries(left).push(all[done]));
            assert(queue::entries(queue@) =~= now.remove(i as int));
            assert(now.remove(i as int) =~= kept + all.skip(done + 1));
        } else {
            i = i + 1;
            assert(now =~= kept.push(all[done]) + all.skip(done + 1));
        }
        proof {
            done = done + 1;
        }
    }
    proof {
        assert(done == all.len()) by {
            assert(queue::entries(queue@).len() == queue@.len());
        }
        assert(all.take(done) =~= all);
        assert(queue::entries(queue@) =~= all.filter(keep));
    }
    dropped
}

/// Takes the contents out of entries.
fn contents_of(entries: Vec<QueueEntry>) -> (list: Vec<ClipboardPayload>)
    ensures
        payloads(list@) == contents(queue::entries(entries@)),
{
    let mut list: Vec<ClipboardPayload> = Vec::new();
    let mut i: usize = 0;
    while i < entries.len()
        invariant
            i <= entries.len(),
            payloads(list@) =~= contents(queue::entries(entries@)).take(i as int),
        decreases entries.len() - i,
    {
        let ghost before = list@;
        list.push(entries[i].item.payload.clone());
        assert(payloads(list@) =~= payloads(before).push(entries@[i as int].item.payload@));
        i = i + 1;
    }
    assert(contents(queue::entries(entries@)).take(i as int) =~= contents(
        queue::entries(entries@),
    ));
    list
}

/// Drops what the latest event has overtaken. Returns the contents that waited
/// to be applied: what they hold on disk is no longer needed.
pub fn prune_stale_queue_entries(state: &mut RuntimeState) -> (discarded: Vec<ClipboardPayload>)
    requires
        old(state).wf(),
    ensures
        final(state).wf(),
        final(state)@ == without_overtaken(old(state)@),
        payloads(discarded@) == contents(overtaken(old(state)@.inbound, old(state)@.latest)),
{
    let ghost before = state@;
    let outbound = drop_overtaken(&mut state.outbound_queue, &state.latest_item);
    let inbound = drop_overtaken(&mut state.inbound_queue, &state.latest_item);
    let ghost pruned = StateView { inflight: before.inflight, ..without_overtaken(before) };
    assert(state@ =~= pruned);
    let ghost gone = queue::entries(outbound@);
    let mut i: usize = 0;
    while i < outbound.len()
        invariant
            i <= outbound.len(),
            state.wf(),
            gone == queue::entries(outbound@),
            state@ == (StateView {
                inflight: without_contents(before.inflight, gone.take(i as int)),
                ..pruned
            }),
        decreases outbound.len() - i,
    {
        proof {
            assert(gone.take(i + 1).drop_last() =~= gone.take(i as int));
            assert(gone.take(i + 1).last() == outbound@[i as int]@);
        }
        clear_content_inflight(state, &outbound[i].item.content_hash);
        i = i + 1;
    }
    assert(gone.take(i as int) =~= gone);
    contents_of(inbound)
}

/// The state without anything that was learned of the domain.
pub open spec fn forgotten(s: StateView, members: members::MemberCache) -> StateView {
    StateView {
        outbound: Seq::empty(),
        inbound: Seq::empty(),
        latest: None,
        shared: None,
        inflight: Set::empty(),
        observed: None,
        applied_hashes: Seq::empty(),
        recent_events: Seq::empty(),
        members,
        ..s
    }
}

/// Forgets everything that was learned of the domain. Returns the contents that
/// waited to be applied: what they hold on disk is no longer needed.
pub fn clear_member_cache(state: &mut RuntimeState) -> (discarded: Vec<ClipboardPayload>)
    requires
        old(state).wf(),
    ensures
        final(state).wf(),
        final(state)@ == forgotten(old(state)@, final(state).members),
        final(state).members.devices@.len() == 0,
        final(state).members.seen_at@.len() == 0,
        final(state).members.known@.len() == 0,
        payloads(discarded@) == contents(old(state)@.inbound),
{
    clear_members(&mut state.members);
    state.outbound_queue.clear();
    let inbound = state.inbound_queue.split_off(0);
    assert(inbound@ =~= old(state).inbound_queue@);
    let discarded = contents_of(inbound);
    state.latest_item = None;
    state.shared_content_fingerprint = None;
    state.inflight_content_fingerprints.clear();
    state.last_local_observed = None;
    state.ignored_local_hashes.clear();
    state.recent_event_ids.clear();
    assert(state@.inflight =~= Set::<Seq<char>>::empty());
    assert(state@ =~= forgotten(old(state)@, state.members));
    discarded
}

/// The address in use after a connection came in on another one.
pub open spec fn active_after(active: Option<Seq<char>>, ip: Option<Seq<u8>>) -> Option<Seq<char>> {
    if ip is None || !ipv4::is_usable(ip->Some_0) {
        active
    } else if active is None || ipv4::ipv4_of(active->Some_0) is None || (ipv4::private_scope(
        ipv4::ipv4_of(active->Some_0)->Some_0,
    ) is None && ipv4::private_scope(ip->Some_0) is Some) {
        Some(ipv4::ipv4_text(ip->Some_0))
    } else {
        active
    }
}

/// Takes note of the address that a connection uses on this device, if that is
/// an IPv4 address. A private address replaces one that is not.
pub fn remember_active_local_ip(state: &mut RuntimeState, ip: Option<Ipv4>)
    requires
        old(state).wf(),
    ensures
        final(state).wf(),
        final(state)@ == (StateView {
            active_ip: active_after(old(state)@.active_ip, discovery::ip_option(ip)),
            ..old(state)@
        }),
{
    let ip = match ip {
        Some(ip) => ip,
        None => return ,
    };
    if !is_usable_ipv4(&ip) {
        return ;
    }
    let replace = match &state.active_local_ip {
        Some(text) => match parse_ipv4(text) {
            Some(existing) => !is_private_lan_ipv4(&existing) && is_private_lan_ipv4(&ip),
            None => true,
        },
        None => true,
    };
    if replace {
        state.active_local_ip = Some(ipv4_to_text(&ip));
    }
}

/// Pruning keeps exactly the entries that are not older than the latest event.
pub proof fn pruning_drops_exactly_the_overtaken(
    q: Seq<EntryView>,
    latest: Option<MarkerView>,
    e: EntryView,
)
    ensures
        still_current(q, latest).contains(e) <==> q.contains(e) && !is_overtaken(e, latest),
{
    let keep = |e: EntryView| !is_overtaken(e, latest);
    if q.filter(keep).contains(e) {
        q.lemma_filter_contains_rev(keep, e);
        let i = q.filter(keep).index_of(e);
        q.lemma_filter_pred(keep, i);
    }
    if q.contains(e) && keep(e) {
        q.lemma_filter_contains(keep, q.index_of(e));
    }
}

proof fn peers_are_targets(list: Seq<DiscoveredDevice>, rules: PeerRules, n: int, peer: Seq<char>)
    requires
        0 <= n <= list.len(),
        peers_upto(list, rules, n).contains(peer),
    ensures
        exists|i: int|
            0 <= i < n && #[trigger] stands_for_address(list, rules, i) && peer
                == socket::peer_text(list[i].addr@, list[i].port),
    decreases n,
{
    if n > 0 {
        let rest = peers_upto(list, rules, n - 1);
        if stands_for_address(list, rules, n - 1) {
            let last = socket::peer_text(list[n - 1].addr@, list[n - 1].port);
            if peer != last {
                let k = rest.push(last).index_of(peer);
                assert(rest[k] == peer);
                peers_are_targets(list, rules, n - 1, peer);
            }
        } else {
            peers_are_targets(list, rules, n - 1, peer);
        }
    }
}

/// A content is never sent to this device itself: every peer is another device
/// whose address is not one of this device's own.
pub proof fn contents_are_not_sent_to_oneself(
    list: Seq<DiscoveredDevice>,
    rules: PeerRules,
    peer: Seq<char>,
)
    requires
        peers_of(list, rules).contains(peer),
    ensures
        exists|i: int|
            0 <= i < list.len() && #[trigger] is_target(list[i], rules) && peer
                == socket::peer_text(list[i].addr@, list[i].port) && list[i].device_id@
                != rules.self_device_id && !socket::is_own_address(
                device_ip(list[i]),
                rules.own_ip,
            ),
{
    reveal(is_target);
    let n = list.len() as int;
    order::sorted_contains(peers_upto(list, rules, n), by_text(), peer);
    peers_are_targets(list, rules, n, peer);
    let i = choose|i: int|
        0 <= i < n && #[trigger] stands_for_address(list, rules, i) && peer == socket::peer_text(
            list[i].addr@,
            list[i].port,
        );
    assert(is_target(list[i], rules));
}

/// Peers are listed in the order of their texts.
pub proof fn peers_are_in_order(list: Seq<DiscoveredDevice>, rules: PeerRules)
    ensures
        order::is_in_order(peers_of(list, rules), by_text()),
{
    assert(order::is_ordering(by_text())) by {
        assert forall|a: Seq<char>, b: Seq<char>, c: Seq<char>|
            !#[trigger] by_text()(a, b) && !#[trigger] by_text()(b, c) implies !by_text()(a, c) by {
            text::text_order_is_total(a, b);
            text::text_order_is_total(b, c);
            text::text_order_is_total(a, c);
            if text::text_before(a, c) {
                if a != b && b != c {
                    text::text_order_is_transitive(c, b, a);
                }
            }
        }
        assert forall|a: Seq<char>, b: Seq<char>| #[trigger] by_text()(a, b) implies !by_text()(
            b,
            a,
        ) by {
            text::text_order_is_total(a, b);
        }
    }
    order::sorted_is_in_order(peers_upto(list, rules, list.len() as int), by_text());
}

/// A content is sent to exactly those devices that go by another identifier, have an IPv4
/// address that is neither a loopback address nor the one this device uses, and are in the
/// same block of private addresses as the address that is selected, if one is.
pub proof fn other_devices_in_the_network_are_targets(d: DiscoveredDevice, rules: PeerRules, ip: Seq<u8>)
    requires
        ip.len() == 4,
        d.addr@ == ipv4::ipv4_text(ip),
    ensures
        is_target(d, rules) <==> {
            &&& d.device_id@ != rules.self_device_id
            &&& rules.scope is Some ==> ipv4::private_scope(rules.scope->Some_0)
                == ipv4::private_scope(ip)
            &&& ip[0] != 127
            &&& !(rules.own_ip is Some && ipv4::ipv4_of(rules.own_ip->Some_0) == Some(ip))
        },
{
    reveal(is_target);
    ipv4::ipv4_text_is_read_back(ip);
}

/// The addresses of the devices that stand for theirs, among the first `n`.
spec fn addresses_upto(list: Seq<DiscoveredDevice>, rules: PeerRules, n: int) -> Seq<Seq<char>>
    decreases n,
{
    if n <= 0 {
        Seq::empty()
    } else if stands_for_address(list, rules, n - 1) {
        addresses_upto(list, rules, n - 1).push(list[n - 1].addr@)
    } else {
        addresses_upto(list, rules, n - 1)
    }
}

proof fn each_address_stands_once(list: Seq<DiscoveredDevice>, rules: PeerRules, n: int)
    requires
        0 <= n <= list.len(),
    ensures
        addresses_upto(list, rules, n).len() == peers_upto(list, rules, n).len(),
        addresses_upto(list, rules, n).no_duplicates(),
        forall|a: Seq<char>| #[trigger]
            addresses_upto(list, rules, n).contains(a) <==> exists|i: int|
                0 <= i < n && #[trigger] stands_for_address(list, rules, i) && list[i].addr@ == a,
    decreases n,
{
    if n > 0 {
        each_address_stands_once(list, rules, n - 1);
        let before = addresses_upto(list, rules, n - 1);
        let after = addresses_upto(list, rules, n);
        if stands_for_address(list, rules, n - 1) {
            let last = list[n - 1].addr@;
            if before.contains(last) {
                let i = choose|i: int|
                    0 <= i < n - 1 && #[trigger] stands_for_address(list, rules, i) && list[i].addr@
                        == last;
                assert(is_target(list[n - 1], rules));
                assert(false);
            }
            assert forall|a: Seq<char>| #[trigger] after.contains(a) <==> exists|i: int|
                0 <= i < n && #[trigger] stands_for_address(list, rules, i) && list[i].addr@
                    == a by {
                if before.contains(a) {
                    let k = before.index_of(a);
                    assert(after[k] == a);
                }
                if after.contains(a) {
                    let k = after.index_of(a);
                    if k < before.len() {
                        assert(before[k] == a);
                    }
                }
                assert(after[before.len() as int] == last);
            }
        }
    }
}

proof fn last_target_of(list: Seq<DiscoveredDevice>, rules: PeerRules, i: int) -> (last: int)
    requires
        0 <= i < list.len(),
        is_target(list[i], rules),
    ensures
        i <= last < list.len(),
        list[last].addr@ == list[i].addr@,
        stands_for_address(list, rules, last),
    decreases list.len() - i,
{
    if stands_for_address(list, rules, i) {
        i
    } else {
        let j = choose|j: int|
            i < j < list.len() && #[trigger] is_target(list[j], rules) && list[j].addr@
                == list[i].addr@;
        last_target_of(list, rules, j)
    }
}

proof fn standing_devices_are_peers(list: Seq<DiscoveredDevice>, rules: PeerRules, n: int, i: int)
    requires
        0 <= i < n <= list.len(),
        stands_for_address(list, rules, i),
    ensures
        peers_upto(list, rules, n).contains(socket::peer_text(list[i].addr@, list[i].port)),
    decreases n,
{
    let peer = socket::peer_text(list[i].addr@, list[i].port);
    let now = peers_upto(list, rules, n);
    if i == n - 1 {
        assert(now.last() == peer);
    } else {
        standing_devices_are_peers(list, rules, n - 1, i);
        let k = peers_upto(list, rules, n - 1).index_of(peer);
        assert(now[k] == peer);
    }
}

/// Nobody is left out: a device that a content is sent to is among the peers, at the port
/// that the last one in the list with its address goes by.
pub proof fn every_target_is_a_peer(list: Seq<DiscoveredDevice>, rules: PeerRules, i: int)
    requires
        0 <= i < list.len(),
        is_target(list[i], rules),
    ensures
        exists|j: int|
            i <= j < list.len() && #[trigger] is_target(list[j], rules) && list[j].addr@
                == list[i].addr@ && (forall|k: int|
                j < k < list.len() && #[trigger] is_target(list[k], rules) ==> list[k].addr@
                    != list[i].addr@) && peers_of(list, rules).contains(
                socket::peer_text(list[j].addr@, list[j].port),
            ),
{
    let j = last_target_of(list, rules, i);
    let n = list.len() as int;
    let peer = socket::peer_text(list[j].addr@, list[j].port);
    standing_devices_are_peers(list, rules, n, j);
    order::sorted_contains(peers_upto(list, rules, n), by_text(), peer);
    assert(is_target(list[j], rules));
}

/// Where no two devices share an address, each one that is a target is a peer at its own
/// address and port, however many there are.
pub proof fn devices_with_their_own_address_are_peers(
    list: Seq<DiscoveredDevice>,
    rules: PeerRules,
    i: int,
)
    requires
        0 <= i < list.len(),
        is_target(list[i], rules),
        forall|k: int| 0 <= k < list.len() && k != i ==> (#[trigger] list[k]).addr@ != list[i].addr@,
    ensures
        peers_of(list, rules).contains(
            list[i].addr@ + seq![':'] + text::decimal(list[i].port as nat),
        ),
{
    every_target_is_a_peer(list, rules, i);
}

/// There are as many peers as there are different addresses among the devices that a content
/// is sent to.
pub proof fn there_is_one_peer_for_each_address(list: Seq<DiscoveredDevice>, rules: PeerRules)
    ensures
        ({
            let addresses = list.filter(|d: DiscoveredDevice| is_target(d, rules)).map_values(
                |d: DiscoveredDevice| d.addr@,
            );
            peers_of(list, rules).len() == addresses.to_set().len()
        }),
{
    let n = list.len() as int;
    let keep = |d: DiscoveredDevice| is_target(d, rules);
    let address = |d: DiscoveredDevice| d.addr@;
    let targets = list.filter(keep);
    let addresses = targets.map_values(address);
    let standing = addresses_upto(list, rules, n);
    each_address_stands_once(list, rules, n);
    order::sorted_keeps_elements(peers_upto(list, rules, n), by_text());
    standing.unique_seq_to_set();
    assert(addresses.to_set() =~= standing.to_set()) by {
        assert forall|a: Seq<char>| addresses.to_set().contains(a) <==> standing.to_set().contains(
            a,
        ) by {
            if standing.contains(a) {
                let i = choose|i: int|
                    0 <= i < n && #[trigger] stands_for_address(list, rules, i) && list[i].addr@
                        == a;
                list.lemma_filter_contains(keep, i);
                let k = targets.index_of(list[i]);
                assert(addresses[k] == a);
            }
            if addresses.contains(a) {
                let k = addresses.index_of(a);
                list.lemma_filter_pred(keep, k);
                assert(targets.contains(targets[k]));
                list.lemma_filter_contains_rev(keep, targets[k]);
                let i = list.index_of(targets[k]);
                let j = last_target_of(list, rules, i);
                assert(stands_for_address(list, rules, j));
            }
        }
    }
}

/// An entry is overtaken if it was copied before the latest event, and not if it was copied
/// after it, if it is that event, or if there was none.
pub proof fn earlier_entries_are_overtaken(e: EntryView, m: MarkerView)
    ensures
        !is_overtaken(e, None),
        e.item.created_at_us < m.created_at_us ==> is_overtaken(e, Some(m)),
        e.item.created_at_us > m.created_at_us ==> !is_overtaken(e, Some(m)),
        e.item.created_at_us == m.created_at_us && e.item.source_device_id == m.source_device_id
            && e.item.id == m.id ==> !is_overtaken(e, Some(m)),
{
    text::text_order_is_total(m.id, m.id);
}

proof fn nothing_to_drop(q: Seq<EntryView>, latest: Option<MarkerView>)
    requires
        forall|i: int| 0 <= i < q.len() ==> !is_overtaken(#[trigger] q[i], latest),
    ensures
        still_current(q, latest) == q,
    decreases q.len(),
{
    let keep = |e: EntryView| !is_overtaken(e, latest);
    reveal(Seq::filter);
    if q.len() > 0 {
        let rest = q.drop_last();
        assert forall|i: int| 0 <= i < rest.len() implies !is_overtaken(#[trigger] rest[i], latest) by {
            assert(rest[i] == q[i]);
        }
        nothing_to_drop(rest, latest);
        assert(q =~= rest.push(q.last()));
        assert(!is_overtaken(q[q.len() - 1], latest));
        rest.lemma_filter_push(q.last(), keep);
    }
}

proof fn without_contents_keeps_the_rest(
    inflight: Set<Seq<char>>,
    q: Seq<EntryView>,
    hash: Seq<char>,
)
    ensures
        without_contents(inflight, q).contains(hash) <==> inflight.contains(hash) && forall|i: int|
            0 <= i < q.len() ==> (#[trigger] q[i]).item.content_hash != hash,
    decreases q.len(),
{
    if q.len() > 0 {
        let rest = q.drop_last();
        without_contents_keeps_the_rest(inflight, rest, hash);
        if without_contents(inflight, q).contains(hash) {
            assert forall|i: int| 0 <= i < q.len() implies (#[trigger] q[i]).item.content_hash
                != hash by {
                if i < rest.len() {
                    assert(rest[i] == q[i]);
                }
            }
        }
        if inflight.contains(hash) && forall|i: int|
            0 <= i < q.len() ==> (#[trigger] q[i]).item.content_hash != hash {
            assert forall|i: int| 0 <= i < rest.len() implies (#[trigger] rest[i]).item.content_hash
                != hash by {
                assert(rest[i] == q[i]);
            }
            assert(q[q.len() - 1].item.content_hash != hash);
        }
    }
}

/// Dropping what was overtaken leaves every entry that was copied no earlier than the latest
/// event where it is, and takes a content out of flight only with an entry that held it.
/// Queues without an earlier entry stay as they are, and so does the rest of the state.
pub proof fn only_overtaken_entries_are_dropped(s: StateView, hash: Seq<char>)
    ensures
        ({
            let after = without_overtaken(s);
            &&& (forall|i: int|
                0 <= i < s.outbound.len() ==> !is_overtaken(#[trigger] s.outbound[i], s.latest))
                ==> after.outbound == s.outbound && (after.inflight.contains(hash)
                <==> s.inflight.contains(hash))
            &&& (forall|i: int|
                0 <= i < s.inbound.len() ==> !is_overtaken(#[trigger] s.inbound[i], s.latest))
                ==> after.inbound == s.inbound
            &&& after.inflight.contains(hash) <==> s.inflight.contains(hash) && forall|i: int|
                0 <= i < s.outbound.len() && is_overtaken(#[trigger] s.outbound[i], s.latest)
                    ==> s.outbound[i].item.content_hash != hash
            &&& after == StateView {
                outbound: after.outbound,
                inbound: after.inbound,
                inflight: after.inflight,
                ..s
            }
        }),
{
    let after = without_overtaken(s);
    let leave = |e: EntryView| is_overtaken(e, s.latest);
    let gone = overtaken(s.outbound, s.latest);
    if forall|i: int| 0 <= i < s.outbound.len() ==> !is_overtaken(#[trigger] s.outbound[i], s.latest) {
        nothing_to_drop(s.outbound, s.latest);
    }
    if forall|i: int| 0 <= i < s.inbound.len() ==> !is_overtaken(#[trigger] s.inbound[i], s.latest) {
        nothing_to_drop(s.inbound, s.latest);
    }
    without_contents_keeps_the_rest(s.inflight, gone, hash);
    assert forall|i: int|
        0 <= i < s.outbound.len() && is_overtaken(
            #[trigger] s.outbound[i],
            s.latest,
        ) implies gone.contains(s.outbound[i]) by {
        s.outbound.lemma_filter_contains(leave, i);
    }
    assert forall|k: int| 0 <= k < gone.len() implies is_overtaken(#[trigger] gone[k], s.latest)
        && s.outbound.contains(gone[k]) by {
        s.outbound.lemma_filter_pred(leave, k);
        assert(gone.contains(gone[k]));
        s.outbound.lemma_filter_contains_rev(leave, gone[k]);
    }
    if after.inflight.contains(hash) {
        assert forall|i: int|
            0 <= i < s.outbound.len() && is_overtaken(
                #[trigger] s.outbound[i],
                s.latest,
            ) implies s.outbound[i].item.content_hash != hash by {
            assert(gone.contains(s.outbound[i]));
            let k = gone.index_of(s.outbound[i]);
            assert(gone[k].item.content_hash != hash);
        }
    }
    if s.inflight.contains(hash) && forall|i: int|
        0 <= i < s.outbound.len() && is_overtaken(#[trigger] s.outbound[i], s.latest)
            ==> s.outbound[i].item.content_hash != hash {
        assert forall|k: int| 0 <= k < gone.len() implies (#[trigger] gone[k]).item.content_hash
            != hash by {
            let i = s.outbound.index_of(gone[k]);
            assert(is_overtaken(s.outbound[i], s.latest));
        }
    }
    assert(after =~= (StateView {
        outbound: after.outbound,
        inbound: after.inbound,
        inflight: after.inflight,
        ..s
    }));
}

/// Once the domain is forgotten, nothing waits, nothing is in flight and nothing is known of
/// earlier contents and events; transfers, the address in use, the log and the last error stay.
pub proof fn forgetting_clears_what_was_learned(
    s: StateView,
    members: members::MemberCache,
    hash: Seq<char>,
    now_ms: u64,
)
    ensures
        ({
            let after = forgotten(s, members);
            &&& after.outbound.len() == 0
            &&& after.inbound.len() == 0
            &&& after.latest is None
            &&& after.shared is None
            &&& !after.inflight.contains(hash)
            &&& after.observed is None
            &&& after.recent_events.len() == 0
            &&& after.applied_hashes.len() == 0
            &&& after.members == members
            &&& after.transfers == s.transfers
            &&& after.active_ip == s.active_ip
            &&& after.last_error == s.last_error
            &&& after.logs == s.logs
        }),
{
}

/// The address in use is the first usable one that a connection came in on, until one comes in
/// on a private address where the address in use is none; addresses that cannot be used do not
/// count.
pub proof fn private_addresses_come_into_use(active: Seq<u8>, ip: Seq<u8>)
    requires
        active.len() == 4,
        ip.len() == 4,
    ensures
        active_after(None, None) is None,
        active_after(Some(ipv4::ipv4_text(active)), None) == Some(ipv4::ipv4_text(active)),
        ipv4::is_usable(ip) ==> active_after(None, Some(ip)) == Some(ipv4::ipv4_text(ip)),
        !ipv4::is_usable(ip) ==> active_after(None, Some(ip)) is None,
        active_after(Some(ipv4::ipv4_text(active)), Some(ip)) == (if ipv4::private_scope(
            active,
        ) is None && ipv4::private_scope(ip) is Some {
            Some(ipv4::ipv4_text(ip))
        } else {
            Some(ipv4::ipv4_text(active))
        }),
{
    ipv4::ipv4_text_is_read_back(active);
    if ipv4::private_scope(ip) is Some {
        ipv4::private_addresses_are_usable(ip);
    }
}

/// Contents are not sent to the device's own identifier, nor to the address that it uses; with
/// a selected or active address they stay on its network.
pub proof fn peers_are_chosen_for_the_address_in_use(
    device_id: Seq<char>,
    ip: Seq<u8>,
    active: Option<Seq<char>>,
    interfaces: Seq<LocalInterface>,
    on_windows: bool,
    i: int,
)
    requires
        ip.len() == 4,
        ipv4::is_usable(ip),
        0 <= i < interfaces.len(),
        interfaces[i].ip@ == ip,
    ensures
        ({
            let rules = rules_of(
                device_id,
                ipv4::ipv4_text(ip),
                active,
                Some(interfaces),
                on_windows,
            );
            &&& rules.self_device_id == text::trimmed(device_id)
            &&& rules.own_ip == Some(ipv4::ipv4_text(ip))
            &&& rules.scope == Some(ip)
        }),
{
    let none = Seq::<char>::empty();
    text::trim_keeps(none);
    discovery::selected_addresses_come_first(ip, none, active, interfaces, on_windows, i);
    discovery::configured_addresses_are_used(ip, interfaces, false, none);
}

} // verus!
