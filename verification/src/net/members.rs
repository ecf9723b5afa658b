//! The devices that were heard of lately.
//!
//! A scan or an announcement adds to what is known; only time, or a change of
//! the domain or the network, takes away from it.

use crate::net::device;
use crate::net::device::{validate_discovered_device, DiscoveredDevice};
use crate::net::discovery;
use crate::net::discovery::{device_matches_selected_scope, DISCOVERED_DEVICE_LIMIT};
use crate::net::ipv4::Ipv4;
use crate::order;
use crate::order::stable_sort;
use crate::protocol;
use crate::text;
use crate::text::{byte_len, is_text_before, same_text, trim};
use vstd::prelude::*;
use vstd::utf8::*;

verus! {

/// How many members are remembered by name or address.
pub const KNOWN_MEMBER_LIMIT: usize = 256;

/// The longest name or address that is remembered in bytes.
pub const KNOWN_MEMBER_MAX_BYTES: usize = 160;

/// How long a device counts as present after it was last heard of.
pub const DISCOVERY_MEMBER_TTL_MS: u64 = 30_000;

/// When a device was last heard of.
#[derive(Debug)]
pub struct SeenAt {
    pub device_id: String,
    pub at_ms: u64,
}

/// The devices that were heard of lately.
#[derive(Debug)]
pub struct MemberCache {
    pub devices: Vec<DiscoveredDevice>,
    pub seen_at: Vec<SeenAt>,
    pub known: Vec<String>,
}

/// The place of the device with an identifier, or the length of the list.
pub open spec fn device_place(list: Seq<DiscoveredDevice>, id: Seq<char>) -> int
    decreases list.len(),
{
    if list.len() == 0 || list[0].device_id@ == id {
        0
    } else {
        1 + device_place(list.skip(1), id)
    }
}

/// The list holds a device with an identifier.
pub open spec fn has_device(list: Seq<DiscoveredDevice>, id: Seq<char>) -> bool {
    exists|i: int| 0 <= i < list.len() && (#[trigger] list[i]).device_id@ == id
}

/// No two devices of the list share an identifier.
pub open spec fn distinct_devices(list: Seq<DiscoveredDevice>) -> bool {
    forall|i: int, j: int|
        0 <= i < j < list.len() ==> (#[trigger] list[i]).device_id@ != (
        #[trigger] list[j]).device_id@
}

/// All devices of the list can be contacted.
pub open spec fn valid_devices(list: Seq<DiscoveredDevice>) -> bool {
    forall|i: int| 0 <= i < list.len() ==> device::is_valid_device((#[trigger] list[i])@)
}

/// The devices that count of those that were found: valid ones, each once, so
/// many at most.
pub open spec fn accepted(found: Seq<DiscoveredDevice>) -> Seq<DiscoveredDevice>
    decreases found.len(),
{
    if found.len() == 0 {
        found
    } else {
        let rest = accepted(found.drop_last());
        if rest.len() < DISCOVERED_DEVICE_LIMIT && device::is_valid_device(found.last()@)
            && !has_device(rest, found.last().device_id@) {
            rest.push(found.last())
        } else {
            rest
        }
    }
}

/// When devices were last heard of, as plain values.
pub open spec fn seen_views(seen: Seq<SeenAt>) -> Seq<(Seq<char>, u64)> {
    seen.map_values(|s: SeenAt| (s.device_id@, s.at_ms))
}

/// The place of a device among those heard of, or the length.
pub open spec fn seen_place(seen: Seq<(Seq<char>, u64)>, id: Seq<char>) -> int
    decreases seen.len(),
{
    if seen.len() == 0 || seen[0].0 == id {
        0
    } else {
        1 + seen_place(seen.skip(1), id)
    }
}

/// A device was heard of.
pub open spec fn is_seen(seen: Seq<(Seq<char>, u64)>, id: Seq<char>) -> bool {
    exists|i: int| 0 <= i < seen.len() && (#[trigger] seen[i]).0 == id
}

/// `a` was heard of before `b`; of two at one time the first by identifier.
pub open spec fn seen_before(a: (Seq<char>, u64), b: (Seq<char>, u64)) -> bool {
    a.1 < b.1 || (a.1 == b.1 && text::text_before(a.0, b.0))
}

/// The place of the device that was heard of longest ago.
pub open spec fn oldest_place(seen: Seq<(Seq<char>, u64)>) -> int
    decreases seen.len(),
{
    if seen.len() <= 1 {
        0
    } else {
        let k = oldest_place(seen.drop_last());
        if seen_before(seen.last(), seen[k]) {
            seen.len() - 1
        } else {
            k
        }
    }
}

/// Devices heard of, with one heard of now. A new one takes the place of the
/// oldest where there are too many.
pub open spec fn seen_now(seen: Seq<(Seq<char>, u64)>, id: Seq<char>, now_ms: u64) -> Seq<
    (Seq<char>, u64),
> {
    let i = seen_place(seen, id);
    if i < seen.len() {
        seen.update(i, (id, now_ms))
    } else if seen.len() >= DISCOVERED_DEVICE_LIMIT {
        seen.remove(oldest_place(seen)).push((id, now_ms))
    } else {
        seen.push((id, now_ms))
    }
}

/// Devices heard of, with several heard of now.
pub open spec fn all_seen_now(
    seen: Seq<(Seq<char>, u64)>,
    found: Seq<DiscoveredDevice>,
    now_ms: u64,
) -> Seq<(Seq<char>, u64)>
    decreases found.len(),
{
    if found.len() == 0 {
        seen
    } else {
        seen_now(
            all_seen_now(seen, found.drop_last(), now_ms),
            found.last().device_id@,
            now_ms,
        )
    }
}

/// The list with a device in the place of the one with its identifier, or at the end.
pub open spec fn with_device(list: Seq<DiscoveredDevice>, d: DiscoveredDevice) -> Seq<
    DiscoveredDevice,
> {
    let i = device_place(list, d.device_id@);
    if i < list.len() {
        list.update(i, d)
    } else {
        list.push(d)
    }
}

/// The list with several devices.
pub open spec fn with_devices(
    list: Seq<DiscoveredDevice>,
    found: Seq<DiscoveredDevice>,
) -> Seq<DiscoveredDevice>
    decreases found.len(),
{
    if found.len() == 0 {
        list
    } else {
        with_device(with_devices(list, found.drop_last()), found.last())
    }
}

/// Devices are listed by name.
pub open spec fn by_name() -> spec_fn(DiscoveredDevice, DiscoveredDevice) -> bool {
    |a: DiscoveredDevice, b: DiscoveredDevice| text::text_before(a.device_name@, b.device_name@)
}

/// Neighbours with one identifier reduced to the first of them.
pub open spec fn without_repeats(list: Seq<DiscoveredDevice>) -> Seq<DiscoveredDevice>
    decreases list.len(),
{
    if list.len() == 0 {
        list
    } else {
        let rest = without_repeats(list.drop_last());
        if rest.len() > 0 && rest.last().device_id@ == list.last().device_id@ {
            rest
        } else {
            rest.push(list.last())
        }
    }
}

/// The first of a list, as many as are kept.
pub open spec fn at_most(list: Seq<DiscoveredDevice>) -> Seq<DiscoveredDevice> {
    if list.len() > DISCOVERED_DEVICE_LIMIT {
        list.take(DISCOVERED_DEVICE_LIMIT as int)
    } else {
        list
    }
}

/// The list by name, each device once, so many at most.
pub open spec fn tidied(list: Seq<DiscoveredDevice>) -> Seq<DiscoveredDevice> {
    at_most(without_repeats(order::sorted(list, by_name())))
}

/// The devices that were heard of.
pub open spec fn still_seen(list: Seq<DiscoveredDevice>, seen: Seq<(Seq<char>, u64)>) -> Seq<
    DiscoveredDevice,
> {
    list.filter(|d: DiscoveredDevice| is_seen(seen, d.device_id@))
}

/// A device was heard of within the time that it counts as present.
pub open spec fn is_fresh(s: (Seq<char>, u64), now_ms: u64) -> bool {
    now_ms - s.1 < DISCOVERY_MEMBER_TTL_MS
}

/// A device stays present although a search for all devices did not find it.
pub open spec fn survives_replacement(
    list: Seq<DiscoveredDevice>,
    found: Seq<DiscoveredDevice>,
    selected: Option<Seq<u8>>,
    id: Seq<char>,
) -> bool {
    has_device(found, id) || (selected is Some && device_place(list, id) < list.len()
        && !discovery::is_in_scope(list[device_place(list, id)], selected->Some_0))
}

impl MemberCache {
    /// The cache is well formed: valid devices, each once, no more than are kept.
    pub open spec fn wf(self) -> bool {
        &&& self.devices@.len() <= DISCOVERED_DEVICE_LIMIT
        &&& distinct_devices(self.devices@)
        &&& valid_devices(self.devices@)
        &&& self.seen_at@.len() <= DISCOVERED_DEVICE_LIMIT
        &&& self.known@.len() <= KNOWN_MEMBER_LIMIT
    }

    /// A cache without members.
    pub fn new() -> (cache: Self)
        ensures
            cache.wf(),
            cache.devices@.len() == 0,
            cache.seen_at@.len() == 0,
            cache.known@.len() == 0,
    {
        MemberCache { devices: Vec::new(), seen_at: Vec::new(), known: Vec::new() }
    }
}

fn find_device(list: &Vec<DiscoveredDevice>, id: &str) -> (place: usize)
    ensures
        place == device_place(list@, id@),
        place <= list@.len(),
        place < list@.len() ==> list@[place as int].device_id@ == id@,
        has_device(list@, id@) == (place < list@.len()),
{
    let mut i: usize = 0;
    assert(list@.skip(0) =~= list@);
    while i < list.len()
        invariant
            i <= list.len(),
            device_place(list@, id@) == i + device_place(list@.skip(i as int), id@),
            forall|j: int| 0 <= j < i ==> (#[trigger] list@[j]).device_id@ != id@,
        decreases list.len() - i,
    {
        assert(list@.skip(i as int)[0] == list@[i as int]);
        if same_text(&list[i].device_id, id) {
            return i;
        }
        assert(list@.skip(i as int).skip(1) =~= list@.skip(i + 1));
        i = i + 1;
    }
    i
}

fn find_seen(seen: &Vec<SeenAt>, id: &str) -> (place: usize)
    ensures
        place == seen_place(seen_views(seen@), id@),
        place <= seen@.len(),
        is_seen(seen_views(seen@), id@) == (place < seen@.len()),
{
    let ghost all = seen_views(seen@);
    let mut i: usize = 0;
    assert(all.skip(0) =~= all);
    while i < seen.len()
        invariant
            i <= seen.len(),
            all == seen_views(seen@),
            seen_place(all, id@) == i + seen_place(all.skip(i as int), id@),
            forall|j: int| 0 <= j < i ==> (#[trigger] all[j]).0 != id@,
        decreases seen.len() - i,
    {
        assert(all.skip(i as int)[0] == all[i as int]);
        assert(all[i as int].0 == seen@[i as int].device_id@);
        if same_text(&seen[i].device_id, id) {
            return i;
        }
        assert(all.skip(i as int).skip(1) =~= all.skip(i + 1));
        i = i + 1;
    }
    i
}

/// Picks the devices that count of those that were found.
pub fn bounded_valid_devices(found: Vec<DiscoveredDevice>) -> (devices: Vec<DiscoveredDevice>)
    ensures
        devices@ == accepted(found@),
        devices@.len() <= DISCOVERED_DEVICE_LIMIT,
        distinct_devices(devices@),
        valid_devices(devices@),
{
    let mut devices: Vec<DiscoveredDevice> = Vec::new();
    let mut i: usize = 0;
    while i < found.len()
        invariant
            i <= found.len(),
            devices@ == accepted(found@.take(i as int)),
            devices@.len() <= DISCOVERED_DEVICE_LIMIT,
            distinct_devices(devices@),
            valid_devices(devices@),
        decreases found.len() - i,
    {
        proof {
            assert(found@.take(i + 1).drop_last() =~= found@.take(i as int));
            assert(found@.take(i + 1).last() == found@[i as int]);
        }
        if devices.len() < DISCOVERED_DEVICE_LIMIT && validate_discovered_device(&found[i])
            && find_device(&devices, &found[i].device_id) == devices.len() {
            devices.push(found[i].clone());
        }
        i = i + 1;
    }
    assert(found@.take(i as int) =~= found@);
    devices
}

/// Takes note that a device was heard of.
fn insert_seen_at_bounded(seen: &mut Vec<SeenAt>, device_id: &str, now_ms: u64)
    ensures
        seen_views(final(seen)@) == seen_now(seen_views(old(seen)@), device_id@, now_ms),
        old(seen)@.len() <= DISCOVERED_DEVICE_LIMIT ==> final(seen)@.len()
            <= DISCOVERED_DEVICE_LIMIT,
{
    let ghost all = seen_views(seen@);
    let i: usize = find_seen(seen, device_id);
    let entry = SeenAt { device_id: device_id.to_owned(), at_ms: now_ms };
    if i < seen.len() {
        seen.set(i, entry);
        assert(seen_views(seen@) =~= all.update(i as int, (device_id@, now_ms)));
        return ;
    }
    if seen.len() >= DISCOVERED_DEVICE_LIMIT {
        let mut oldest: usize = 0;
        let mut k: usize = 1;
        assert(oldest_place(all.take(1)) == 0);
        while k < seen.len()
            invariant
                1 <= k <= seen.len(),
                oldest < k,
                all == seen_views(seen@),
                seen@ == old(seen)@,
                oldest == oldest_place(all.take(k as int)),
            decreases seen.len() - k,
        {
            proof {
                assert(all.take(k + 1).drop_last() =~= all.take(k as int));
                assert(all.take(k + 1).last() == all[k as int]);
                assert(all[k as int] == (seen@[k as int].device_id@, seen@[k as int].at_ms));
                assert(all[oldest as int] == (
                    seen@[oldest as int].device_id@,
                    seen@[oldest as int].at_ms,
                ));
            }
            if seen[k].at_ms < seen[oldest].at_ms || (seen[k].at_ms == seen[oldest].at_ms
                && is_text_before(&seen[k].device_id, &seen[oldest].device_id)) {
                oldest = k;
            }
            k = k + 1;
        }
        assert(all.take(k as int) =~= all);
        let _ = seen.remove(oldest);
        assert(seen_views(seen@) =~= all.remove(oldest as int));
    }
    let ghost before = seen_views(seen@);
    seen.push(entry);
    assert(seen_views(seen@) =~= before.push((device_id@, now_ms)));
}

fn note_all_seen(seen: &mut Vec<SeenAt>, found: &Vec<DiscoveredDevice>, now_ms: u64)
    ensures
        seen_views(final(seen)@) == all_seen_now(seen_views(old(seen)@), found@, now_ms),
        old(seen)@.len() <= DISCOVERED_DEVICE_LIMIT ==> final(seen)@.len()
            <= DISCOVERED_DEVICE_LIMIT,
{
    let ghost before = seen_views(seen@);
    let mut i: usize = 0;
    while i < found.len()
        invariant
            i <= found.len(),
            seen_views(seen@) == all_seen_now(before, found@.take(i as int), now_ms),
            old(seen)@.len() <= DISCOVERED_DEVICE_LIMIT ==> seen@.len() <= DISCOVERED_DEVICE_LIMIT,
        decreases found.len() - i,
    {
        proof {
            assert(found@.take(i + 1).drop_last() =~= found@.take(i as int));
            assert(found@.take(i + 1).last() == found@[i as int]);
        }
        insert_seen_at_bounded(seen, &found[i].device_id, now_ms);
        i = i + 1;
    }
    assert(found@.take(i as int) =~= found@);
}

fn keep_seen_devices(list: &mut Vec<DiscoveredDevice>, seen: &Vec<SeenAt>)
    ensures
        final(list)@ == still_seen(old(list)@, seen_views(seen@)),
        distinct_devices(old(list)@) ==> distinct_devices(final(list)@),
        valid_devices(old(list)@) ==> valid_devices(final(list)@),
        final(list)@.len() <= old(list)@.len(),
{
    let ghost all = list@;
    let ghost keep = |d: DiscoveredDevice| is_seen(seen_views(seen@), d.device_id@);
    let mut kept: Vec<DiscoveredDevice> = Vec::new();
    let mut i: usize = 0;
    proof {
        reveal(Seq::filter);
    }
    assert(kept@ =~= all.take(0).filter(keep));
    while i < list.len()
        invariant
            i <= list.len(),
            all == list@,
            list@ == old(list)@,
            keep == (|d: DiscoveredDevice| is_seen(seen_views(seen@), d.device_id@)),
            kept@ == all.take(i as int).filter(keep),
            kept@.len() <= i,
            valid_devices(all) ==> valid_devices(kept@),
            forall|j: int|
                0 <= j < kept@.len() ==> exists|k: int|
                    0 <= k < i && (#[trigger] kept@[j]) == #[trigger] all[k],
            distinct_devices(all) ==> distinct_devices(kept@),
        decreases list.len() - i,
    {
        proof {
            assert(all.take(i + 1) =~= all.take(i as int).push(all[i as int]));
            all.take(i as int).lemma_filter_push(all[i as int], keep);
        }
        let ghost before = kept@;
        if find_seen(seen, &list[i].device_id) < seen.len() {
            kept.push(list[i].clone());
            proof {
                assert(kept@ == before.push(all[i as int]));
                assert forall|j: int| 0 <= j < kept@.len() implies exists|k: int|
                    0 <= k < i + 1 && (#[trigger] kept@[j]) == #[trigger] all[k] by {
                    if j < before.len() {
                        let k = choose|k: int| 0 <= k < i && before[j] == #[trigger] all[k];
                        assert(kept@[j] == all[k]);
                    } else {
                        assert(kept@[j] == all[i as int]);
                    }
                }
                if distinct_devices(all) {
                    assert forall|a: int, b: int| 0 <= a < b < kept@.len() implies (
                    #[trigger] kept@[a]).device_id@ != (#[trigger] kept@[b]).device_id@ by {
                        if b == before.len() {
                            let k = choose|k: int| 0 <= k < i && before[a] == #[trigger] all[k];
                            assert(all[k].device_id@ != all[i as int].device_id@);
                        }
                    }
                }
            }
        }
        i = i + 1;
    }
    assert(all.take(i as int) =~= all);
    *list = kept;
}

proof fn device_place_is_found(list: Seq<DiscoveredDevice>, id: Seq<char>)
    ensures
        0 <= device_place(list, id) <= list.len(),
        device_place(list, id) < list.len() ==> list[device_place(list, id)].device_id@ == id,
        has_device(list, id) == (device_place(list, id) < list.len()),
    decreases list.len(),
{
    if list.len() > 0 && list[0].device_id@ != id {
        device_place_is_found(list.skip(1), id);
        if has_device(list, id) {
            let i = choose|i: int| 0 <= i < list.len() && (#[trigger] list[i]).device_id@ == id;
            assert(list.skip(1)[i - 1].device_id@ == id);
        }
        if has_device(list.skip(1), id) {
            let i = choose|i: int|
                0 <= i < list.skip(1).len() && (#[trigger] list.skip(1)[i]).device_id@ == id;
            assert(list[i + 1].device_id@ == id);
        }
    }
}

proof fn with_device_keeps_order(list: Seq<DiscoveredDevice>, d: DiscoveredDevice)
    ensures
        distinct_devices(list) ==> distinct_devices(with_device(list, d)),
        valid_devices(list) && device::is_valid_device(d@) ==> valid_devices(with_device(list, d)),
        forall|id: Seq<char>|
            #[trigger] has_device(with_device(list, d), id) <==> has_device(list, id) || id
                == d.device_id@,
        with_device(list, d).len() <= list.len() + 1,
{
    device_place_is_found(list, d.device_id@);
    let i = device_place(list, d.device_id@);
    let next = with_device(list, d);
    if distinct_devices(list) {
        assert forall|a: int, b: int| 0 <= a < b < next.len() implies (
        #[trigger] next[a]).device_id@ != (#[trigger] next[b]).device_id@ by {
            if i < list.len() {
                if a == i {
                    assert(list[a].device_id@ != list[b].device_id@);
                } else if b == i {
                    assert(list[a].device_id@ != list[b].device_id@);
                } else {
                    assert(list[a].device_id@ != list[b].device_id@);
                }
            } else if b == list.len() {
                assert(!has_device(list, d.device_id@));
                assert(list[a].device_id@ != d.device_id@);
            } else {
                assert(list[a].device_id@ != list[b].device_id@);
            }
        }
    }
    assert forall|id: Seq<char>|
        #[trigger] has_device(next, id) <==> has_device(list, id) || id == d.device_id@ by {
        if has_device(list, id) {
            let k = choose|k: int| 0 <= k < list.len() && (#[trigger] list[k]).device_id@ == id;
            if k == i {
                assert(next[i].device_id@ == id);
            } else {
                assert(next[k].device_id@ == id);
            }
        }
        if id == d.device_id@ {
            if i < list.len() {
                assert(next[i].device_id@ == id);
            } else {
                assert(next[list.len() as int].device_id@ == id);
            }
        }
        if has_device(next, id) {
            let k = choose|k: int| 0 <= k < next.len() && (#[trigger] next[k]).device_id@ == id;
            if k < list.len() && k != i {
                assert(list[k].device_id@ == id);
            }
        }
    }
}

proof fn with_devices_keeps_order(list: Seq<DiscoveredDevice>, found: Seq<DiscoveredDevice>)
    ensures
        distinct_devices(list) ==> distinct_devices(with_devices(list, found)),
        valid_devices(list) && valid_devices(found) ==> valid_devices(with_devices(list, found)),
        forall|id: Seq<char>|
            #[trigger] has_device(with_devices(list, found), id) <==> has_device(list, id)
                || has_device(found, id),
        with_devices(list, found).len() <= list.len() + found.len(),
    decreases found.len(),
{
    if found.len() > 0 {
        let front = found.drop_last();
        with_devices_keeps_order(list, front);
        with_device_keeps_order(with_devices(list, front), found.last());
        assert forall|id: Seq<char>|
            #[trigger] has_device(with_devices(list, found), id) <==> has_device(list, id)
                || has_device(found, id) by {
            if has_device(found, id) {
                let k = choose|k: int| 0 <= k < found.len() && (#[trigger] found[k]).device_id@ == id;
                if k < front.len() {
                    assert(front[k].device_id@ == id);
                }
            }
            if has_device(front, id) {
                let k = choose|k: int| 0 <= k < front.len() && (#[trigger] front[k]).device_id@ == id;
                assert(found[k].device_id@ == id);
            }
            if id == found.last().device_id@ {
                assert(found[found.len() - 1].device_id@ == id);
            }
        }
        if valid_devices(found) {
            assert(device::is_valid_device(found[found.len() - 1]@));
            assert(forall|i: int| 0 <= i < front.len() ==> front[i] == found[i]);
        }
    }
}

proof fn sorted_devices(list: Seq<DiscoveredDevice>)
    ensures
        order::sorted(list, by_name()).len() == list.len(),
        distinct_devices(list) ==> distinct_devices(order::sorted(list, by_name())),
        valid_devices(list) ==> valid_devices(order::sorted(list, by_name())),
        forall|id: Seq<char>|
            #[trigger] has_device(order::sorted(list, by_name()), id) == has_device(list, id),
{
    broadcast use vstd::seq_lib::group_to_multiset_ensures;

    let s = order::sorted(list, by_name());
    order::sorted_keeps_elements(list, by_name());
    assert forall|d: DiscoveredDevice| s.contains(d) == list.contains(d) by {
        order::sorted_contains(list, by_name(), d);
    }
    if valid_devices(list) {
        assert forall|i: int| 0 <= i < s.len() implies device::is_valid_device((#[trigger] s[i])@) by {
            assert(s.contains(s[i]));
            let k = list.index_of(s[i]);
            assert(list[k] == s[i]);
        }
    }
    assert forall|id: Seq<char>| #[trigger] has_device(s, id) == has_device(list, id) by {
        if has_device(s, id) {
            let i = choose|i: int| 0 <= i < s.len() && (#[trigger] s[i]).device_id@ == id;
            assert(s.contains(s[i]));
            let k = list.index_of(s[i]);
            assert(list[k].device_id@ == id);
        }
        if has_device(list, id) {
            let i = choose|i: int| 0 <= i < list.len() && (#[trigger] list[i]).device_id@ == id;
            assert(list.contains(list[i]));
            let k = s.index_of(list[i]);
            assert(s[k].device_id@ == id);
        }
    }
    if distinct_devices(list) {
        assert(list.no_duplicates()) by {
            assert forall|i: int, j: int| 0 <= i < list.len() && 0 <= j < list.len() && i
                != j implies list[i] != list[j] by {
                if i < j {
                    assert(list[i].device_id@ != list[j].device_id@);
                } else {
                    assert(list[j].device_id@ != list[i].device_id@);
                }
            }
        }
        list.lemma_multiset_has_no_duplicates();
        s.lemma_multiset_has_no_duplicates_conv();
        assert forall|a: int, b: int| 0 <= a < b < s.len() implies (#[trigger] s[a]).device_id@ != (
        #[trigger] s[b]).device_id@ by {
            assert(s.contains(s[a]) && s.contains(s[b]));
            let x = list.index_of(s[a]);
            let y = list.index_of(s[b]);
            assert(s[a] != s[b]);
            assert(x != y);
            if x < y {
                assert(list[x].device_id@ != list[y].device_id@);
            } else {
                assert(list[y].device_id@ != list[x].device_id@);
            }
        }
    }
}

proof fn distinct_devices_have_no_repeats(list: Seq<DiscoveredDevice>)
    requires
        distinct_devices(list),
    ensures
        without_repeats(list) == list,
    decreases list.len(),
{
    if list.len() > 0 {
        let front = list.drop_last();
        assert(distinct_devices(front)) by {
            assert forall|i: int, j: int| 0 <= i < j < front.len() implies (
            #[trigger] front[i]).device_id@ != (#[trigger] front[j]).device_id@ by {
                assert(list[i].device_id@ != list[j].device_id@);
            }
        }
        distinct_devices_have_no_repeats(front);
        if front.len() > 0 {
            assert(list[front.len() - 1].device_id@ != list[list.len() - 1].device_id@);
        }
        assert(front.push(list.last()) =~= list);
    }
}

/// Puts a list in order: by name, each device once, so many at most.
fn tidy_devices(list: &mut Vec<DiscoveredDevice>)
    requires
        distinct_devices(old(list)@),
        valid_devices(old(list)@),
    ensures
        final(list)@ == tidied(old(list)@),
        distinct_devices(final(list)@),
        valid_devices(final(list)@),
        final(list)@.len() <= DISCOVERED_DEVICE_LIMIT,
{
    proof {
        sorted_devices(list@);
        distinct_devices_have_no_repeats(order::sorted(list@, by_name()));
    }
    let is_before = |a: &DiscoveredDevice, b: &DiscoveredDevice| -> (r: bool)
        ensures
            r == text::text_before(a.device_name@, b.device_name@),
        { is_text_before(&a.device_name, &b.device_name) };
    stable_sort(list, is_before, Ghost(by_name()));
    if list.len() > DISCOVERED_DEVICE_LIMIT {
        let ghost all = list@;
        list.truncate(DISCOVERED_DEVICE_LIMIT);
        assert(list@ =~= all.take(DISCOVERED_DEVICE_LIMIT as int));
        assert(distinct_devices(list@)) by {
            assert forall|i: int, j: int| 0 <= i < j < list@.len() implies (
            #[trigger] list@[i]).device_id@ != (#[trigger] list@[j]).device_id@ by {
                assert(all[i].device_id@ != all[j].device_id@);
            }
        }
    }
}

fn put_devices(list: &mut Vec<DiscoveredDevice>, found: &Vec<DiscoveredDevice>)
    ensures
        final(list)@ == with_devices(old(list)@, found@),
{
    let ghost before = list@;
    let mut i: usize = 0;
    while i < found.len()
        invariant
            i <= found.len(),
            list@ == with_devices(before, found@.take(i as int)),
        decreases found.len() - i,
    {
        proof {
            assert(found@.take(i + 1).drop_last() =~= found@.take(i as int));
            assert(found@.take(i + 1).last() == found@[i as int]);
        }
        let place: usize = find_device(list, &found[i].device_id);
        if place < list.len() {
            list.set(place, found[i].clone());
        } else {
            list.push(found[i].clone());
        }
        i = i + 1;
    }
    assert(found@.take(i as int) =~= found@);
}

/// The cache with devices that were heard of now.
pub open spec fn is_merged(
    before: MemberCache,
    after: MemberCache,
    found: Seq<DiscoveredDevice>,
    now_ms: u64,
) -> bool {
    let new = accepted(found);
    &&& after.known@ == before.known@
    &&& if new.len() == 0 {
        after.devices@ == before.devices@ && after.seen_at@ == before.seen_at@
    } else {
        &&& seen_views(after.seen_at@) == all_seen_now(seen_views(before.seen_at@), new, now_ms)
        &&& after.devices@ == tidied(
            with_devices(still_seen(before.devices@, seen_views(after.seen_at@)), new),
        )
    }
}

/// Takes note of devices that were heard of. Whoever is not among them stays.
pub fn merge_discovered_devices(
    cache: &mut MemberCache,
    devices: Vec<DiscoveredDevice>,
    now_ms: u64,
)
    requires
        old(cache).wf(),
    ensures
        final(cache).wf(),
        is_merged(*old(cache), *final(cache), devices@, now_ms),
{
    let new = bounded_valid_devices(devices);
    if new.len() == 0 {
        return ;
    }
    note_all_seen(&mut cache.seen_at, &new, now_ms);
    keep_seen_devices(&mut cache.devices, &cache.seen_at);
    proof {
        with_devices_keeps_order(cache.devices@, new@);
    }
    put_devices(&mut cache.devices, &new);
    tidy_devices(&mut cache.devices);
}

/// Takes note of the devices that a scan found; whoever it did not find stays.
pub fn refresh_discovered_devices(
    cache: &mut MemberCache,
    devices: Vec<DiscoveredDevice>,
    now_ms: u64,
)
    requires
        old(cache).wf(),
    ensures
        final(cache).wf(),
        is_merged(*old(cache), *final(cache), devices@, now_ms),
{
    merge_discovered_devices(cache, devices, now_ms);
}

/// The cache after a search that counts for all devices, or for those on the
/// network of the selected address.
pub open spec fn is_replaced(
    before: MemberCache,
    after: MemberCache,
    selected: Option<Seq<u8>>,
    found: Seq<DiscoveredDevice>,
    now_ms: u64,
) -> bool {
    let new = accepted(found);
    let seen = seen_views(before.seen_at@).filter(
        |s: (Seq<char>, u64)| survives_replacement(before.devices@, new, selected, s.0),
    );
    &&& after.known@ == before.known@
    &&& seen_views(after.seen_at@) == all_seen_now(seen, new, now_ms)
    &&& after.devices@ == tidied(
        with_devices(still_seen(before.devices@, seen_views(after.seen_at@)), new),
    )
}

/// Replaces what is known of the devices on the network of the selected address,
/// or of all devices if none is selected.
pub fn replace_discovered_devices(
    cache: &mut MemberCache,
    selected: Option<Ipv4>,
    devices: Vec<DiscoveredDevice>,
    now_ms: u64,
)
    requires
        old(cache).wf(),
    ensures
        final(cache).wf(),
        is_replaced(
            *old(cache),
            *final(cache),
            discovery::ip_option(selected),
            devices@,
            now_ms,
        ),
{
    let new = bounded_valid_devices(devices);
    let ghost all = seen_views(cache.seen_at@);
    let ghost keep = |s: (Seq<char>, u64)|
        survives_replacement(cache.devices@, new@, discovery::ip_option(selected), s.0);
    let mut kept: Vec<SeenAt> = Vec::new();
    let mut i: usize = 0;
    proof {
        reveal(Seq::filter);
    }
    assert(seen_views(kept@) =~= all.take(0).filter(keep));
    while i < cache.seen_at.len()
        invariant
            i <= cache.seen_at.len() <= DISCOVERED_DEVICE_LIMIT,
            kept.len() <= i,
            *cache == *old(cache),
            all == seen_views(cache.seen_at@),
            keep == (|s: (Seq<char>, u64)|
                survives_replacement(
                    cache.devices@,
                    new@,
                    discovery::ip_option(selected),
                    s.0,
                )),
            seen_views(kept@) == all.take(i as int).filter(keep),
        decreases cache.seen_at.len() - i,
    {
        proof {
            assert(all.take(i + 1) =~= all.take(i as int).push(all[i as int]));
            all.take(i as int).lemma_filter_push(all[i as int], keep);
        }
        let id = cache.seen_at[i].device_id.clone();
        let mut stays = find_device(&new, &id) < new.len();
        if !stays {
            if let Some(ip) = selected {
                let place: usize = find_device(&cache.devices, &id);
                if place < cache.devices.len() {
                    stays = !device_matches_selected_scope(&cache.devices[place], &ip);
                }
            }
        }
        assert(stays == keep(all[i as int]));
        let ghost before = kept@;
        if stays {
            kept.push(SeenAt { device_id: id, at_ms: cache.seen_at[i].at_ms });
            assert(seen_views(kept@) =~= seen_views(before).push(all[i as int]));
        }
        i = i + 1;
    }
    assert(all.take(i as int) =~= all);
    cache.seen_at = kept;
    note_all_seen(&mut cache.seen_at, &new, now_ms);
    keep_seen_devices(&mut cache.devices, &cache.seen_at);
    proof {
        with_devices_keeps_order(cache.devices@, new@);
    }
    put_devices(&mut cache.devices, &new);
    tidy_devices(&mut cache.devices);
}

/// The cache without the devices that were not heard of for too long.
pub open spec fn is_pruned(before: MemberCache, after: MemberCache, now_ms: u64) -> bool {
    &&& after.known@ == before.known@
    &&& seen_views(after.seen_at@) == seen_views(before.seen_at@).filter(
        |s: (Seq<char>, u64)| is_fresh(s, now_ms),
    )
    &&& after.devices@ == still_seen(before.devices@, seen_views(after.seen_at@))
}

/// Forgets the devices that were not heard of for too long.
pub fn prune_stale_discovered_devices(cache: &mut MemberCache, now_ms: u64)
    requires
        old(cache).wf(),
    ensures
        final(cache).wf(),
        is_pruned(*old(cache), *final(cache), now_ms),
{
    let ghost all = seen_views(cache.seen_at@);
    let ghost keep = |s: (Seq<char>, u64)| is_fresh(s, now_ms);
    let mut kept: Vec<SeenAt> = Vec::new();
    let mut i: usize = 0;
    proof {
        reveal(Seq::filter);
    }
    assert(seen_views(kept@) =~= all.take(0).filter(keep));
    while i < cache.seen_at.len()
        invariant
            i <= cache.seen_at.len() <= DISCOVERED_DEVICE_LIMIT,
            kept.len() <= i,
            *cache == *old(cache),
            all == seen_views(cache.seen_at@),
            keep == (|s: (Seq<char>, u64)| is_fresh(s, now_ms)),
            seen_views(kept@) == all.take(i as int).filter(keep),
        decreases cache.seen_at.len() - i,
    {
        proof {
            assert(all.take(i + 1) =~= all.take(i as int).push(all[i as int]));
            all.take(i as int).lemma_filter_push(all[i as int], keep);
        }
        let ghost before = kept@;
        if now_ms.saturating_sub(cache.seen_at[i].at_ms) < DISCOVERY_MEMBER_TTL_MS {
            kept.push(
                SeenAt {
                    device_id: cache.seen_at[i].device_id.clone(),
                    at_ms: cache.seen_at[i].at_ms,
                },
            );
            assert(seen_views(kept@) =~= seen_views(before).push(all[i as int]));
        }
        i = i + 1;
    }
    assert(all.take(i as int) =~= all);
    cache.seen_at = kept;
    keep_seen_devices(&mut cache.devices, &cache.seen_at);
}

/// Forgets all devices.
pub fn clear_members(cache: &mut MemberCache)
    ensures
        final(cache).wf(),
        final(cache).devices@.len() == 0,
        final(cache).seen_at@.len() == 0,
        final(cache).known@.len() == 0,
{
    cache.devices.clear();
    cache.seen_at.clear();
    cache.known.clear();
}

/// The place of the first text of a list in the order of texts.
pub open spec fn first_place(list: Seq<Seq<char>>) -> int
    decreases list.len(),
{
    if list.len() <= 1 {
        0
    } else {
        let k = first_place(list.drop_last());
        if text::text_before(list.last(), list[k]) {
            list.len() - 1
        } else {
            k
        }
    }
}

/// What a member is remembered by.
pub open spec fn member_key(kind: Seq<char>, member: Seq<char>) -> Seq<char> {
    kind + ":"@ + text::trimmed(member)
}

/// A member can be remembered.
pub open spec fn is_memorable(kind: Seq<char>, member: Seq<char>) -> bool {
    &&& text::trimmed(member).len() > 0
    &&& encode_utf8(text::trimmed(member)).len() <= KNOWN_MEMBER_MAX_BYTES
    &&& kind == "device"@ || kind == "addr"@
}

/// The remembered members with one more.
pub open spec fn known_after(known: Seq<Seq<char>>, kind: Seq<char>, member: Seq<char>) -> Seq<
    Seq<char>,
> {
    let key = member_key(kind, member);
    if !is_memorable(kind, member) || known.contains(key) {
        known
    } else if known.len() >= KNOWN_MEMBER_LIMIT {
        known.remove(first_place(known)).push(key)
    } else {
        known.push(key)
    }
}

/// Remembers a member by its identifier or its address.
pub fn mark_known_member(known: &mut Vec<String>, kind: &str, member: &str)
    ensures
        protocol::texts(final(known)@) == known_after(protocol::texts(old(known)@), kind@, member@),
        old(known)@.len() <= KNOWN_MEMBER_LIMIT ==> final(known)@.len() <= KNOWN_MEMBER_LIMIT,
{
    let ghost all = protocol::texts(known@);
    let value = trim(member);
    if value.as_str().is_empty() || byte_len(&value) > KNOWN_MEMBER_MAX_BYTES || !(same_text(
        kind,
        "device",
    ) || same_text(kind, "addr")) {
        return ;
    }
    let mut key: String = kind.to_owned();
    key.append(":");
    key.append(&value);
    let mut i: usize = 0;
    while i < known.len()
        invariant
            i <= known.len(),
            known@ == old(known)@,
            all == protocol::texts(known@),
            key@ == member_key(kind@, member@),
            forall|j: int| 0 <= j < i ==> all[j] != key@,
        decreases known.len() - i,
    {
        assert(all[i as int] == known@[i as int]@);
        if same_text(&known[i], &key) {
            return ;
        }
        i = i + 1;
    }
    if known.len() >= KNOWN_MEMBER_LIMIT {
        let mut first: usize = 0;
        let mut k: usize = 1;
        assert(first_place(all.take(1)) == 0);
        while k < known.len()
            invariant
                1 <= k <= known.len(),
                first < k,
                known@ == old(known)@,
                all == protocol::texts(known@),
                first == first_place(all.take(k as int)),
            decreases known.len() - k,
        {
            proof {
                assert(all.take(k + 1).drop_last() =~= all.take(k as int));
                assert(all.take(k + 1).last() == known@[k as int]@);
                assert(all[first as int] == known@[first as int]@);
            }
            if is_text_before(&known[k], &known[first]) {
                first = k;
            }
            k = k + 1;
        }
        assert(all.take(k as int) =~= all);
        let _ = known.remove(first);
        assert(protocol::texts(known@) =~= all.remove(first as int));
    }
    let ghost before = protocol::texts(known@);
    let ghost new_key = key@;
    known.push(key);
    assert(protocol::texts(known@) =~= before.push(new_key));
}

proof fn seen_place_is_found(seen: Seq<(Seq<char>, u64)>, id: Seq<char>)
    ensures
        0 <= seen_place(seen, id) <= seen.len(),
        seen_place(seen, id) < seen.len() ==> seen[seen_place(seen, id)].0 == id,
        is_seen(seen, id) == (seen_place(seen, id) < seen.len()),
    decreases seen.len(),
{
    if seen.len() > 0 && seen[0].0 != id {
        seen_place_is_found(seen.skip(1), id);
        if is_seen(seen, id) {
            let i = choose|i: int| 0 <= i < seen.len() && (#[trigger] seen[i]).0 == id;
            assert(seen.skip(1)[i - 1].0 == id);
        }
        if is_seen(seen.skip(1), id) {
            let i = choose|i: int| 0 <= i < seen.skip(1).len() && (#[trigger] seen.skip(1)[i]).0 == id;
            assert(seen[i + 1].0 == id);
        }
    }
}

proof fn room_keeps_seen(seen: Seq<(Seq<char>, u64)>, found: Seq<DiscoveredDevice>, now_ms: u64)
    requires
        seen.len() + found.len() <= DISCOVERED_DEVICE_LIMIT,
    ensures
        all_seen_now(seen, found, now_ms).len() <= seen.len() + found.len(),
        forall|id: Seq<char>|
            is_seen(seen, id) ==> #[trigger] is_seen(all_seen_now(seen, found, now_ms), id),
    decreases found.len(),
{
    if found.len() > 0 {
        let front = found.drop_last();
        room_keeps_seen(seen, front, now_ms);
        let before = all_seen_now(seen, front, now_ms);
        let id_new = found.last().device_id@;
        seen_place_is_found(before, id_new);
        let after = seen_now(before, id_new, now_ms);
        assert forall|id: Seq<char>| is_seen(seen, id) implies #[trigger] is_seen(after, id) by {
            assert(is_seen(before, id));
            let i = choose|i: int| 0 <= i < before.len() && (#[trigger] before[i]).0 == id;
            assert(after[i].0 == id);
        }
    }
}

proof fn still_seen_holds(list: Seq<DiscoveredDevice>, seen: Seq<(Seq<char>, u64)>, id: Seq<char>)
    ensures
        has_device(still_seen(list, seen), id) <==> has_device(list, id) && is_seen(seen, id),
{
    let keep = |d: DiscoveredDevice| is_seen(seen, d.device_id@);
    let part = list.filter(keep);
    if has_device(part, id) {
        let i = choose|i: int| 0 <= i < part.len() && (#[trigger] part[i]).device_id@ == id;
        list.lemma_filter_pred(keep, i);
        assert(part.contains(part[i]));
        list.lemma_filter_contains_rev(keep, part[i]);
        let k = list.index_of(part[i]);
        assert(list[k].device_id@ == id);
    }
    if has_device(list, id) && is_seen(seen, id) {
        let i = choose|i: int| 0 <= i < list.len() && (#[trigger] list[i]).device_id@ == id;
        list.lemma_filter_contains(keep, i);
        let k = part.index_of(list[i]);
        assert(part[k].device_id@ == id);
    }
}

/// A scan that finds nothing changes nothing.
pub proof fn empty_scan_changes_nothing(before: MemberCache, after: MemberCache, now_ms: u64)
    requires
        is_merged(before, after, Seq::<DiscoveredDevice>::empty(), now_ms),
    ensures
        after.devices@ == before.devices@,
        after.seen_at@ == before.seen_at@,
        after.known@ == before.known@,
{
}

/// As long as there is room, a scan adds what it found and takes nobody away:
/// who was present stays present, whether or not the scan found them.
pub proof fn scans_add_and_never_remove(
    before: MemberCache,
    after: MemberCache,
    found: Seq<DiscoveredDevice>,
    now_ms: u64,
    id: Seq<char>,
)
    requires
        before.wf(),
        is_merged(before, after, found, now_ms),
        forall|i: int|
            0 <= i < before.devices@.len() ==> is_seen(
                seen_views(before.seen_at@),
                (#[trigger] before.devices@[i]).device_id@,
            ),
        before.devices@.len() + accepted(found).len() <= DISCOVERED_DEVICE_LIMIT,
        before.seen_at@.len() + accepted(found).len() <= DISCOVERED_DEVICE_LIMIT,
    ensures
        has_device(after.devices@, id) <==> has_device(before.devices@, id) || has_device(
            accepted(found),
            id,
        ),
{
    let new = accepted(found);
    if new.len() > 0 {
        let seen = seen_views(after.seen_at@);
        room_keeps_seen(seen_views(before.seen_at@), new, now_ms);
        let kept = still_seen(before.devices@, seen);
        still_seen_holds(before.devices@, seen, id);
        if has_device(before.devices@, id) {
            let i = choose|i: int|
                0 <= i < before.devices@.len() && (#[trigger] before.devices@[i]).device_id@ == id;
            assert(is_seen(seen_views(before.seen_at@), before.devices@[i].device_id@));
            assert(is_seen(seen, id));
        }
        let keep = |d: DiscoveredDevice| is_seen(seen, d.device_id@);
        before.devices@.lemma_filter_len(keep);
        with_devices_keeps_order(kept, new);
        let all = with_devices(kept, new);
        filter_keeps_distinct(before.devices@, keep);
        sorted_devices(all);
        distinct_devices_have_no_repeats(order::sorted(all, by_name()));
    } else {
        assert(!has_device(new, id));
    }
}

proof fn filter_keeps_distinct(
    list: Seq<DiscoveredDevice>,
    keep: spec_fn(DiscoveredDevice) -> bool,
)
    requires
        distinct_devices(list),
    ensures
        distinct_devices(list.filter(keep)),
    decreases list.len(),
{
    reveal(Seq::filter);
    if list.len() > 0 {
        let front = list.drop_last();
        assert(distinct_devices(front)) by {
            assert forall|i: int, j: int| 0 <= i < j < front.len() implies (
            #[trigger] front[i]).device_id@ != (#[trigger] front[j]).device_id@ by {
                assert(list[i].device_id@ != list[j].device_id@);
            }
        }
        filter_keeps_distinct(front, keep);
        let part = front.filter(keep);
        let whole = list.filter(keep);
        if keep(list.last()) {
            assert(whole == part.push(list.last()));
            assert forall|i: int, j: int| 0 <= i < j < whole.len() implies (
            #[trigger] whole[i]).device_id@ != (#[trigger] whole[j]).device_id@ by {
                if j == part.len() {
                    assert(part.contains(part[i]));
                    front.lemma_filter_contains_rev(keep, part[i]);
                    let k = front.index_of(part[i]);
                    assert(list[k].device_id@ != list[list.len() - 1].device_id@);
                } else {
                    assert(part[i].device_id@ != part[j].device_id@);
                }
            }
        }
    }
}

/// Time alone makes a device absent: after pruning exactly those devices are
/// present that were present and heard of within the last thirty seconds.
pub proof fn only_silent_devices_expire(
    before: MemberCache,
    after: MemberCache,
    now_ms: u64,
    id: Seq<char>,
)
    requires
        is_pruned(before, after, now_ms),
    ensures
        has_device(after.devices@, id) <==> has_device(before.devices@, id) && exists|i: int|
            0 <= i < before.seen_at@.len() && (#[trigger] before.seen_at@[i]).device_id@ == id
                && now_ms - before.seen_at@[i].at_ms < 30_000,
{
    let all = seen_views(before.seen_at@);
    let fresh = |s: (Seq<char>, u64)| is_fresh(s, now_ms);
    let part = all.filter(fresh);
    still_seen_holds(before.devices@, part, id);
    if is_seen(part, id) {
        let i = choose|i: int| 0 <= i < part.len() && (#[trigger] part[i]).0 == id;
        all.lemma_filter_pred(fresh, i);
        assert(part.contains(part[i]));
        all.lemma_filter_contains_rev(fresh, part[i]);
        let k = all.index_of(part[i]);
        assert(all[k].0 == before.seen_at@[k].device_id@);
    }
    if exists|i: int|
        0 <= i < before.seen_at@.len() && (#[trigger] before.seen_at@[i]).device_id@ == id && now_ms
            - before.seen_at@[i].at_ms < 30_000 {
        let i = choose|i: int|
            0 <= i < before.seen_at@.len() && (#[trigger] before.seen_at@[i]).device_id@ == id
                && now_ms - before.seen_at@[i].at_ms < 30_000;
        assert(all[i].0 == id && fresh(all[i]));
        all.lemma_filter_contains(fresh, i);
        let k = part.index_of(all[i]);
        assert(part[k].0 == id);
    }
}

/// The devices that count of those that were found, where `ok` tells which ones may.
spec fn accepted_by(
    found: Seq<DiscoveredDevice>,
    ok: spec_fn(DiscoveredDevice) -> bool,
) -> Seq<DiscoveredDevice>
    decreases found.len(),
{
    if found.len() == 0 {
        found
    } else {
        let rest = accepted_by(found.drop_last(), ok);
        if rest.len() < 100 && ok(found.last()) && !has_device(rest, found.last().device_id@) {
            rest.push(found.last())
        } else {
            rest
        }
    }
}

proof fn accepted_is_accepted_by(
    found: Seq<DiscoveredDevice>,
    ok: spec_fn(DiscoveredDevice) -> bool,
)
    requires
        ok == (|d: DiscoveredDevice| device::is_valid_device(d@)),
    ensures
        accepted(found) == accepted_by(found, ok),
    decreases found.len(),
{
    if found.len() > 0 {
        accepted_is_accepted_by(found.drop_last(), ok);
    }
}

proof fn accepted_is_a_choice(
    found: Seq<DiscoveredDevice>,
    ok: spec_fn(DiscoveredDevice) -> bool,
)
    ensures
        accepted_by(found, ok).len() <= found.len(),
        accepted_by(found, ok).len() <= 100,
        forall|i: int|
            0 <= i < accepted_by(found, ok).len() ==> found.contains(
                #[trigger] accepted_by(found, ok)[i],
            ) && ok(accepted_by(found, ok)[i]),
        distinct_devices(accepted_by(found, ok)),
    decreases found.len(),
{
    if found.len() > 0 {
        let front = found.drop_last();
        accepted_is_a_choice(front, ok);
        let rest = accepted_by(front, ok);
        let all = accepted_by(found, ok);
        assert forall|i: int| 0 <= i < all.len() implies found.contains(#[trigger] all[i]) && ok(
            all[i],
        ) by {
            if i < rest.len() {
                assert(all[i] == rest[i]);
                let k = front.index_of(rest[i]);
                assert(found[k] == rest[i]);
            } else {
                assert(found[found.len() - 1] == all[i]);
            }
        }
        assert(distinct_devices(all)) by {
            assert forall|i: int, j: int| 0 <= i < j < all.len() implies (
            #[trigger] all[i]).device_id@ != (#[trigger] all[j]).device_id@ by {
                if j < rest.len() {
                    assert(rest[i].device_id@ != rest[j].device_id@);
                } else {
                    assert(rest[i] == all[i]);
                    assert(!has_device(rest, found.last().device_id@));
                }
            }
        }
    }
}

proof fn some_description_counts(
    found: Seq<DiscoveredDevice>,
    ok: spec_fn(DiscoveredDevice) -> bool,
    i: int,
)
    requires
        0 <= i < found.len() <= 100,
        ok(found[i]),
    ensures
        has_device(accepted_by(found, ok), found[i].device_id@),
    decreases found.len(),
{
    let front = found.drop_last();
    accepted_is_a_choice(front, ok);
    let rest = accepted_by(front, ok);
    let all = accepted_by(found, ok);
    let id = found[i].device_id@;
    if i < front.len() {
        some_description_counts(front, ok, i);
        let k = choose|k: int| 0 <= k < rest.len() && (#[trigger] rest[k]).device_id@ == id;
        assert(all[k] == rest[k]);
    } else if has_device(rest, id) {
        let k = choose|k: int| 0 <= k < rest.len() && (#[trigger] rest[k]).device_id@ == id;
        assert(all[k] == rest[k]);
    } else {
        assert(all[all.len() - 1] == found[i]);
    }
}

/// Device `i` of a list is the first description that counts of the device.
pub open spec fn is_first_description(
    found: Seq<DiscoveredDevice>,
    ok: spec_fn(DiscoveredDevice) -> bool,
    i: int,
) -> bool {
    &&& 0 <= i < found.len()
    &&& ok(found[i])
    &&& forall|j: int|
        0 <= j < i && #[trigger] ok(found[j]) ==> found[j].device_id@ != found[i].device_id@
}

proof fn first_descriptions_count(
    found: Seq<DiscoveredDevice>,
    ok: spec_fn(DiscoveredDevice) -> bool,
    d: DiscoveredDevice,
)
    requires
        found.len() <= 100,
    ensures
        accepted_by(found, ok).contains(d) <==> exists|i: int| #[trigger]
            is_first_description(found, ok, i) && found[i] == d,
    decreases found.len(),
{
    if found.len() > 0 {
        let front = found.drop_last();
        let n = found.len() - 1;
        first_descriptions_count(front, ok, d);
        accepted_is_a_choice(front, ok);
        let rest = accepted_by(front, ok);
        let all = accepted_by(found, ok);
        assert forall|i: int| 0 <= i < n implies is_first_description(found, ok, i)
            == #[trigger] is_first_description(front, ok, i) by {
            assert(found[i] == front[i]);
            if is_first_description(found, ok, i) {
                assert forall|j: int| 0 <= j < i && #[trigger] ok(front[j]) implies front[
                j].device_id@ != front[i].device_id@ by {
                    assert(front[j] == found[j]);
                    assert(ok(found[j]));
                }
            }
            if is_first_description(front, ok, i) {
                assert forall|j: int| 0 <= j < i && #[trigger] ok(found[j]) implies found[
                j].device_id@ != found[i].device_id@ by {
                    assert(front[j] == found[j]);
                    assert(ok(front[j]));
                }
            }
        }
        if rest.contains(d) {
            let i = choose|i: int| #[trigger] is_first_description(front, ok, i) && front[i] == d;
            assert(is_first_description(found, ok, i));
            let k = rest.index_of(d);
            assert(all[k] == d);
        }
        if all.contains(d) && !rest.contains(d) {
            let k = all.index_of(d);
            if k < rest.len() {
                assert(rest[k] == d);
            }
            assert(d == found[n]);
            assert(!has_device(rest, d.device_id@));
            assert forall|j: int| 0 <= j < n && #[trigger] ok(found[j]) implies found[j].device_id@
                != found[n].device_id@ by {
                if found[j].device_id@ == d.device_id@ {
                    assert(front[j] == found[j]);
                    some_description_counts(front, ok, j);
                }
            }
            assert(is_first_description(found, ok, n));
        }
        if exists|i: int| #[trigger] is_first_description(found, ok, i) && found[i] == d {
            let i = choose|i: int| #[trigger] is_first_description(found, ok, i) && found[i] == d;
            if i < n {
                assert(is_first_description(front, ok, i));
                assert(front[i] == d);
            } else {
                if has_device(rest, d.device_id@) {
                    let k = choose|k: int|
                        0 <= k < rest.len() && (#[trigger] rest[k]).device_id@ == d.device_id@;
                    let j = front.index_of(rest[k]);
                    assert(found[j] == rest[k]);
                    assert(ok(found[j]));
                }
                assert(all[all.len() - 1] == d);
            }
        }
    }
}

/// Of up to 100 devices that were found every one counts that can be contacted, each by the
/// first description by which it can, and no other one.
pub proof fn every_valid_device_counts(
    found: Seq<DiscoveredDevice>,
    ok: spec_fn(DiscoveredDevice) -> bool,
    d: DiscoveredDevice,
)
    requires
        found.len() <= 100,
        ok == (|e: DiscoveredDevice| device::is_valid_device(e@)),
    ensures
        accepted(found).contains(d) <==> exists|i: int| #[trigger]
            is_first_description(found, ok, i) && found[i] == d,
{
    accepted_is_accepted_by(found, ok);
    first_descriptions_count(found, ok, d);
}

proof fn accepted_devices_are_distinct(found: Seq<DiscoveredDevice>)
    ensures
        distinct_devices(accepted(found)),
{
    let ok = |e: DiscoveredDevice| device::is_valid_device(e@);
    accepted_is_accepted_by(found, ok);
    accepted_is_a_choice(found, ok);
}

proof fn with_device_holds(list: Seq<DiscoveredDevice>, d: DiscoveredDevice, u: DiscoveredDevice)
    requires
        distinct_devices(list),
    ensures
        with_device(list, d).contains(u) <==> u == d || (list.contains(u) && u.device_id@
            != d.device_id@),
{
    let p = device_place(list, d.device_id@);
    let all = with_device(list, d);
    device_place_is_found(list, d.device_id@);
    if p < list.len() {
        assert(all[p] == d);
        if list.contains(u) && u.device_id@ != d.device_id@ {
            let k = list.index_of(u);
            assert(all[k] == u);
        }
        if all.contains(u) && u != d {
            let k = all.index_of(u);
            assert(list[k] == u);
            if k < p {
                assert(list[k].device_id@ != list[p].device_id@);
            } else {
                assert(list[p].device_id@ != list[k].device_id@);
            }
        }
    } else {
        assert(all[list.len() as int] == d);
        if list.contains(u) {
            let k = list.index_of(u);
            assert(all[k] == u);
        }
        if all.contains(u) && u != d {
            let k = all.index_of(u);
            assert(list[k] == u);
            assert(!has_device(list, d.device_id@));
        }
    }
}

proof fn with_devices_holds(
    list: Seq<DiscoveredDevice>,
    found: Seq<DiscoveredDevice>,
    u: DiscoveredDevice,
)
    requires
        distinct_devices(list),
        distinct_devices(found),
    ensures
        with_devices(list, found).contains(u) <==> found.contains(u) || (list.contains(u)
            && !has_device(found, u.device_id@)),
    decreases found.len(),
{
    if found.len() > 0 {
        let front = found.drop_last();
        let last = found.last();
        assert(distinct_devices(front)) by {
            assert forall|i: int, j: int| 0 <= i < j < front.len() implies (
            #[trigger] front[i]).device_id@ != (#[trigger] front[j]).device_id@ by {
                assert(found[i].device_id@ != found[j].device_id@);
            }
        }
        with_devices_holds(list, front, u);
        with_devices_keeps_order(list, front);
        with_device_holds(with_devices(list, front), last, u);
        assert(found[found.len() - 1] == last);
        if front.contains(u) {
            let k = front.index_of(u);
            assert(found[k] == u);
            assert(found[k].device_id@ != found[found.len() - 1].device_id@);
        }
        if found.contains(u) {
            let k = found.index_of(u);
            if k < front.len() {
                assert(front[k] == u);
            }
        }
        if has_device(front, u.device_id@) {
            let k = choose|k: int|
                0 <= k < front.len() && (#[trigger] front[k]).device_id@ == u.device_id@;
            assert(found[k] == front[k]);
        }
        if has_device(found, u.device_id@) {
            let k = choose|k: int|
                0 <= k < found.len() && (#[trigger] found[k]).device_id@ == u.device_id@;
            if k < front.len() {
                assert(front[k] == found[k]);
            }
        }
    }
}

proof fn tidied_holds(list: Seq<DiscoveredDevice>, u: DiscoveredDevice)
    requires
        distinct_devices(list),
        list.len() <= 100,
    ensures
        tidied(list).contains(u) <==> list.contains(u),
{
    sorted_devices(list);
    distinct_devices_have_no_repeats(order::sorted(list, by_name()));
    order::sorted_contains(list, by_name(), u);
}

proof fn still_seen_contains(
    list: Seq<DiscoveredDevice>,
    seen: Seq<(Seq<char>, u64)>,
    u: DiscoveredDevice,
)
    ensures
        still_seen(list, seen).contains(u) <==> list.contains(u) && is_seen(seen, u.device_id@),
{
    let keep = |d: DiscoveredDevice| is_seen(seen, d.device_id@);
    if list.contains(u) && keep(u) {
        list.lemma_filter_contains(keep, list.index_of(u));
    }
    if list.filter(keep).contains(u) {
        list.lemma_filter_contains_rev(keep, u);
        list.lemma_filter_pred(keep, list.filter(keep).index_of(u));
    }
}

/// As long as there are no more than 100 in all, each device that was found is listed as it
/// was found, in the place of what was known of it, and every other one stays as it was.
pub proof fn scans_bring_devices_up_to_date(
    before: MemberCache,
    after: MemberCache,
    found: Seq<DiscoveredDevice>,
    now_ms: u64,
    d: DiscoveredDevice,
)
    requires
        distinct_devices(before.devices@),
        is_merged(before, after, found, now_ms),
        forall|i: int|
            0 <= i < before.devices@.len() ==> is_seen(
                seen_views(before.seen_at@),
                (#[trigger] before.devices@[i]).device_id@,
            ),
        before.devices@.len() + accepted(found).len() <= 100,
        before.seen_at@.len() + accepted(found).len() <= 100,
    ensures
        after.devices@.contains(d) <==> accepted(found).contains(d) || (before.devices@.contains(d)
            && forall|i: int|
            0 <= i < accepted(found).len() ==> (#[trigger] accepted(found)[i]).device_id@
                != d.device_id@),
{
    accepted_devices_are_distinct(found);
    merged_with_new(before, after, accepted(found), now_ms, d);
}

proof fn merged_with_new(
    before: MemberCache,
    after: MemberCache,
    new: Seq<DiscoveredDevice>,
    now_ms: u64,
    d: DiscoveredDevice,
)
    requires
        distinct_devices(before.devices@),
        distinct_devices(new),
        if new.len() == 0 {
            after.devices@ == before.devices@ && after.seen_at@ == before.seen_at@
        } else {
            &&& seen_views(after.seen_at@) == all_seen_now(seen_views(before.seen_at@), new, now_ms)
            &&& after.devices@ == tidied(
                with_devices(still_seen(before.devices@, seen_views(after.seen_at@)), new),
            )
        },
        forall|i: int|
            0 <= i < before.devices@.len() ==> is_seen(
                seen_views(before.seen_at@),
                (#[trigger] before.devices@[i]).device_id@,
            ),
        before.devices@.len() + new.len() <= 100,
        before.seen_at@.len() + new.len() <= 100,
    ensures
        after.devices@.contains(d) <==> new.contains(d) || (before.devices@.contains(d) && forall|
            i: int,
        |
            0 <= i < new.len() ==> (#[trigger] new[i]).device_id@ != d.device_id@),
{
    if new.len() > 0 {
        let seen = seen_views(after.seen_at@);
        let keep = |d: DiscoveredDevice| is_seen(seen, d.device_id@);
        let kept = still_seen(before.devices@, seen);
        let all = with_devices(kept, new);
        room_keeps_seen(seen_views(before.seen_at@), new, now_ms);
        before.devices@.lemma_filter_len(keep);
        filter_keeps_distinct(before.devices@, keep);
        with_devices_keeps_order(kept, new);
        with_devices_holds(kept, new, d);
        tidied_holds(all, d);
        still_seen_contains(before.devices@, seen, d);
        if before.devices@.contains(d) {
            let k = before.devices@.index_of(d);
            assert(is_seen(seen_views(before.seen_at@), before.devices@[k].device_id@));
            assert(is_seen(seen, d.device_id@));
        }
    }
}

proof fn seen_now_holds(seen: Seq<(Seq<char>, u64)>, id: Seq<char>, now_ms: u64)
    requires
        seen.len() < 100,
    ensures
        seen_now(seen, id, now_ms).contains((id, now_ms)),
        forall|other: Seq<char>| other != id ==> (#[trigger] is_seen(
            seen_now(seen, id, now_ms),
            other,
        ) <==> is_seen(seen, other)),
        seen_now(seen, id, now_ms).len() <= seen.len() + 1,
        forall|e: (Seq<char>, u64)| e.0 != id && seen.contains(e) ==> #[trigger] seen_now(
            seen,
            id,
            now_ms,
        ).contains(e),
{
    seen_place_is_found(seen, id);
    let p = seen_place(seen, id);
    let after = seen_now(seen, id, now_ms);
    if p < seen.len() {
        assert(after[p] == (id, now_ms));
    } else {
        assert(after[seen.len() as int] == (id, now_ms));
    }
    assert forall|other: Seq<char>| other != id implies (#[trigger] is_seen(after, other)
        <==> is_seen(seen, other)) by {
        if is_seen(seen, other) {
            let k = choose|k: int| 0 <= k < seen.len() && (#[trigger] seen[k]).0 == other;
            assert(after[k] == seen[k]);
        }
        if is_seen(after, other) {
            let k = choose|k: int| 0 <= k < after.len() && (#[trigger] after[k]).0 == other;
            assert(seen[k] == after[k]);
        }
    }
    assert forall|e: (Seq<char>, u64)| e.0 != id && seen.contains(e) implies
        #[trigger] after.contains(e) by {
        let k = seen.index_of(e);
        assert(after[k] == e);
    }
}

proof fn all_seen_now_holds(
    seen: Seq<(Seq<char>, u64)>,
    found: Seq<DiscoveredDevice>,
    now_ms: u64,
    id: Seq<char>,
)
    requires
        seen.len() + found.len() <= 100,
    ensures
        all_seen_now(seen, found, now_ms).len() <= seen.len() + found.len(),
        has_device(found, id) ==> all_seen_now(seen, found, now_ms).contains((id, now_ms)),
        is_seen(all_seen_now(seen, found, now_ms), id) <==> is_seen(seen, id) || has_device(
            found,
            id,
        ),
    decreases found.len(),
{
    if found.len() > 0 {
        let front = found.drop_last();
        let last = found.last().device_id@;
        all_seen_now_holds(seen, front, now_ms, id);
        let before = all_seen_now(seen, front, now_ms);
        let after = all_seen_now(seen, found, now_ms);
        seen_now_holds(before, last, now_ms);
        assert(found[found.len() - 1].device_id@ == last);
        if has_device(front, id) {
            let k = choose|k: int| 0 <= k < front.len() && (#[trigger] front[k]).device_id@ == id;
            assert(found[k] == front[k]);
        }
        if has_device(found, id) {
            let k = choose|k: int| 0 <= k < found.len() && (#[trigger] found[k]).device_id@ == id;
            if k < front.len() {
                assert(front[k] == found[k]);
            }
        }
        if id == last {
            let k = after.index_of((id, now_ms));
            assert(after[k].0 == id);
        } else {
            assert((id, now_ms).0 != last);
        }
    }
}

/// Whoever a scan finds is heard of from then on, at that time.
pub proof fn found_devices_are_heard_of(
    before: MemberCache,
    after: MemberCache,
    found: Seq<DiscoveredDevice>,
    now_ms: u64,
    id: Seq<char>,
)
    requires
        is_merged(before, after, found, now_ms),
        before.seen_at@.len() + accepted(found).len() <= 100,
        has_device(accepted(found), id),
    ensures
        exists|i: int|
            0 <= i < after.seen_at@.len() && (#[trigger] after.seen_at@[i]).device_id@ == id
                && after.seen_at@[i].at_ms == now_ms,
{
    let new = accepted(found);
    all_seen_now_holds(seen_views(before.seen_at@), new, now_ms, id);
    let views = seen_views(after.seen_at@);
    let k = views.index_of((id, now_ms));
    assert(views[k] == (after.seen_at@[k].device_id@, after.seen_at@[k].at_ms));
}

/// A search for all devices leaves exactly those that it found; a search on one network leaves
/// those and the devices of the other networks.
pub proof fn searches_replace_what_they_cover(
    before: MemberCache,
    after: MemberCache,
    selected: Option<Seq<u8>>,
    found: Seq<DiscoveredDevice>,
    now_ms: u64,
    d: DiscoveredDevice,
)
    requires
        distinct_devices(before.devices@),
        is_replaced(before, after, selected, found, now_ms),
        forall|i: int|
            0 <= i < before.devices@.len() ==> is_seen(
                seen_views(before.seen_at@),
                (#[trigger] before.devices@[i]).device_id@,
            ),
        before.devices@.len() + accepted(found).len() <= 100,
        before.seen_at@.len() + accepted(found).len() <= 100,
    ensures
        after.devices@.contains(d) <==> accepted(found).contains(d) || (before.devices@.contains(d)
            && !has_device(accepted(found), d.device_id@) && selected is Some
            && !discovery::is_in_scope(d, selected->Some_0)),
{
    accepted_devices_are_distinct(found);
    replaced_by_new(before, after, selected, accepted(found), now_ms, d);
}

proof fn listed_device_is_found(list: Seq<DiscoveredDevice>, d: DiscoveredDevice)
    requires
        distinct_devices(list),
        list.contains(d),
    ensures
        0 <= device_place(list, d.device_id@) < list.len(),
        list[device_place(list, d.device_id@)] == d,
{
    let k = list.index_of(d);
    let p = device_place(list, d.device_id@);
    device_place_is_found(list, d.device_id@);
    assert(has_device(list, d.device_id@));
    if p < k {
        assert(list[p].device_id@ != list[k].device_id@);
    } else if k < p {
        assert(list[k].device_id@ != list[p].device_id@);
    }
}

proof fn replaced_by_new(
    before: MemberCache,
    after: MemberCache,
    selected: Option<Seq<u8>>,
    new: Seq<DiscoveredDevice>,
    now_ms: u64,
    d: DiscoveredDevice,
)
    requires
        distinct_devices(before.devices@),
        distinct_devices(new),
        seen_views(after.seen_at@) == all_seen_now(
            seen_views(before.seen_at@).filter(
                |s: (Seq<char>, u64)| survives_replacement(before.devices@, new, selected, s.0),
            ),
            new,
            now_ms,
        ),
        after.devices@ == tidied(
            with_devices(still_seen(before.devices@, seen_views(after.seen_at@)), new),
        ),
        forall|i: int|
            0 <= i < before.devices@.len() ==> is_seen(
                seen_views(before.seen_at@),
                (#[trigger] before.devices@[i]).device_id@,
            ),
        before.devices@.len() + new.len() <= 100,
        before.seen_at@.len() + new.len() <= 100,
    ensures
        after.devices@.contains(d) <==> new.contains(d) || (before.devices@.contains(d)
            && !has_device(new, d.device_id@) && selected is Some && !discovery::is_in_scope(
            d,
            selected->Some_0,
        )),
{
    let keeps = |s: (Seq<char>, u64)|
        survives_replacement(before.devices@, new, selected, s.0);
    let survives = survives_replacement(before.devices@, new, selected, d.device_id@);
    replaced_holds(before, after, new, keeps, survives, now_ms, d);
    if before.devices@.contains(d) {
        listed_device_is_found(before.devices@, d);
    }
}

proof fn replaced_holds(
    before: MemberCache,
    after: MemberCache,
    new: Seq<DiscoveredDevice>,
    keeps: spec_fn((Seq<char>, u64)) -> bool,
    survives: bool,
    now_ms: u64,
    d: DiscoveredDevice,
)
    requires
        distinct_devices(before.devices@),
        distinct_devices(new),
        seen_views(after.seen_at@) == all_seen_now(
            seen_views(before.seen_at@).filter(keeps),
            new,
            now_ms,
        ),
        after.devices@ == tidied(
            with_devices(still_seen(before.devices@, seen_views(after.seen_at@)), new),
        ),
        forall|i: int|
            0 <= i < before.devices@.len() ==> is_seen(
                seen_views(before.seen_at@),
                (#[trigger] before.devices@[i]).device_id@,
            ),
        before.devices@.len() + new.len() <= 100,
        before.seen_at@.len() + new.len() <= 100,
        forall|s: (Seq<char>, u64)| s.0 == d.device_id@ ==> #[trigger] keeps(s) == survives,
    ensures
        after.devices@.contains(d) <==> new.contains(d) || (before.devices@.contains(d)
            && !has_device(new, d.device_id@) && survives),
{
    let views = seen_views(before.seen_at@);
    let part = views.filter(keeps);
    let seen = seen_views(after.seen_at@);
    let keep = |d: DiscoveredDevice| is_seen(seen, d.device_id@);
    let kept = still_seen(before.devices@, seen);
    let all = with_devices(kept, new);
    views.lemma_filter_len(keeps);
    all_seen_now_holds(part, new, now_ms, d.device_id@);
    before.devices@.lemma_filter_len(keep);
    filter_keeps_distinct(before.devices@, keep);
    with_devices_keeps_order(kept, new);
    with_devices_holds(kept, new, d);
    tidied_holds(all, d);
    still_seen_contains(before.devices@, seen, d);
    if before.devices@.contains(d) {
        let k = before.devices@.index_of(d);
        assert(is_seen(views, before.devices@[k].device_id@));
        let i = choose|i: int| 0 <= i < views.len() && (#[trigger] views[i]).0 == d.device_id@;
        if survives {
            views.lemma_filter_contains(keeps, i);
            let m = part.index_of(views[i]);
            assert(part[m].0 == d.device_id@);
        }
        if is_seen(part, d.device_id@) {
            let m = choose|m: int| 0 <= m < part.len() && (#[trigger] part[m]).0 == d.device_id@;
            views.lemma_filter_pred(keeps, m);
        }
    }
}

/// The devices are listed by name.
pub proof fn devices_are_listed_by_name(list: Seq<DiscoveredDevice>, i: int, j: int)
    requires
        distinct_devices(list),
        0 <= i < j < tidied(list).len(),
    ensures
        !text::text_before(tidied(list)[j].device_name@, tidied(list)[i].device_name@),
{
    let sorted = order::sorted(list, by_name());
    sorted_devices(list);
    distinct_devices_have_no_repeats(sorted);
    assert(order::is_ordering(by_name())) by {
        assert forall|a: DiscoveredDevice, b: DiscoveredDevice, c: DiscoveredDevice|
            !#[trigger] by_name()(a, b) && !#[trigger] by_name()(b, c) implies !by_name()(a, c) by {
            let (x, y, z) = (a.device_name@, b.device_name@, c.device_name@);
            text::text_order_is_total(x, y);
            text::text_order_is_total(y, z);
            text::text_order_is_total(x, z);
            if text::text_before(x, z) && x != y && y != z {
                text::text_order_is_transitive(z, y, x);
            }
        }
        assert forall|a: DiscoveredDevice, b: DiscoveredDevice| #[trigger]
            by_name()(a, b) implies !by_name()(b, a) by {
            text::text_order_is_total(a.device_name@, b.device_name@);
        }
    }
    order::sorted_is_in_order(list, by_name());
    assert(!by_name()(sorted[j], sorted[i]));
}

/// A device that was heard of within the last thirty seconds stays as it is, and any other one
/// goes.
pub proof fn present_devices_stay_as_they_are(
    before: MemberCache,
    after: MemberCache,
    now_ms: u64,
    d: DiscoveredDevice,
)
    requires
        is_pruned(before, after, now_ms),
    ensures
        after.devices@.contains(d) <==> before.devices@.contains(d) && exists|i: int|
            0 <= i < before.seen_at@.len() && (#[trigger] before.seen_at@[i]).device_id@
                == d.device_id@ && now_ms - before.seen_at@[i].at_ms < 30_000,
{
    let seen = seen_views(after.seen_at@);
    still_seen_contains(before.devices@, seen, d);
    still_seen_holds(before.devices@, seen, d.device_id@);
    only_silent_devices_expire(before, after, now_ms, d.device_id@);
    if before.devices@.contains(d) {
        let k = before.devices@.index_of(d);
        assert(before.devices@[k].device_id@ == d.device_id@);
    }
}

/// A member whose identifier or address takes no more than 160 bytes is remembered. As long
/// as fewer than 256 are, nobody is forgotten for it, and nobody else becomes known.
pub proof fn members_are_remembered(
    known: Seq<Seq<char>>,
    kind: Seq<char>,
    member: Seq<char>,
    other: Seq<char>,
)
    requires
        kind == "device"@ || kind == "addr"@,
        text::trimmed(member).len() > 0,
        encode_utf8(text::trimmed(member)).len() <= 160,
    ensures
        known_after(known, kind, member).contains(kind + ":"@ + text::trimmed(member)),
        known.len() < 256 ==> (known_after(known, kind, member).contains(other)
            <==> known.contains(other) || other == kind + ":"@ + text::trimmed(member)),
{
    let key = member_key(kind, member);
    let after = known_after(known, kind, member);
    if !known.contains(key) {
        assert(after[after.len() - 1] == key);
        if known.len() < 256 {
            if known.contains(other) {
                let k = known.index_of(other);
                assert(after[k] == other);
            }
            if after.contains(other) {
                let k = after.index_of(other);
                if k < known.len() {
                    assert(known[k] == other);
                }
            }
        }
    }
}

proof fn oldest_is_oldest(seen: Seq<(Seq<char>, u64)>)
    requires
        seen.len() > 0,
    ensures
        0 <= oldest_place(seen) < seen.len(),
        forall|i: int|
            0 <= i < seen.len() ==> (#[trigger] seen[i]).1 >= seen[oldest_place(seen)].1,
    decreases seen.len(),
{
    if seen.len() > 1 {
        let front = seen.drop_last();
        oldest_is_oldest(front);
        let k = oldest_place(front);
        assert forall|i: int| 0 <= i < seen.len() implies (#[trigger] seen[i]).1 >= seen[
        oldest_place(seen)].1 by {
            if i < front.len() {
                assert(front[i] == seen[i]);
                assert(front[k] == seen[k]);
            }
        }
    }
}

/// Where 100 devices were heard of, a new one takes the place of one that was heard of longest
/// ago; a device that is heard of again takes nobody's place.
pub proof fn new_devices_replace_the_oldest(
    seen: Seq<(Seq<char>, u64)>,
    id: Seq<char>,
    now_ms: u64,
)
    requires
        seen.len() == 100,
    ensures
        seen_now(seen, id, now_ms).len() == 100,
        seen_now(seen, id, now_ms).contains((id, now_ms)),
        !is_seen(seen, id) ==> exists|k: int|
            0 <= k < 100 && seen_now(seen, id, now_ms) == #[trigger] seen.remove(k).push(
                (id, now_ms),
            ) && (forall|i: int| 0 <= i < 100 ==> (#[trigger] seen[i]).1 >= seen[k].1),
        is_seen(seen, id) ==> exists|k: int|
            0 <= k < 100 && seen[k].0 == id && seen_now(seen, id, now_ms) == #[trigger] seen.update(
                k,
                (id, now_ms),
            ),
{
    seen_place_is_found(seen, id);
    let after = seen_now(seen, id, now_ms);
    let p = seen_place(seen, id);
    if p < seen.len() {
        assert(after == seen.update(p, (id, now_ms)));
        assert(after[p] == (id, now_ms));
    } else {
        oldest_is_oldest(seen);
        let k = oldest_place(seen);
        assert(after == seen.remove(k).push((id, now_ms)));
        assert(after[99] == (id, now_ms));
    }
}

/// Who is remembered does not depend on who is found: neither scans nor searches nor time change
/// it.
pub proof fn remembered_members_stay(
    before: MemberCache,
    after: MemberCache,
    selected: Option<Seq<u8>>,
    found: Seq<DiscoveredDevice>,
    now_ms: u64,
)
    requires
        is_merged(before, after, found, now_ms) || is_replaced(before, after, selected, found, now_ms)
            || is_pruned(before, after, now_ms),
    ensures
        after.known@ == before.known@,
{
}

} // verus!
