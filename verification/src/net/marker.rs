//! The latest copy event of the sharing domain.
//!
//! The domain has one slot: whatever was copied last. Events are ordered by
//! their time, then by the device and by their own identifier, so that all devices
//! agree on which one is the latest.

use crate::net::wire::{FileStreamStart, ImageStreamStart};
use crate::protocol::{ClipboardItem, ItemView};
use crate::text;
use crate::text::{is_text_before, same_text};
use vstd::prelude::*;

verus! {

/// What orders a copy event among others.
#[derive(Debug)]
pub struct ItemMarker {
    pub id: String,
    pub created_at_us: u64,
    pub source_device_id: String,
}

/// What orders a copy event, as plain values.
#[verifier::ext_equal]
pub struct MarkerView {
    pub id: Seq<char>,
    pub created_at_us: u64,
    pub source_device_id: Seq<char>,
}

impl View for ItemMarker {
    type V = MarkerView;

    open spec fn view(&self) -> MarkerView {
        MarkerView {
            id: self.id@,
            created_at_us: self.created_at_us,
            source_device_id: self.source_device_id@,
        }
    }
}

impl Clone for ItemMarker {
    fn clone(&self) -> (copy: Self)
        ensures
            copy == *self,
    {
        ItemMarker {
            id: self.id.clone(),
            created_at_us: self.created_at_us,
            source_device_id: self.source_device_id.clone(),
        }
    }
}

/// The latest event, if there was one, as plain values.
pub open spec fn latest_view(latest: Option<ItemMarker>) -> Option<MarkerView> {
    match latest {
        Some(marker) => Some(marker@),
        None => None,
    }
}

/// The marker of an item.
pub open spec fn marker_of(item: ItemView) -> MarkerView {
    MarkerView {
        id: item.id,
        created_at_us: item.created_at_us,
        source_device_id: item.source_device_id,
    }
}

/// Event `a` is older than event `b`.
pub open spec fn is_older(a: MarkerView, b: MarkerView) -> bool {
    if a.created_at_us != b.created_at_us {
        a.created_at_us < b.created_at_us
    } else if a.source_device_id != b.source_device_id {
        text::text_before(a.source_device_id, b.source_device_id)
    } else {
        text::text_before(a.id, b.id)
    }
}

/// An event has been overtaken by the latest one.
pub open spec fn is_stale(latest: Option<MarkerView>, marker: MarkerView) -> bool {
    match latest {
        Some(current) => is_older(marker, current),
        None => false,
    }
}

/// An event becomes the latest one.
pub open spec fn overtakes(latest: Option<MarkerView>, marker: MarkerView) -> bool {
    match latest {
        Some(current) => is_older(current, marker),
        None => true,
    }
}

/// The latest event once another one is known.
pub open spec fn latest_after(latest: Option<MarkerView>, marker: MarkerView) -> Option<
    MarkerView,
> {
    if overtakes(latest, marker) {
        Some(marker)
    } else {
        latest
    }
}

/// The marker of an item.
pub fn item_marker(item: &ClipboardItem) -> (marker: ItemMarker)
    ensures
        marker@ == marker_of(item@),
{
    ItemMarker {
        id: item.id.clone(),
        created_at_us: item.created_at_us,
        source_device_id: item.source_device_id.clone(),
    }
}

/// The marker of a file stream.
pub fn file_stream_marker(meta: &FileStreamStart) -> (marker: ItemMarker)
    ensures
        marker@ == (MarkerView {
            id: meta@.item_id,
            created_at_us: meta@.created_at_us,
            source_device_id: meta@.source_device_id,
        }),
{
    ItemMarker {
        id: meta.item_id.clone(),
        created_at_us: meta.created_at_us,
        source_device_id: meta.source_device_id.clone(),
    }
}

/// The marker of an image stream.
pub fn image_stream_marker(meta: &ImageStreamStart) -> (marker: ItemMarker)
    ensures
        marker@ == (MarkerView {
            id: meta@.item_id,
            created_at_us: meta@.created_at_us,
            source_device_id: meta@.source_device_id,
        }),
{
    ItemMarker {
        id: meta.item_id.clone(),
        created_at_us: meta.created_at_us,
        source_device_id: meta.source_device_id.clone(),
    }
}

/// Tells whether event `a` is older than event `b`.
pub fn is_older_marker(a: &ItemMarker, b: &ItemMarker) -> (older: bool)
    ensures
        older == is_older(a@, b@),
{
    if a.created_at_us != b.created_at_us {
        a.created_at_us < b.created_at_us
    } else if !same_text(&a.source_device_id, &b.source_device_id) {
        is_text_before(&a.source_device_id, &b.source_device_id)
    } else {
        is_text_before(&a.id, &b.id)
    }
}

/// Compares two events by age.
pub fn compare_markers(left: &ItemMarker, right: &ItemMarker) -> (order: std::cmp::Ordering)
    ensures
        order == if is_older(left@, right@) {
            std::cmp::Ordering::Less
        } else if left@ == right@ {
            std::cmp::Ordering::Equal
        } else {
            std::cmp::Ordering::Greater
        },
{
    proof {
        marker_order_is_total(left@, right@);
    }
    if is_older_marker(left, right) {
        std::cmp::Ordering::Less
    } else if is_older_marker(right, left) {
        std::cmp::Ordering::Greater
    } else {
        std::cmp::Ordering::Equal
    }
}

/// Takes note of an event; tells whether it became the latest one.
pub fn update_latest_marker(latest: &mut Option<ItemMarker>, marker: ItemMarker) -> (replaced: bool)
    ensures
        replaced == overtakes(latest_view(*old(latest)), marker@),
        latest_view(*final(latest)) == latest_after(latest_view(*old(latest)), marker@),
{
    let replace = match latest {
        Some(current) => is_older_marker(current, &marker),
        None => true,
    };
    if replace {
        *latest = Some(marker);
    }
    replace
}

/// Takes note of an item; tells whether it became the latest one.
pub fn update_latest_item(latest: &mut Option<ItemMarker>, item: &ClipboardItem) -> (replaced: bool)
    ensures
        replaced == overtakes(latest_view(*old(latest)), marker_of(item@)),
        latest_view(*final(latest)) == latest_after(latest_view(*old(latest)), marker_of(item@)),
{
    update_latest_marker(latest, item_marker(item))
}

/// Tells whether an event has been overtaken.
pub fn is_stale_marker(latest: &Option<ItemMarker>, marker: &ItemMarker) -> (stale: bool)
    ensures
        stale == is_stale(latest_view(*latest), marker@),
{
    match latest {
        Some(current) => is_older_marker(marker, current),
        None => false,
    }
}

/// Of two different events exactly one is older, and no event is older than itself.
pub proof fn marker_order_is_total(a: MarkerView, b: MarkerView)
    ensures
        a == b || is_older(a, b) || is_older(b, a),
        !(is_older(a, b) && is_older(b, a)),
        !is_older(a, a),
{
    text::text_order_is_total(a.source_device_id, b.source_device_id);
    text::text_order_is_total(a.id, b.id);
    text::text_order_is_total(a.id, a.id);
    if !is_older(a, b) && !is_older(b, a) {
        assert(a =~= b);
    }
}

/// The order of events is transitive.
pub proof fn marker_order_is_transitive(a: MarkerView, b: MarkerView, c: MarkerView)
    requires
        is_older(a, b),
        is_older(b, c),
    ensures
        is_older(a, c),
{
    if a.created_at_us == b.created_at_us && b.created_at_us == c.created_at_us {
        text::text_order_is_total(a.source_device_id, b.source_device_id);
        text::text_order_is_total(b.source_device_id, c.source_device_id);
        if a.source_device_id == b.source_device_id && b.source_device_id == c.source_device_id {
            text::text_order_is_transitive(a.id, b.id, c.id);
        } else if a.source_device_id != b.source_device_id && b.source_device_id
            != c.source_device_id {
            text::text_order_is_transitive(
                a.source_device_id,
                b.source_device_id,
                c.source_device_id,
            );
            text::text_order_is_total(a.source_device_id, c.source_device_id);
        }
    }
}

/// All devices settle on the same latest event, in whatever order they learn of
/// two events.
pub proof fn latest_event_does_not_depend_on_order(
    latest: Option<MarkerView>,
    a: MarkerView,
    b: MarkerView,
)
    ensures
        latest_after(latest_after(latest, a), b) == latest_after(latest_after(latest, b), a),
{
    marker_order_is_total(a, b);
    if latest is Some {
        let c = latest->Some_0;
        marker_order_is_total(a, c);
        marker_order_is_total(b, c);
        if is_older(c, a) && is_older(a, b) {
            marker_order_is_transitive(c, a, b);
        }
        if is_older(c, b) && is_older(b, a) {
            marker_order_is_transitive(c, b, a);
        }
    }
}

/// The latest event never gives way to an older one, and what was stale stays stale.
pub proof fn latest_event_only_advances(
    latest: Option<MarkerView>,
    marker: MarkerView,
    other: MarkerView,
)
    ensures
        latest is Some ==> !is_older(latest_after(latest, marker)->Some_0, latest->Some_0),
        is_stale(latest, other) ==> is_stale(latest_after(latest, marker), other),
        !is_stale(latest_after(latest, marker), latest_after(latest, marker)->Some_0),
{
    marker_order_is_total(marker, marker);
    if latest is Some {
        let c = latest->Some_0;
        marker_order_is_total(c, marker);
        marker_order_is_total(c, c);
        if is_older(other, c) && is_older(c, marker) {
            marker_order_is_transitive(other, c, marker);
        }
    }
}

/// The later of two events is the newer one. Of two at the same time the one of the device
/// whose identifier comes later is newer, and of two of one device that with the later
/// identifier.
pub proof fn later_events_are_newer(a: MarkerView, b: MarkerView)
    ensures
        a.created_at_us < b.created_at_us ==> is_older(a, b) && !is_older(b, a),
        a.created_at_us == b.created_at_us && text::text_before(
            a.source_device_id,
            b.source_device_id,
        ) ==> is_older(a, b) && !is_older(b, a),
        a.created_at_us == b.created_at_us && a.source_device_id == b.source_device_id
            && text::text_before(a.id, b.id) ==> is_older(a, b) && !is_older(b, a),
        a == b ==> !is_older(a, b),
{
    marker_order_is_total(a, b);
    text::text_order_is_total(a.source_device_id, b.source_device_id);
    text::text_order_is_total(a.id, b.id);
}

/// The first event of all becomes the latest one. After that an event becomes the latest one
/// if it was later, and is overtaken if it was earlier; the latest event itself is neither.
pub proof fn latest_event_is_the_latest(current: MarkerView, item: ItemView)
    ensures
        ({
            let m = MarkerView {
                id: item.id,
                created_at_us: item.created_at_us,
                source_device_id: item.source_device_id,
            };
            &&& marker_of(item) == m
            &&& latest_after(None, m) == Some(m)
            &&& !is_stale(None, m)
            &&& current.created_at_us < m.created_at_us ==> latest_after(Some(current), m) == Some(m)
                && !is_stale(Some(current), m)
            &&& current.created_at_us > m.created_at_us ==> latest_after(Some(current), m) == Some(
                current,
            ) && is_stale(Some(current), m)
            &&& latest_after(Some(m), m) == Some(m) && !is_stale(Some(m), m) && !overtakes(Some(m), m)
        }),
{
    let m = marker_of(item);
    marker_order_is_total(m, m);
}

/// An event either is overtaken by the latest one, or takes its place, or is that event.
pub proof fn events_are_overtaken_or_overtake(current: MarkerView, m: MarkerView)
    ensures
        m == current || (is_stale(Some(current), m) != overtakes(Some(current), m)),
        latest_after(Some(current), m) == (if overtakes(Some(current), m) {
            Some(m)
        } else {
            Some(current)
        }),
        overtakes(Some(current), m) == is_stale(Some(m), current),
{
    marker_order_is_total(m, current);
}

} // verus!
