//! Watching the clipboard of this device for what is copied there.

use crate::clipboard::types;
use crate::clipboard::types::{ClipboardError, ErrorView};
use crate::net::dedupe;
use crate::net::dedupe::{
    prune_ignored_local_hashes, prune_recent_event_ids, register_ignored_local_hash,
    register_recent_event, remember_local_observation, should_ignore_local_observation,
    APPLIED_HASH_TTL_MS, RECENT_EVENT_TTL_MS,
};
use crate::net::domain;
use crate::net::flow;
use crate::net::flow::enqueue_outbound_item;
use crate::net::logs::set_error;
use crate::net::marker;
use crate::net::marker::{update_latest_item, MarkerView};
use crate::net::queue::EntryView;
use crate::net::state::{RuntimeState, StateView};
use crate::net::transfers;
use crate::protocol::{ClipboardItem, ClipboardPayload, ItemView, PayloadView};
use vstd::prelude::*;
use vstd::utf8::*;

verus! {

/// The shortest time between two looks at the clipboard.
pub const CLIPBOARD_WATCH_INTERVAL_MS: u64 = 50;

/// The longest time between two looks at the clipboard.
pub const CLIPBOARD_WATCH_MAX_INTERVAL_MS: u64 = 500;

/// The time until the next look at the clipboard: the shortest after something was
/// copied, and twice as long each time that nothing was.
pub open spec fn interval_after(current_ms: u64, changed: bool) -> u64 {
    if changed {
        CLIPBOARD_WATCH_INTERVAL_MS
    } else if current_ms * 2 < CLIPBOARD_WATCH_MAX_INTERVAL_MS {
        (current_ms * 2) as u64
    } else {
        CLIPBOARD_WATCH_MAX_INTERVAL_MS
    }
}

/// The time until the next look at the clipboard.
pub fn next_watch_interval(current_ms: u64, changed: bool) -> (interval_ms: u64)
    ensures
        interval_ms == interval_after(current_ms, changed),
{
    if changed {
        CLIPBOARD_WATCH_INTERVAL_MS
    } else if current_ms < CLIPBOARD_WATCH_MAX_INTERVAL_MS && current_ms * 2
        < CLIPBOARD_WATCH_MAX_INTERVAL_MS {
        current_ms * 2
    } else {
        CLIPBOARD_WATCH_MAX_INTERVAL_MS
    }
}

/// Tells whether the clipboard is read: not if its change counter is known and shows no
/// change.
pub fn should_read_snapshot(last: Option<u64>, current: Option<u64>) -> (read: bool)
    ensures
        read == !(last is Some && current is Some && last == current),
{
    match (last, current) {
        (Some(previous), Some(now)) => now != previous,
        _ => true,
    }
}

/// The state after the clipboard could not be read. A content that is not supported is
/// no error.
pub open spec fn read_failed(s: StateView, error: ErrorView, now_ms: u64) -> StateView {
    if error is Unsupported {
        s
    } else {
        flow::with_error(
            s,
            "clipboard watcher read failed: "@ + types::error_text(error),
            now_ms,
        )
    }
}

/// Takes note that the clipboard could not be read.
pub fn note_read_failure(state: &mut RuntimeState, error: &ClipboardError, now_ms: u64)
    ensures
        old(state).wf() ==> final(state).wf(),
        final(state)@ == read_failed(old(state)@, error@, now_ms),
{
    match error {
        ClipboardError::Unsupported => {},
        _ => {
            let mut message: String = "clipboard watcher read failed: ".to_owned();
            message.append(&error.message());
            set_error(&mut state.last_error, &mut state.logs, &message, now_ms);
            assert(state@ =~= read_failed(old(state)@, error@, now_ms));
        },
    }
}

/// Takes note that no item could be made of what was copied.
pub fn note_build_failure(state: &mut RuntimeState, error: &ClipboardError, now_ms: u64)
    ensures
        old(state).wf() ==> final(state).wf(),
        final(state)@ == flow::with_error(
            old(state)@,
            "clipboard watcher build item failed: "@ + types::error_text(error@),
            now_ms,
        ),
{
    let ghost text = "clipboard watcher build item failed: "@ + types::error_text(error@);
    let mut message: String = "clipboard watcher build item failed: ".to_owned();
    message.append(&error.message());
    set_error(&mut state.last_error, &mut state.logs, &message, now_ms);
    assert(state@ =~= flow::with_error(old(state)@, text, now_ms));
}

/// The state after files of this application were found on the clipboard.
pub open spec fn internal_found(
    s: StateView,
    content_hash: Option<Seq<char>>,
    now_ms: u64,
) -> StateView {
    match content_hash {
        Some(hash) => dedupe::with_applied_hash(
            dedupe::with_observed(s, hash, now_ms),
            hash,
            now_ms,
        ),
        None => s,
    }
}

/// Takes note that files were found on the clipboard which this application put there.
/// They are not sent.
pub fn note_internal_content(state: &mut RuntimeState, content_hash: Option<String>, now_ms: u64)
    requires
        old(state).wf(),
    ensures
        final(state).wf(),
        final(state)@ == internal_found(
            old(state)@,
            transfers::text_option(content_hash),
            now_ms,
        ),
{
    if let Some(hash) = content_hash {
        remember_local_observation(state, &hash, now_ms);
        register_ignored_local_hash(state, &hash, now_ms);
    }
}

/// What was copied is nothing new.
pub open spec fn is_ignored(s: StateView, item: ItemView, now_ms: u64) -> bool {
    dedupe::is_known_content(s, item.content_hash, now_ms) || match s.observed {
        Some(previous) => previous.0 == item.content_hash,
        None => false,
    }
}

/// The state after a look at what was copied.
pub open spec fn looked_at(s: StateView, item: ItemView, now_ms: u64) -> StateView {
    dedupe::with_observed(
        dedupe::looked_up(s, item.content_hash, now_ms),
        item.content_hash,
        now_ms,
    )
}

/// The state after the event of a new item became known, before the item is queued.
pub open spec fn event_noted(s: StateView, item: ItemView, now_ms: u64) -> StateView {
    let known = dedupe::with_recent_event(looked_at(s, item, now_ms), item.id, now_ms);
    StateView { latest: marker::latest_after(known.latest, marker::marker_of(item)), ..known }
}

/// The state after something was copied on this device.
pub open spec fn copied(s: StateView, item: ItemView, now_ms: u64) -> StateView {
    if is_ignored(s, item, now_ms) {
        looked_at(s, item, now_ms)
    } else {
        flow::outbound_queued(event_noted(s, item, now_ms), item, now_ms)
    }
}

/// Takes up what was copied on this device: unless it is nothing new, it is the latest
/// event of the domain and is queued to be sent. The first result tells whether it was
/// new, the second holds the contents that the event has overtaken.
pub fn take_up_local_item(state: &mut RuntimeState, item: ClipboardItem, now_ms: u64) -> (result: (
    bool,
    Vec<ClipboardPayload>,
))
    requires
        old(state).wf(),
    ensures
        final(state).wf(),
        result.0 == !is_ignored(old(state)@, item@, now_ms),
        final(state)@ == copied(old(state)@, item@, now_ms),
        domain::payloads(result.1@) == if result.0 && !dedupe::is_known_content(
            event_noted(old(state)@, item@, now_ms),
            item@.content_hash,
            now_ms,
        ) {
            flow::discarded_by(
                event_noted(old(state)@, item@, now_ms),
                marker::marker_of(item@),
            )
        } else {
            Seq::<PayloadView>::empty()
        },
{
    if should_ignore_local_observation(state, &item, now_ms) {
        let none: Vec<ClipboardPayload> = Vec::new();
        assert(domain::payloads(none@) =~= Seq::<PayloadView>::empty());
        return (false, none);
    }
    register_recent_event(state, &item.id, now_ms);
    let _replaced = update_latest_item(&mut state.latest_item, &item);
    assert(state@ =~= event_noted(old(state)@, item@, now_ms));
    let (_queued, discarded) = enqueue_outbound_item(state, item, now_ms);
    (true, discarded)
}

/// Forgets what was remembered for too long.
pub fn prune_clipboard_observation_caches(state: &mut RuntimeState, now_ms: u64)
    requires
        old(state).wf(),
    ensures
        final(state).wf(),
        final(state)@ == (StateView {
            applied_hashes: dedupe::unexpired(
                old(state)@.applied_hashes,
                APPLIED_HASH_TTL_MS,
                now_ms,
            ),
            recent_events: dedupe::unexpired(
                old(state)@.recent_events,
                RECENT_EVENT_TTL_MS,
                now_ms,
            ),
            ..old(state)@
        }),
{
    prune_ignored_local_hashes(state, now_ms);
    prune_recent_event_ids(state, now_ms);
}

/// What was copied once is not taken up again while it stays on the clipboard.
pub proof fn one_copy_is_one_event(s: StateView, item: ItemView, again: ItemView, now_ms: u64)
    requires
        again.content_hash == item.content_hash,
    ensures
        is_ignored(looked_at(s, item, now_ms), again, now_ms),
{
}

/// The time between two looks at the clipboard is never longer than the longest, and
/// never shorter than the shortest once it has been that.
pub proof fn watch_interval_is_bounded(current_ms: u64, changed: bool)
    requires
        CLIPBOARD_WATCH_INTERVAL_MS <= current_ms,
    ensures
        CLIPBOARD_WATCH_INTERVAL_MS <= interval_after(current_ms, changed)
            <= CLIPBOARD_WATCH_MAX_INTERVAL_MS,
{
}

/// What is copied is taken up whenever it is new, whatever else waits: unless the domain shares
/// it, it is being sent, it was received within the last ten seconds or it was on the
/// clipboard already, it is the last one that waits to be sent, nothing that waits is dropped,
/// and its event is known. If it was copied latest of all, it is the latest event.
pub proof fn new_copies_are_queued(s: StateView, item: ItemView, now_ms: u64)
    requires
        s.shared != Some(item.content_hash),
        !s.inflight.contains(item.content_hash),
        forall|i: int, j: int|
            0 <= i <= j < s.applied_hashes.len() && (#[trigger] s.applied_hashes[j]).0
                == item.content_hash ==> (#[trigger] s.applied_hashes[i]).1 + 10_000 <= now_ms,
        s.observed is None || s.observed->Some_0.0 != item.content_hash,
        s.recent_events.len() <= 4_096,
    ensures
        !is_ignored(s, item, now_ms),
        ({
            let after = copied(s, item, now_ms);
            &&& after.outbound == s.outbound.push(
                EntryView {
                    item,
                    attempts: 0,
                    queued_at_ms: now_ms,
                    pending_peers: None,
                    next_attempt_at_ms: now_ms,
                },
            )
            &&& after.inbound == s.inbound
            &&& after.inflight == s.inflight.insert(item.content_hash)
            &&& after.shared == s.shared
            &&& after.observed == Some((item.content_hash, now_ms))
            &&& s.latest is None || s.latest->Some_0.created_at_us < item.created_at_us
                ==> after.latest == Some(
                MarkerView {
                    id: item.id,
                    created_at_us: item.created_at_us,
                    source_device_id: item.source_device_id,
                },
            )
            &&& exists|i: int|
                0 <= i < after.recent_events.len() && (#[trigger] after.recent_events[i]).0
                    == item.id
            &&& after.transfers == s.transfers && after.members == s.members && after.logs == s.logs
                && after.last_error == s.last_error
        }),
{
    let hash = item.content_hash;
    let m = marker::marker_of(item);
    dedupe::new_contents_are_not_known(s, hash, now_ms);
    dedupe::looking_up_only_forgets_old_hashes(s, hash, now_ms);
    let seen = looked_at(s, item, now_ms);
    dedupe::events_are_noted_beside_others(seen, item.id, now_ms);
    let noted = event_noted(s, item, now_ms);
    let cut = s.applied_hashes.len() - noted.applied_hashes.len();
    assert forall|i: int, j: int|
        0 <= i <= j < noted.applied_hashes.len() && (#[trigger] noted.applied_hashes[j]).0
            == hash implies (#[trigger] noted.applied_hashes[i]).1 + 10_000 <= now_ms by {
        assert(noted.applied_hashes[i] == s.applied_hashes[cut + i]);
        assert(noted.applied_hashes[j] == s.applied_hashes[cut + j]);
    }
    dedupe::new_contents_are_not_known(noted, hash, now_ms);
    dedupe::looking_up_only_forgets_old_hashes(noted, hash, now_ms);
    marker::marker_order_is_total(m, m);
    if s.latest is Some {
        marker::marker_order_is_total(m, s.latest->Some_0);
    }
    let after = copied(s, item, now_ms);
    let checked = dedupe::looked_up(noted, hash, now_ms);
    assert(flow::with_event(checked, m) == checked);
    assert(after.recent_events == dedupe::with_recent_event(seen, item.id, now_ms).recent_events);
    let k = choose|k: int|
        0 <= k < after.recent_events.len() && (#[trigger] after.recent_events[k]).0 == item.id;
    assert(after.recent_events[k].0 == item.id);
}

/// What is on the clipboard already, or known for another reason, is not taken up again: only
/// that it was seen is noted.
pub proof fn old_copies_are_ignored(s: StateView, item: ItemView, now_ms: u64)
    requires
        s.shared == Some(item.content_hash) || s.inflight.contains(item.content_hash) || (
        s.observed is Some && s.observed->Some_0.0 == item.content_hash),
    ensures
        is_ignored(s, item, now_ms),
        ({
            let after = copied(s, item, now_ms);
            after == StateView {
                observed: Some((item.content_hash, now_ms)),
                applied_hashes: after.applied_hashes,
                ..s
            }
        }),
{
    let after = copied(s, item, now_ms);
    assert(after =~= (StateView {
        observed: Some((item.content_hash, now_ms)),
        applied_hashes: after.applied_hashes,
        ..s
    }));
}

/// The clipboard is looked at again after 50 milliseconds if something was copied, and else
/// after twice the time, half a second at most.
pub proof fn quiet_clipboards_are_looked_at_less(current_ms: u64)
    ensures
        interval_after(current_ms, true) == 50,
        current_ms <= 250 ==> interval_after(current_ms, false) == 2 * current_ms,
        current_ms >= 250 ==> interval_after(current_ms, false) == 500,
{
}

/// What this application put on the clipboard is known from then on, so that it is not sent.
pub proof fn own_files_are_not_sent(s: StateView, hash: Seq<char>, item: ItemView, now_ms: u64)
    requires
        s.applied_hashes.len() <= 1_024,
        item.content_hash == hash,
    ensures
        is_ignored(internal_found(s, Some(hash), now_ms), item, now_ms),
        internal_found(s, None, now_ms) == s,
        internal_found(s, Some(hash), now_ms).outbound == s.outbound,
        internal_found(s, Some(hash), now_ms).inbound == s.inbound,
{
    dedupe::known_contents_are_not_sent_again(dedupe::with_observed(s, hash, now_ms), hash, now_ms);
}

/// A content that is not supported is no error; any other failure is the last error and the
/// last line of the log, and changes nothing else.
pub proof fn failed_reads_are_reported(s: StateView, error: ErrorView, now_ms: u64)
    ensures
        error is Unsupported ==> read_failed(s, error, now_ms) == s,
        !(error is Unsupported) ==> ({
            let after = read_failed(s, error, now_ms);
            &&& after.last_error is Some
            &&& after.logs.len() > 0 && after.logs.last().level == "ERROR"@
                && after.logs.last().ts_ms == now_ms
            &&& after == StateView { last_error: after.last_error, logs: after.logs, ..s }
        }),
{
    let after = read_failed(s, error, now_ms);
    assert(after =~= (StateView { last_error: after.last_error, logs: after.logs, ..s }));
}

/// What is reported of a failed read says what went wrong.
pub proof fn failed_reads_say_why(s: StateView, reason: Seq<char>, now_ms: u64)
    requires
        encode_utf8("clipboard watcher read failed: "@ + ("clipboard backend error: "@ + reason)).len()
            <= 8_192,
    ensures
        ({
            let after = read_failed(s, ErrorView::Backend(reason), now_ms);
            &&& after.last_error == Some(
                "clipboard watcher read failed: "@ + ("clipboard backend error: "@ + reason),
            )
            &&& after.logs.last().message == after.last_error->Some_0
        }),
{
    flow::errors_are_reported(
        s,
        "clipboard watcher read failed: "@ + ("clipboard backend error: "@ + reason),
        now_ms,
    );
}

} // verus!
