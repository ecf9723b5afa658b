//! What becomes of the items that wait to be sent or to be applied.
//!
//! Sending an item and writing it to the clipboard take place outside: one step
//! hands out the item, another takes what became of it.

use crate::net::dedupe;
use crate::net::dedupe::{
    clear_content_inflight, mark_content_inflight, mark_shared_fingerprint, recent_event_seen,
    register_ignored_local_hash, register_recent_event, remember_local_observation,
    should_drop_duplicate_outbound, RECENT_EVENT_TTL_MS,
};
use crate::net::display;
use crate::net::display::{payload_label, payload_summary};
use crate::net::domain;
use crate::net::domain::prune_stale_queue_entries;
use crate::net::logs;
use crate::net::logs::set_error;
use crate::net::marker;
use crate::net::marker::{is_stale_marker, item_marker, update_latest_item, MarkerView};
use crate::net::queue;
use crate::net::queue::{
    new_queue_entry, pop_ready_outbound_entry, pop_ready_queue_entry, push_queue_entry,
    schedule_retry, EntryView, QueueEntry, QueueLane,
};
use crate::net::state::{RuntimeState, StateView};
use crate::net::transfers;
use crate::net::transfers::{
    find_receive_transfer_id, find_transfer, mark_transfer_completed, mark_transfer_failed,
    update_transfer_metadata, update_transfer_status, TransferView,
};
use crate::protocol;
use crate::protocol::{ClipboardItem, ClipboardPayload, ItemView, PayloadView};
use vstd::prelude::*;
use vstd::utf8::*;

verus! {

/// What the step that applies items found.
#[derive(Debug)]
pub enum InboundStep {
    /// Nothing is due.
    Idle,
    /// An item was overtaken; what it holds on disk is no longer needed.
    Overtaken { payload: ClipboardPayload },
    /// An item is to be written to the clipboard.
    Apply { entry: QueueEntry, transfer_id: Option<String> },
}

/// What became of writing an item to the clipboard.
#[derive(Debug)]
pub enum ApplyResult {
    /// It was written; what the clipboard now holds may have another hash.
    Applied { content_hash: Option<String> },
    /// The clipboard was not available.
    Busy { error: String },
    /// The item cannot be written.
    Failed { error: String },
}

/// What is done with an item that was to be written to the clipboard.
#[derive(Debug)]
pub enum InboundOutcome {
    /// It was written; what it holds on disk is kept for a while.
    Applied { payload: ClipboardPayload },
    /// It is tried again.
    Retrying,
    /// It was given up; what it holds on disk is no longer needed.
    Discarded { payload: ClipboardPayload },
}

/// What the step that sends items found.
#[derive(Debug)]
pub enum OutboundStep {
    /// Nothing is due.
    Idle,
    /// An item was overtaken.
    Overtaken { item_id: String },
    /// An item is to be sent.
    Send { entry: QueueEntry },
}

/// What became of sending an item to several peers.
#[derive(Debug)]
pub struct BroadcastReport {
    pub attempted: usize,
    pub delivered: usize,
    pub failed_peers: Vec<String>,
    pub deferred: bool,
}

/// What is done with an item that was to be sent.
#[derive(Debug, Clone, Copy, PartialEq, Eq, Structural)]
pub enum OutboundOutcome {
    /// All peers have it.
    Completed,
    /// Someone else sends it.
    Deferred,
    /// It is tried again.
    Retrying,
    /// It was given up.
    GaveUp,
}

/// The state with one transfer changed, if there is one.
pub open spec fn with_transfer(
    s: StateView,
    id: Option<Seq<char>>,
    change: spec_fn(TransferView) -> TransferView,
) -> StateView {
    match id {
        Some(id) => StateView { transfers: transfers::changed(s.transfers, id, change), ..s },
        None => s,
    }
}

/// The state after an error.
pub open spec fn with_error(s: StateView, message: Seq<char>, now_ms: u64) -> StateView {
    StateView {
        last_error: Some(logs::bounded(message)),
        logs: logs::logged(s.logs, "ERROR"@, message, now_ms),
        ..s
    }
}

/// The transfer that receives an item.
pub open spec fn receiving(s: StateView, e: EntryView) -> Option<Seq<char>> {
    transfers::receiving_id(s.transfers, e.item.id)
}

/// The state once the first item that is due was taken to be applied, and
/// whether it is still to be applied.
pub open spec fn inbound_taken(s: StateView, now_ms: u64) -> (StateView, bool) {
    let i = queue::first_due(s.inbound, now_ms);
    let e = s.inbound[i];
    let left = StateView { inbound: s.inbound.remove(i), ..s };
    if domain::is_overtaken(e, s.latest) {
        (
            with_transfer(
                left,
                receiving(s, e),
                |t: TransferView|
                    transfers::with_status(t, "failed"@, Some("已被更新内容替代"@), now_ms),
            ),
            false,
        )
    } else {
        (
            with_transfer(
                dedupe::with_applied_hash(left, e.item.content_hash, now_ms),
                receiving(s, e),
                |t: TransferView|
                    transfers::with_metadata(
                        t,
                        protocol::kind_name(e.item.payload),
                        display::label(e.item.payload),
                        display::summary(e.item.payload),
                        e.item.id,
                        "applying"@,
                        now_ms,
                    ),
            ),
            true,
        )
    }
}

/// Takes the first item that is due to be applied.
pub fn next_inbound_item(state: &mut RuntimeState, now_ms: u64) -> (step: InboundStep)
    requires
        old(state).wf(),
    ensures
        final(state).wf(),
        ({
            let s = old(state)@;
            let i = queue::first_due(s.inbound, now_ms);
            match step {
                InboundStep::Idle => i == s.inbound.len() && final(state)@ == s,
                InboundStep::Overtaken { payload } => {
                    &&& 0 <= i < s.inbound.len()
                    &&& payload@ == s.inbound[i].item.payload
                    &&& inbound_taken(s, now_ms) == (final(state)@, false)
                },
                InboundStep::Apply { entry, transfer_id } => {
                    &&& 0 <= i < s.inbound.len()
                    &&& entry@ == s.inbound[i]
                    &&& transfers::text_option(transfer_id) == receiving(s, s.inbound[i])
                    &&& inbound_taken(s, now_ms) == (final(state)@, true)
                },
            }
        }),
{
    let ghost s = state@;
    let entry = match pop_ready_queue_entry(&mut state.inbound_queue, now_ms) {
        Some(entry) => entry,
        None => {
            assert(state@ =~= s);
            return InboundStep::Idle;
        },
    };
    let ghost i = queue::first_due(s.inbound, now_ms);
    assert(state@ =~= (StateView { inbound: s.inbound.remove(i), ..s }));
    let transfer_id = find_receive_transfer_id(&state.transfers, &entry.item.id);
    let item_mark = item_marker(&entry.item);
    if is_stale_marker(&state.latest_item, &item_mark) {
        if let Some(id) = &transfer_id {
            mark_transfer_failed(
                &mut state.transfers,
                id,
                "已被更新内容替代".to_owned(),
                now_ms,
            );
        }
        assert(state@ =~= inbound_taken(s, now_ms).0);
        return InboundStep::Overtaken { payload: entry.item.payload };
    }
    register_ignored_local_hash(state, &entry.item.content_hash, now_ms);
    if let Some(id) = &transfer_id {
        update_transfer_metadata(
            &mut state.transfers,
            id,
            entry.item.payload.kind(),
            &payload_label(&entry.item.payload),
            &payload_summary(&entry.item.payload),
            &entry.item.id,
            "applying",
            now_ms,
        );
    }
    assert(state@ =~= inbound_taken(s, now_ms).0);
    InboundStep::Apply { entry, transfer_id }
}

/// The state after an item was written to the clipboard.
pub open spec fn inbound_applied(
    s: StateView,
    e: EntryView,
    transfer_id: Option<Seq<char>>,
    local_hash: Option<Seq<char>>,
    now_ms: u64,
) -> StateView {
    let shared = StateView { shared: Some(e.item.content_hash), ..s };
    with_transfer(
        match local_hash {
            Some(hash) => StateView {
                shared: Some(hash),
                ..dedupe::with_applied_hash(shared, hash, now_ms)
            },
            None => shared,
        },
        transfer_id,
        |t: TransferView| transfers::as_completed(t, now_ms),
    )
}

/// The state after an item could not be written now, but may be later.
pub open spec fn inbound_retried(
    s: StateView,
    e: EntryView,
    transfer_id: Option<Seq<char>>,
    error: Seq<char>,
    now_ms: u64,
) -> StateView {
    with_transfer(
        StateView { inbound: s.inbound.push(queue::retried(e, now_ms)), ..s },
        transfer_id,
        |t: TransferView| transfers::with_status(t, "retrying"@, Some(error), now_ms),
    )
}

/// The state after an item was given up.
pub open spec fn inbound_given_up(
    s: StateView,
    transfer_id: Option<Seq<char>>,
    error: Seq<char>,
    message: Seq<char>,
    now_ms: u64,
) -> StateView {
    with_error(
        with_transfer(
            s,
            transfer_id,
            |t: TransferView| transfers::with_status(t, "failed"@, Some(error), now_ms),
        ),
        message,
        now_ms,
    )
}

/// How giving an item up is reported.
pub open spec fn give_up_message(what: Seq<char>, e: EntryView, error: Seq<char>) -> Seq<char> {
    what + e.item.id + " error="@ + error
}

fn give_up_text(what: &str, item_id: &str, error: &str) -> (message: String)
    ensures
        message@ == what@ + item_id@ + " error="@ + error@,
{
    let mut message: String = what.to_owned();
    message.append(item_id);
    message.append(" error=");
    message.append(error);
    message
}

fn give_up(
    state: &mut RuntimeState,
    transfer_id: &Option<String>,
    error: &str,
    message: &str,
    now_ms: u64,
)
    requires
        old(state).wf(),
    ensures
        final(state).wf(),
        final(state)@ == inbound_given_up(
            old(state)@,
            transfers::text_option(*transfer_id),
            error@,
            message@,
            now_ms,
        ),
{
    if let Some(id) = transfer_id {
        mark_transfer_failed(&mut state.transfers, id, error.to_owned(), now_ms);
    }
    set_error(&mut state.last_error, &mut state.logs, message, now_ms);
    assert(state@ =~= inbound_given_up(
        old(state)@,
        transfers::text_option(*transfer_id),
        error@,
        message@,
        now_ms,
    ));
}

/// Takes what became of writing an item to the clipboard. An item is tried again
/// only where the clipboard was not available, and not without end.
pub fn finish_inbound_item(
    state: &mut RuntimeState,
    entry: QueueEntry,
    transfer_id: Option<String>,
    result: ApplyResult,
    now_ms: u64,
) -> (outcome: InboundOutcome)
    requires
        old(state).wf(),
    ensures
        final(state).wf(),
        ({
            let s = old(state)@;
            let id = transfers::text_option(transfer_id);
            match result {
                ApplyResult::Applied { content_hash } => {
                    &&& final(state)@ == inbound_applied(
                        s,
                        entry@,
                        id,
                        transfers::text_option(content_hash),
                        now_ms,
                    )
                    &&& outcome matches InboundOutcome::Applied { payload } && payload@
                        == entry@.item.payload
                },
                ApplyResult::Busy { error } => if queue::may_retry(entry@, now_ms) {
                    &&& final(state)@ == inbound_retried(s, entry@, id, error@, now_ms)
                    &&& outcome is Retrying
                } else {
                    &&& final(state)@ == inbound_given_up(
                        s,
                        id,
                        error@,
                        give_up_message(
                            "apply clipboard item failed after retries: item="@,
                            entry@,
                            error@,
                        ),
                        now_ms,
                    )
                    &&& outcome matches InboundOutcome::Discarded { payload } && payload@
                        == entry@.item.payload
                },
                ApplyResult::Failed { error } => {
                    &&& final(state)@ == inbound_given_up(
                        s,
                        id,
                        error@,
                        give_up_message(
                            "apply clipboard item failed permanently: item="@,
                            entry@,
                            error@,
                        ),
                        now_ms,
                    )
                    &&& outcome matches InboundOutcome::Discarded { payload } && payload@
                        == entry@.item.payload
                },
            }
        }),
{
    let ghost s = state@;
    let ghost e = entry@;
    let ghost id_view = transfers::text_option(transfer_id);
    match result {
        ApplyResult::Applied { content_hash } => {
            mark_shared_fingerprint(state, &entry.item.content_hash);
            if let Some(local) = &content_hash {
                register_ignored_local_hash(state, local, now_ms);
                mark_shared_fingerprint(state, local);
            }
            if let Some(id) = &transfer_id {
                mark_transfer_completed(&mut state.transfers, id, now_ms);
            }
            assert(state@ =~= inbound_applied(
                s,
                e,
                id_view,
                transfers::text_option(content_hash),
                now_ms,
            ));
            InboundOutcome::Applied { payload: entry.item.payload }
        },
        ApplyResult::Busy { error } => {
            let mut entry = entry;
            if schedule_retry(&mut entry, now_ms) {
                if let Some(id) = &transfer_id {
                    update_transfer_status(
                        &mut state.transfers,
                        id,
                        "retrying",
                        Some(error.clone()),
                        now_ms,
                    );
                }
                push_queue_entry(&mut state.inbound_queue, entry);
                assert(state@ =~= inbound_retried(s, e, id_view, error@, now_ms));
                InboundOutcome::Retrying
            } else {
                let message = give_up_text(
                    "apply clipboard item failed after retries: item=",
                    &entry.item.id,
                    &error,
                );
                give_up(state, &transfer_id, &error, &message, now_ms);
                InboundOutcome::Discarded { payload: entry.item.payload }
            }
        },
        ApplyResult::Failed { error } => {
            let message = give_up_text(
                "apply clipboard item failed permanently: item=",
                &entry.item.id,
                &error,
            );
            give_up(state, &transfer_id, &error, &message, now_ms);
            InboundOutcome::Discarded { payload: entry.item.payload }
        },
    }
}

/// The state once entry `i` was taken to be sent.
pub open spec fn outbound_taken(s: StateView, i: int) -> StateView {
    let e = s.outbound[i];
    let left = StateView { outbound: s.outbound.remove(i), ..s };
    if domain::is_overtaken(e, s.latest) {
        StateView { inflight: s.inflight.remove(e.item.content_hash), ..left }
    } else {
        left
    }
}

/// Takes the item that is to be sent next, on one of the given lanes.
pub fn next_outbound_item(state: &mut RuntimeState, allowed_lanes: &[QueueLane], now_ms: u64) -> (step:
    OutboundStep)
    requires
        old(state).wf(),
    ensures
        final(state).wf(),
        ({
            let s = old(state)@;
            match step {
                OutboundStep::Idle => {
                    &&& forall|i: int|
                        0 <= i < s.outbound.len() ==> !#[trigger] queue::is_ready(
                            s.outbound,
                            allowed_lanes@,
                            now_ms,
                            i,
                        )
                    &&& final(state)@ == s
                },
                OutboundStep::Overtaken { item_id } => exists|i: int| #[trigger]
                    queue::is_next(s.outbound, allowed_lanes@, now_ms, i) && domain::is_overtaken(
                        s.outbound[i],
                        s.latest,
                    ) && item_id@ == s.outbound[i].item.id && final(state)@ == outbound_taken(s, i),
                OutboundStep::Send { entry } => exists|i: int| #[trigger]
                    queue::is_next(s.outbound, allowed_lanes@, now_ms, i) && !domain::is_overtaken(
                        s.outbound[i],
                        s.latest,
                    ) && entry@ == s.outbound[i] && final(state)@ == outbound_taken(s, i),
            }
        }),
{
    let ghost s = state@;
    let popped = pop_ready_outbound_entry(&mut state.outbound_queue, allowed_lanes, now_ms);
    let entry = match popped {
        Some(entry) => entry,
        None => {
            assert(state@ =~= s);
            return OutboundStep::Idle;
        },
    };
    let ghost i = choose|i: int| #[trigger]
        queue::is_next(s.outbound, allowed_lanes@, now_ms, i) && entry@ == s.outbound[i]
            && queue::entries(state.outbound_queue@) == s.outbound.remove(i);
    assert(state@ =~= (StateView { outbound: s.outbound.remove(i), ..s }));
    let item_mark = item_marker(&entry.item);
    if is_stale_marker(&state.latest_item, &item_mark) {
        clear_content_inflight(state, &entry.item.content_hash);
        assert(state@ =~= outbound_taken(s, i));
        return OutboundStep::Overtaken { item_id: entry.item.id };
    }
    assert(state@ =~= outbound_taken(s, i));
    OutboundStep::Send { entry }
}

/// The state after an item is queued again, or given up if it was tried too
/// often or for too long.
pub open spec fn outbound_requeued(s: StateView, e: EntryView, now_ms: u64) -> StateView {
    if queue::may_retry(e, now_ms) {
        StateView { outbound: s.outbound.push(queue::retried(e, now_ms)), ..s }
    } else {
        StateView { inflight: s.inflight.remove(e.item.content_hash), ..s }
    }
}

/// The state after an item was sent to so many peers, of which some failed.
///
/// Without any peer the item waits for discovery, without being bound to the
/// peers that were not there. If some peers failed, it is sent to those alone.
pub open spec fn outbound_sent(
    s: StateView,
    e: EntryView,
    attempted: nat,
    failed_peers: Seq<Seq<char>>,
    deferred: bool,
    now_ms: u64,
) -> StateView {
    if attempted == 0 {
        outbound_requeued(s, e, now_ms)
    } else if deferred {
        s
    } else if failed_peers.len() > 0 {
        outbound_requeued(s, EntryView { pending_peers: Some(failed_peers), ..e }, now_ms)
    } else {
        StateView {
            shared: Some(e.item.content_hash),
            inflight: s.inflight.remove(e.item.content_hash),
            ..s
        }
    }
}

fn requeue_outbound(state: &mut RuntimeState, entry: QueueEntry, now_ms: u64) -> (outcome:
    OutboundOutcome)
    requires
        old(state).wf(),
    ensures
        final(state).wf(),
        final(state)@ == outbound_requeued(old(state)@, entry@, now_ms),
        outcome == if queue::may_retry(entry@, now_ms) {
            OutboundOutcome::Retrying
        } else {
            OutboundOutcome::GaveUp
        },
{
    let ghost s = state@;
    let ghost e = entry@;
    let mut entry = entry;
    if schedule_retry(&mut entry, now_ms) {
        push_queue_entry(&mut state.outbound_queue, entry);
        assert(state@ =~= outbound_requeued(s, e, now_ms));
        OutboundOutcome::Retrying
    } else {
        clear_content_inflight(state, &entry.item.content_hash);
        OutboundOutcome::GaveUp
    }
}

/// Takes what became of sending an item.
pub fn finish_outbound_item(
    state: &mut RuntimeState,
    entry: QueueEntry,
    report: BroadcastReport,
    now_ms: u64,
) -> (outcome: OutboundOutcome)
    requires
        old(state).wf(),
    ensures
        final(state).wf(),
        final(state)@ == outbound_sent(
            old(state)@,
            entry@,
            report.attempted as nat,
            protocol::texts(report.failed_peers@),
            report.deferred,
            now_ms,
        ),
        outcome == if report.attempted == 0 || (!report.deferred && report.failed_peers@.len() > 0) {
            if queue::may_retry(entry@, now_ms) {
                OutboundOutcome::Retrying
            } else {
                OutboundOutcome::GaveUp
            }
        } else if report.deferred {
            OutboundOutcome::Deferred
        } else {
            OutboundOutcome::Completed
        },
{
    if report.attempted == 0 {
        return requeue_outbound(state, entry, now_ms);
    }
    if report.deferred {
        return OutboundOutcome::Deferred;
    }
    if report.failed_peers.len() > 0 {
        let ghost e = entry@;
        let ghost failed = protocol::texts(report.failed_peers@);
        let mut entry = entry;
        entry.pending_peers = Some(report.failed_peers);
        assert(entry@ =~= (EntryView { pending_peers: Some(failed), ..e }));
        return requeue_outbound(state, entry, now_ms);
    }
    mark_shared_fingerprint(state, &entry.item.content_hash);
    clear_content_inflight(state, &entry.item.content_hash);
    OutboundOutcome::Completed
}

/// The state after an event became known: if it is the latest one, what it has
/// overtaken is dropped.
pub open spec fn with_event(s: StateView, m: MarkerView) -> StateView {
    if marker::overtakes(s.latest, m) {
        domain::without_overtaken(StateView { latest: Some(m), ..s })
    } else {
        s
    }
}

/// What waited to be applied and was overtaken by an event.
pub open spec fn discarded_by(s: StateView, m: MarkerView) -> Seq<PayloadView> {
    if marker::overtakes(s.latest, m) {
        domain::contents(domain::overtaken(s.inbound, Some(m)))
    } else {
        Seq::empty()
    }
}

fn note_event(state: &mut RuntimeState, item: &ClipboardItem) -> (discarded: Vec<ClipboardPayload>)
    requires
        old(state).wf(),
    ensures
        final(state).wf(),
        final(state)@ == with_event(old(state)@, marker::marker_of(item@)),
        domain::payloads(discarded@) == discarded_by(old(state)@, marker::marker_of(item@)),
{
    let ghost s = state@;
    if update_latest_item(&mut state.latest_item, item) {
        assert(state@ =~= (StateView { latest: Some(marker::marker_of(item@)), ..s }));
        prune_stale_queue_entries(state)
    } else {
        assert(state@ =~= s);
        let none: Vec<ClipboardPayload> = Vec::new();
        assert(domain::payloads(none@) =~= Seq::<PayloadView>::empty());
        none
    }
}

/// A received item is not taken up: its event is known already, or it was overtaken.
pub open spec fn is_skipped(s: StateView, item: ItemView, now_ms: u64) -> bool {
    dedupe::has_key(dedupe::unexpired(s.recent_events, RECENT_EVENT_TTL_MS, now_ms), item.id)
        || marker::is_stale(s.latest, marker::marker_of(item))
}

/// The state after it was decided whether a received item is taken up.
pub open spec fn remote_item_checked(s: StateView, item: ItemView, now_ms: u64) -> StateView {
    let pruned = StateView {
        recent_events: dedupe::unexpired(s.recent_events, RECENT_EVENT_TTL_MS, now_ms),
        ..s
    };
    if is_skipped(s, item, now_ms) {
        pruned
    } else {
        with_event(
            dedupe::with_recent_event(pruned, item.id, now_ms),
            marker::marker_of(item),
        )
    }
}

/// Decides whether a received item is skipped, and takes note of its event. The
/// second result holds what the event has overtaken: what those contents hold on
/// disk is no longer needed.
pub fn should_skip_remote_item(state: &mut RuntimeState, item: &ClipboardItem, now_ms: u64) -> (result:
    (bool, Vec<ClipboardPayload>))
    requires
        old(state).wf(),
    ensures
        final(state).wf(),
        result.0 == is_skipped(old(state)@, item@, now_ms),
        final(state)@ == remote_item_checked(old(state)@, item@, now_ms),
        domain::payloads(result.1@) == if result.0 {
            Seq::<PayloadView>::empty()
        } else {
            discarded_by(old(state)@, marker::marker_of(item@))
        },
{
    let none: Vec<ClipboardPayload> = Vec::new();
    assert(domain::payloads(none@) =~= Seq::<PayloadView>::empty());
    if recent_event_seen(state, &item.id, now_ms) {
        return (true, none);
    }
    let item_mark = item_marker(item);
    if is_stale_marker(&state.latest_item, &item_mark) {
        return (true, none);
    }
    register_recent_event(state, &item.id, now_ms);
    let discarded = note_event(state, item);
    (false, discarded)
}

/// The state after an item was queued to be sent.
pub open spec fn outbound_queued(s: StateView, item: ItemView, now_ms: u64) -> StateView {
    let checked = dedupe::looked_up(s, item.content_hash, now_ms);
    if dedupe::is_known_content(s, item.content_hash, now_ms) {
        dedupe::with_observed(checked, item.content_hash, now_ms)
    } else {
        let noted = with_event(checked, marker::marker_of(item));
        StateView {
            outbound: noted.outbound.push(queue::fresh_entry(item, now_ms)),
            inflight: noted.inflight.insert(item.content_hash),
            ..noted
        }
    }
}

/// Queues an item to be sent, unless its content is known already. The first
/// result tells whether it was queued, the second holds what the event has
/// overtaken.
pub fn enqueue_outbound_item(state: &mut RuntimeState, item: ClipboardItem, now_ms: u64) -> (result:
    (bool, Vec<ClipboardPayload>))
    requires
        old(state).wf(),
    ensures
        final(state).wf(),
        result.0 == !dedupe::is_known_content(old(state)@, item@.content_hash, now_ms),
        final(state)@ == outbound_queued(old(state)@, item@, now_ms),
        domain::payloads(result.1@) == if result.0 {
            discarded_by(old(state)@, marker::marker_of(item@))
        } else {
            Seq::<PayloadView>::empty()
        },
{
    let ghost s = state@;
    if should_drop_duplicate_outbound(state, &item, now_ms) {
        remember_local_observation(state, &item.content_hash, now_ms);
        let none: Vec<ClipboardPayload> = Vec::new();
        assert(domain::payloads(none@) =~= Seq::<PayloadView>::empty());
        return (false, none);
    }
    let discarded = note_event(state, &item);
    let ghost view = item@;
    mark_content_inflight(state, &item.content_hash);
    push_queue_entry(&mut state.outbound_queue, new_queue_entry(item, now_ms));
    assert(state@ =~= outbound_queued(s, view, now_ms));
    (true, discarded)
}

/// A transfer whose item waits to be applied.
pub open spec fn as_queued(t: TransferView, item: ItemView, peer: Seq<char>, now_ms: u64) -> TransferView {
    TransferView {
        id: t.id,
        direction: t.direction,
        peer,
        item_kind: protocol::kind_name(item.payload),
        item_label: display::label(item.payload),
        item_summary: display::summary(item.payload),
        item_id: item.id,
        transferred_bytes: item.size_bytes,
        total_bytes: item.size_bytes,
        percent: 100,
        status: "queued"@,
        updated_at_ms: now_ms,
        error: None,
    }
}

/// The state after a received item was queued to be applied.
pub open spec fn inbound_queued(
    s: StateView,
    item: ItemView,
    transfer_id: Seq<char>,
    peer: Seq<char>,
    now_ms: u64,
) -> StateView {
    let noted = with_event(s, marker::marker_of(item));
    with_transfer(
        StateView { inbound: noted.inbound.push(queue::fresh_entry(item, now_ms)), ..noted },
        Some(transfer_id),
        |t: TransferView| as_queued(t, item, peer, now_ms),
    )
}

/// Queues a received item to be applied. Returns what its event has overtaken.
pub fn enqueue_inbound_item(
    state: &mut RuntimeState,
    item: ClipboardItem,
    transfer_id: &str,
    peer: &str,
    now_ms: u64,
) -> (discarded: Vec<ClipboardPayload>)
    requires
        old(state).wf(),
    ensures
        final(state).wf(),
        final(state)@ == inbound_queued(old(state)@, item@, transfer_id@, peer@, now_ms),
        domain::payloads(discarded@) == discarded_by(old(state)@, marker::marker_of(item@)),
{
    let ghost s = state@;
    let ghost view = item@;
    let discarded = note_event(state, &item);
    let ghost all = transfers::shown(state.transfers@);
    let i: usize = find_transfer(&state.transfers, transfer_id);
    if i < state.transfers.len() {
        let mut transfer = state.transfers[i].clone();
        transfer.peer = peer.to_owned();
        transfer.item_kind = item.payload.kind().to_owned();
        transfer.item_label = payload_label(&item.payload);
        transfer.item_summary = payload_summary(&item.payload);
        transfer.item_id = item.id.clone();
        transfer.transferred_bytes = item.size_bytes;
        transfer.total_bytes = item.size_bytes;
        transfer.percent = 100;
        transfer.status = "queued".to_owned();
        transfer.updated_at_ms = now_ms;
        transfer.error = None;
        assert(transfer@ =~= as_queued(all[i as int], view, peer@, now_ms));
        state.transfers.set(i, transfer);
        assert(transfers::shown(state.transfers@) =~= all.update(
            i as int,
            as_queued(all[i as int], view, peer@, now_ms),
        ));
    }
    push_queue_entry(&mut state.inbound_queue, new_queue_entry(item, now_ms));
    assert(state@ =~= inbound_queued(s, view, transfer_id@, peer@, now_ms));
    discarded
}

/// A peer that has received an item is not sent it again: an item that is tried
/// again after some peers failed is bound to exactly those peers.
pub proof fn only_failed_peers_are_tried_again(
    s: StateView,
    e: EntryView,
    attempted: nat,
    failed_peers: Seq<Seq<char>>,
    now_ms: u64,
)
    requires
        attempted > 0,
        failed_peers.len() > 0,
        queue::may_retry(e, now_ms),
    ensures
        outbound_sent(s, e, attempted, failed_peers, false, now_ms).outbound.len()
            == s.outbound.len() + 1,
        outbound_sent(s, e, attempted, failed_peers, false, now_ms).outbound.last().pending_peers
            == Some(failed_peers),
        outbound_sent(s, e, attempted, failed_peers, false, now_ms).outbound.last().item == e.item,
{
}

/// An item for which there is no peer yet is neither lost nor taken for sent: it
/// stays in flight, is tried again, and is not bound to any peers.
pub proof fn item_without_peers_waits(
    s: StateView,
    e: EntryView,
    failed_peers: Seq<Seq<char>>,
    deferred: bool,
    now_ms: u64,
)
    requires
        queue::may_retry(e, now_ms),
    ensures
        ({
            let after = outbound_sent(s, e, 0, failed_peers, deferred, now_ms);
            &&& after.inflight == s.inflight
            &&& after.shared == s.shared
            &&& after.outbound == s.outbound.push(queue::retried(e, now_ms))
            &&& after.outbound.last().pending_peers == e.pending_peers
        }),
{
}

/// Once it is given up, an item is no longer in flight.
pub proof fn given_up_items_are_released(
    s: StateView,
    e: EntryView,
    attempted: nat,
    failed_peers: Seq<Seq<char>>,
    now_ms: u64,
)
    requires
        !queue::may_retry(e, now_ms),
    ensures
        !outbound_sent(s, e, attempted, failed_peers, false, now_ms).inflight.contains(
            e.item.content_hash,
        ),
        outbound_sent(s, e, attempted, failed_peers, false, now_ms).outbound == s.outbound,
{
}

/// A content that waits to be sent, or is being sent, is not queued again when it is
/// copied once more.
pub proof fn waiting_content_is_queued_once(
    s: StateView,
    item: ItemView,
    again: ItemView,
    now_ms: u64,
    later_ms: u64,
)
    requires
        again.content_hash == item.content_hash,
        !dedupe::is_known_content(s, item.content_hash, now_ms),
    ensures
        outbound_queued(outbound_queued(s, item, now_ms), again, later_ms).outbound
            == outbound_queued(s, item, now_ms).outbound,
{
}

/// A content that all peers have is not queued again when it is copied once more.
pub proof fn delivered_content_is_not_queued_again(
    s: StateView,
    e: EntryView,
    attempted: nat,
    again: ItemView,
    now_ms: u64,
    later_ms: u64,
)
    requires
        attempted > 0,
        again.content_hash == e.item.content_hash,
    ensures
        outbound_queued(
            outbound_sent(s, e, attempted, Seq::empty(), false, now_ms),
            again,
            later_ms,
        ).outbound == s.outbound,
{
}

/// An event is taken up once: the same item received again is skipped.
pub proof fn received_items_are_taken_up_once(s: StateView, item: ItemView, now_ms: u64)
    requires
        s.recent_events.len() <= dedupe::RECENT_EVENT_ID_LIMIT,
        !is_skipped(s, item, now_ms),
    ensures
        is_skipped(remote_item_checked(s, item, now_ms), item, now_ms),
{
    dedupe::unexpired_is_a_tail(s.recent_events, RECENT_EVENT_TTL_MS, now_ms);
    dedupe::noted_key_is_fresh(
        dedupe::unexpired(s.recent_events, RECENT_EVENT_TTL_MS, now_ms),
        RECENT_EVENT_TTL_MS,
        dedupe::RECENT_EVENT_ID_LIMIT as int,
        item.id,
        now_ms,
    );
}

/// An event changes nothing but the latest event and what waits: entries that were copied
/// later than it all stay, entries that were copied earlier all go if it became the latest
/// event, and an event that is not the latest one changes nothing at all.
pub proof fn events_drop_earlier_entries_alone(s: StateView, m: MarkerView, e: EntryView)
    ensures
        ({
            let after = with_event(s, m);
            &&& e.item.created_at_us > m.created_at_us ==> (after.outbound.contains(e)
                <==> s.outbound.contains(e)) && (after.inbound.contains(e) <==> s.inbound.contains(
                e,
            ))
            &&& (s.latest is None || s.latest->Some_0.created_at_us < m.created_at_us)
                ==> after.latest == Some(m) && (e.item.created_at_us < m.created_at_us
                ==> !after.outbound.contains(e) && !after.inbound.contains(e))
            &&& s.latest is Some && s.latest->Some_0.created_at_us > m.created_at_us ==> after == s
            &&& s.latest == Some(m) ==> after == s
            &&& after == StateView {
                latest: after.latest,
                outbound: after.outbound,
                inbound: after.inbound,
                inflight: after.inflight,
                ..s
            }
        }),
{
    domain::pruning_drops_exactly_the_overtaken(s.outbound, Some(m), e);
    domain::pruning_drops_exactly_the_overtaken(s.inbound, Some(m), e);
    domain::earlier_entries_are_overtaken(e, m);
    marker::marker_order_is_total(m, m);
}

/// A content that is new is queued: unless the domain shares it, it is being sent, or it was
/// received within the last ten seconds, copying it leaves it as the last one that waits to
/// be sent, due at once and bound to no peers, whatever else waits. It is in flight from then
/// on, nothing is taken for shared, and what was copied later than it still waits.
pub proof fn new_contents_are_queued_whatever_waits(
    s: StateView,
    item: ItemView,
    now_ms: u64,
    other: EntryView,
)
    requires
        s.shared != Some(item.content_hash),
        !s.inflight.contains(item.content_hash),
        forall|i: int, j: int|
            0 <= i <= j < s.applied_hashes.len() && (#[trigger] s.applied_hashes[j]).0
                == item.content_hash ==> (#[trigger] s.applied_hashes[i]).1 + 10_000 <= now_ms,
    ensures
        !dedupe::is_known_content(s, item.content_hash, now_ms),
        ({
            let after = outbound_queued(s, item, now_ms);
            &&& after.outbound.len() > 0
            &&& after.outbound.last() == EntryView {
                item,
                attempts: 0,
                queued_at_ms: now_ms,
                pending_peers: None,
                next_attempt_at_ms: now_ms,
            }
            &&& after.inflight.contains(item.content_hash)
            &&& other.item.created_at_us > item.created_at_us && s.outbound.contains(other)
                ==> after.outbound.contains(other)
            &&& other.item.created_at_us > item.created_at_us && s.inbound.contains(other)
                ==> after.inbound.contains(other)
            &&& after == StateView {
                outbound: after.outbound,
                inbound: after.inbound,
                inflight: after.inflight,
                latest: after.latest,
                applied_hashes: after.applied_hashes,
                ..s
            }
            &&& s.latest is None || s.latest->Some_0.created_at_us < item.created_at_us
                ==> after.latest == Some(
                MarkerView {
                    id: item.id,
                    created_at_us: item.created_at_us,
                    source_device_id: item.source_device_id,
                },
            )
        }),
{
    dedupe::new_contents_are_not_known(s, item.content_hash, now_ms);
    dedupe::looking_up_only_forgets_old_hashes(s, item.content_hash, now_ms);
    let checked = dedupe::looked_up(s, item.content_hash, now_ms);
    let m = marker::marker_of(item);
    events_drop_earlier_entries_alone(checked, m, other);
    let noted = with_event(checked, m);
    let after = outbound_queued(s, item, now_ms);
    if noted.outbound.contains(other) {
        let k = noted.outbound.index_of(other);
        assert(after.outbound[k] == other);
    }
    assert(after =~= (StateView {
        outbound: after.outbound,
        inbound: after.inbound,
        inflight: after.inflight,
        latest: after.latest,
        applied_hashes: after.applied_hashes,
        ..s
    }));
}

/// A content that the domain shares, that is being sent or that was received a moment ago
/// is not queued, and nothing that waits is dropped for it: only that it was seen on the
/// clipboard is noted.
pub proof fn known_contents_leave_the_queues_alone(s: StateView, item: ItemView, now_ms: u64)
    requires
        s.shared == Some(item.content_hash) || s.inflight.contains(item.content_hash) || exists|
            i: int,
        |
            0 <= i < s.applied_hashes.len() && (#[trigger] s.applied_hashes[i]).0
                == item.content_hash && s.applied_hashes[i].1 + 10_000 > now_ms,
    ensures
        ({
            let after = outbound_queued(s, item, now_ms);
            &&& after == StateView {
                observed: Some((item.content_hash, now_ms)),
                applied_hashes: after.applied_hashes,
                ..s
            }
        }),
{
    if s.shared != Some(item.content_hash) && !s.inflight.contains(item.content_hash) {
        let i = choose|i: int|
            0 <= i < s.applied_hashes.len() && (#[trigger] s.applied_hashes[i]).0
                == item.content_hash && s.applied_hashes[i].1 + 10_000 > now_ms;
        assert(i <= i);
    }
    dedupe::contents_are_known_for_three_reasons(s, item.content_hash, now_ms);
    let after = outbound_queued(s, item, now_ms);
    assert(after =~= (StateView {
        observed: Some((item.content_hash, now_ms)),
        applied_hashes: after.applied_hashes,
        ..s
    }));
}

/// A received item is taken up exactly if its event is not known from the last two minutes
/// and it was not overtaken; in particular any item is that was copied later than all known
/// ones and goes by an identifier that was never noted.
pub proof fn received_items_are_skipped_for_two_reasons(s: StateView, item: ItemView, now_ms: u64)
    ensures
        (exists|i: int|
            0 <= i < s.recent_events.len() && (#[trigger] s.recent_events[i]).0 == item.id
                && s.recent_events[i].1 + 120_000 > now_ms) ==> is_skipped(s, item, now_ms),
        s.latest is Some && s.latest->Some_0.created_at_us > item.created_at_us ==> is_skipped(
            s,
            item,
            now_ms,
        ),
        (forall|i: int, j: int|
            0 <= i <= j < s.recent_events.len() && (#[trigger] s.recent_events[j]).0 == item.id
                ==> (#[trigger] s.recent_events[i]).1 + 120_000 <= now_ms) && (s.latest is None
            || s.latest->Some_0.created_at_us < item.created_at_us || s.latest == Some(
            marker::marker_of(item),
        )) ==> !is_skipped(s, item, now_ms),
{
    dedupe::events_are_known_for_two_minutes(s.recent_events, item.id, now_ms);
    if exists|i: int|
        0 <= i < s.recent_events.len() && (#[trigger] s.recent_events[i]).0 == item.id
            && s.recent_events[i].1 + 120_000 > now_ms {
        let i = choose|i: int|
            0 <= i < s.recent_events.len() && (#[trigger] s.recent_events[i]).0 == item.id
                && s.recent_events[i].1 + 120_000 > now_ms;
        assert(i <= i);
    }
    marker::marker_order_is_total(marker::marker_of(item), marker::marker_of(item));
}

/// Taking note of a received item never touches what is known of contents, transfers or
/// members; a skipped one leaves the queues and the latest event alone, too, and one that
/// was copied latest becomes the latest event.
pub proof fn checking_an_item_touches_events_alone(s: StateView, item: ItemView, now_ms: u64)
    ensures
        ({
            let after = remote_item_checked(s, item, now_ms);
            &&& after == StateView {
                recent_events: after.recent_events,
                latest: after.latest,
                outbound: after.outbound,
                inbound: after.inbound,
                inflight: after.inflight,
                ..s
            }
            &&& is_skipped(s, item, now_ms) ==> after == StateView {
                recent_events: after.recent_events,
                ..s
            }
            &&& !is_skipped(s, item, now_ms) && (s.latest is None
                || s.latest->Some_0.created_at_us < item.created_at_us) ==> after.latest == Some(
                MarkerView {
                    id: item.id,
                    created_at_us: item.created_at_us,
                    source_device_id: item.source_device_id,
                },
            )
        }),
{
    let after = remote_item_checked(s, item, now_ms);
    assert(after =~= (StateView {
        recent_events: after.recent_events,
        latest: after.latest,
        outbound: after.outbound,
        inbound: after.inbound,
        inflight: after.inflight,
        ..s
    }));
}

/// A received item always waits to be applied, last of all and due at once, whatever else
/// waits; what was copied later than it still waits, too. Its transfer shows it complete and
/// queued, and all other transfers stay as they are.
pub proof fn received_items_wait_to_be_applied(
    s: StateView,
    item: ItemView,
    transfer_id: Seq<char>,
    peer: Seq<char>,
    now_ms: u64,
    other: EntryView,
    i: int,
)
    requires
        0 <= i < s.transfers.len(),
        forall|j: int, k: int|
            0 <= j < k < s.transfers.len() ==> (#[trigger] s.transfers[j]).id != (
            #[trigger] s.transfers[k]).id,
    ensures
        ({
            let after = inbound_queued(s, item, transfer_id, peer, now_ms);
            let t = s.transfers[i];
            &&& after.inbound.len() > 0
            &&& after.inbound.last() == EntryView {
                item,
                attempts: 0,
                queued_at_ms: now_ms,
                pending_peers: None,
                next_attempt_at_ms: now_ms,
            }
            &&& other.item.created_at_us > item.created_at_us && s.inbound.contains(other)
                ==> after.inbound.contains(other)
            &&& other.item.created_at_us > item.created_at_us && s.outbound.contains(other)
                ==> after.outbound.contains(other)
            &&& after.transfers.len() == s.transfers.len()
            &&& t.id != transfer_id ==> after.transfers[i] == t
            &&& t.id == transfer_id ==> {
                &&& after.transfers[i].id == t.id
                &&& after.transfers[i].direction == t.direction
                &&& after.transfers[i].peer == peer
                &&& after.transfers[i].item_id == item.id
                &&& after.transfers[i].transferred_bytes == item.size_bytes
                &&& after.transfers[i].total_bytes == item.size_bytes
                &&& after.transfers[i].percent == 100
                &&& after.transfers[i].status == "queued"@
                &&& after.transfers[i].updated_at_ms == now_ms
                &&& after.transfers[i].error is None
            }
            &&& after == StateView {
                latest: after.latest,
                outbound: after.outbound,
                inbound: after.inbound,
                inflight: after.inflight,
                transfers: after.transfers,
                ..s
            }
        }),
{
    let m = marker::marker_of(item);
    events_drop_earlier_entries_alone(s, m, other);
    let noted = with_event(s, m);
    let after = inbound_queued(s, item, transfer_id, peer, now_ms);
    let change = |t: TransferView| as_queued(t, item, peer, now_ms);
    transfers::a_change_reaches_one_transfer(s.transfers, transfer_id, change, i);
    if noted.inbound.contains(other) {
        let k = noted.inbound.index_of(other);
        assert(after.inbound[k] == other);
    }
    assert(after =~= (StateView {
        latest: after.latest,
        outbound: after.outbound,
        inbound: after.inbound,
        inflight: after.inflight,
        transfers: after.transfers,
        ..s
    }));
}

/// Of the items that wait to be applied the first that is due is taken, and only that one
/// leaves. It is applied unless it was copied before the latest event; its content is then
/// known, so that it is not sent back.
pub proof fn items_due_are_applied_unless_overtaken(s: StateView, now_ms: u64, i: int)
    requires
        0 <= i < s.inbound.len(),
        s.inbound[i].next_attempt_at_ms <= now_ms,
        forall|j: int| 0 <= j < i ==> (#[trigger] s.inbound[j]).next_attempt_at_ms > now_ms,
        s.applied_hashes.len() <= 1_024,
    ensures
        ({
            let (after, applied) = inbound_taken(s, now_ms);
            let item = s.inbound[i].item;
            &&& queue::first_due(s.inbound, now_ms) == i
            &&& after.inbound == s.inbound.remove(i)
            &&& after == StateView {
                inbound: after.inbound,
                applied_hashes: after.applied_hashes,
                transfers: after.transfers,
                ..s
            }
            &&& s.latest is None || s.latest->Some_0.created_at_us < item.created_at_us || s.latest
                == Some(marker::marker_of(item)) ==> applied
            &&& s.latest is Some && s.latest->Some_0.created_at_us > item.created_at_us ==> !applied
            &&& applied ==> dedupe::is_known_content(after, item.content_hash, now_ms)
            &&& !applied ==> after.applied_hashes == s.applied_hashes
        }),
{
    queue::first_due_entry_is_applied(s.inbound, now_ms);
    let p = queue::first_due(s.inbound, now_ms);
    if p < i {
        assert(s.inbound[p].next_attempt_at_ms > now_ms);
    }
    assert(p == i);
    let e = s.inbound[i];
    let left = StateView { inbound: s.inbound.remove(i), ..s };
    let (after, applied) = inbound_taken(s, now_ms);
    marker::marker_order_is_total(marker::marker_of(e.item), marker::marker_of(e.item));
    dedupe::known_contents_are_not_sent_again(left, e.item.content_hash, now_ms);
    assert(after =~= (StateView {
        inbound: after.inbound,
        applied_hashes: after.applied_hashes,
        transfers: after.transfers,
        ..s
    }));
    if applied {
        assert(dedupe::is_known_content(
            dedupe::with_applied_hash(left, e.item.content_hash, now_ms),
            e.item.content_hash,
            now_ms,
        ));
    }
}

/// Once an item was written to the clipboard, the domain shares what the clipboard now
/// holds: the item's own content, or, where the clipboard gives back something else, that.
/// Neither is sent back. The queues and the latest event stay as they are.
pub proof fn applied_contents_are_shared(
    s: StateView,
    e: EntryView,
    transfer_id: Option<Seq<char>>,
    local_hash: Option<Seq<char>>,
    now_ms: u64,
)
    requires
        s.applied_hashes.len() <= 1_024,
    ensures
        ({
            let after = inbound_applied(s, e, transfer_id, local_hash, now_ms);
            &&& local_hash is None ==> after.shared == Some(e.item.content_hash)
                && after.applied_hashes == s.applied_hashes
            &&& local_hash is Some ==> after.shared == local_hash
            &&& dedupe::is_known_content(after, after.shared->Some_0, now_ms)
            &&& after == StateView {
                shared: after.shared,
                applied_hashes: after.applied_hashes,
                transfers: after.transfers,
                ..s
            }
        }),
{
    let after = inbound_applied(s, e, transfer_id, local_hash, now_ms);
    assert(after =~= (StateView {
        shared: after.shared,
        applied_hashes: after.applied_hashes,
        transfers: after.transfers,
        ..s
    }));
}

/// An item that could not be written now waits again, last of all, with one more attempt and
/// otherwise as it was; nothing else that waits is touched. One that is given up leaves no
/// trace but its transfer, the log and the last error.
pub proof fn busy_clipboards_are_tried_again(
    s: StateView,
    e: EntryView,
    transfer_id: Option<Seq<char>>,
    error: Seq<char>,
    message: Seq<char>,
    now_ms: u64,
)
    requires
        e.attempts < 24,
        now_ms < e.queued_at_ms + 30_000,
        now_ms <= u64::MAX - 500,
    ensures
        queue::may_retry(e, now_ms),
        ({
            let after = inbound_retried(s, e, transfer_id, error, now_ms);
            &&& after.inbound.len() == s.inbound.len() + 1
            &&& after.inbound.drop_last() == s.inbound
            &&& after.inbound.last().item == e.item
            &&& after.inbound.last().attempts == e.attempts + 1
            &&& after.inbound.last().queued_at_ms == e.queued_at_ms
            &&& now_ms + 30 <= after.inbound.last().next_attempt_at_ms <= now_ms + 500
            &&& after == StateView { inbound: after.inbound, transfers: after.transfers, ..s }
        }),
        ({
            let after = inbound_given_up(s, transfer_id, error, message, now_ms);
            after == StateView {
                transfers: after.transfers,
                last_error: after.last_error,
                logs: after.logs,
                ..s
            }
        }),
{
    let after = inbound_retried(s, e, transfer_id, error, now_ms);
    assert(after.inbound.drop_last() =~= s.inbound);
    queue::retry_waits_and_keeps_the_item(e, now_ms);
    assert(after =~= (StateView { inbound: after.inbound, transfers: after.transfers, ..s }));
    let gone = inbound_given_up(s, transfer_id, error, message, now_ms);
    assert(gone =~= (StateView {
        transfers: gone.transfers,
        last_error: gone.last_error,
        logs: gone.logs,
        ..s
    }));
}

/// The transfer of an item shows what became of it: it is complete once the item was
/// written, shows the error while the item is tried again, and has failed with the error once
/// the item was given up. All other transfers stay as they are.
pub proof fn transfers_show_what_became_of_the_item(
    s: StateView,
    e: EntryView,
    transfer_id: Seq<char>,
    local_hash: Option<Seq<char>>,
    error: Seq<char>,
    message: Seq<char>,
    now_ms: u64,
    i: int,
)
    requires
        0 <= i < s.transfers.len(),
        forall|j: int, k: int|
            0 <= j < k < s.transfers.len() ==> (#[trigger] s.transfers[j]).id != (
            #[trigger] s.transfers[k]).id,
    ensures
        ({
            let t = s.transfers[i];
            let written = inbound_applied(s, e, Some(transfer_id), local_hash, now_ms).transfers;
            let again = inbound_retried(s, e, Some(transfer_id), error, now_ms).transfers;
            let gone = inbound_given_up(s, Some(transfer_id), error, message, now_ms).transfers;
            &&& written.len() == s.transfers.len()
            &&& again.len() == s.transfers.len()
            &&& gone.len() == s.transfers.len()
            &&& t.id != transfer_id ==> written[i] == t && again[i] == t && gone[i] == t
            &&& t.id == transfer_id ==> {
                &&& written[i].status == "completed"@ && written[i].error is None
                    && written[i].percent == 100 && written[i].transferred_bytes == t.total_bytes
                &&& again[i].status == "retrying"@ && again[i].error == Some(error)
                    && again[i].transferred_bytes == t.transferred_bytes
                &&& gone[i].status == "failed"@ && gone[i].error == Some(error)
                    && gone[i].transferred_bytes == t.transferred_bytes
            }
        }),
{
    transfers::a_change_reaches_one_transfer(
        s.transfers,
        transfer_id,
        |t: TransferView| transfers::as_completed(t, now_ms),
        i,
    );
    transfers::a_change_reaches_one_transfer(
        s.transfers,
        transfer_id,
        |t: TransferView| transfers::with_status(t, "retrying"@, Some(error), now_ms),
        i,
    );
    transfers::a_change_reaches_one_transfer(
        s.transfers,
        transfer_id,
        |t: TransferView| transfers::with_status(t, "failed"@, Some(error), now_ms),
        i,
    );
}

/// The item that is sent next leaves the queue, and only that one. One that was copied before
/// the latest event is no longer in flight; any other one still is.
pub proof fn sent_items_leave_the_queue(s: StateView, i: int)
    requires
        0 <= i < s.outbound.len(),
    ensures
        ({
            let after = outbound_taken(s, i);
            let item = s.outbound[i].item;
            &&& after.outbound == s.outbound.remove(i)
            &&& after == StateView { outbound: after.outbound, inflight: after.inflight, ..s }
            &&& s.latest is None || s.latest->Some_0.created_at_us < item.created_at_us || s.latest
                == Some(marker::marker_of(item)) ==> after.inflight == s.inflight
            &&& s.latest is Some && s.latest->Some_0.created_at_us > item.created_at_us
                ==> after.inflight == s.inflight.remove(item.content_hash)
        }),
{
    let e = s.outbound[i];
    marker::marker_order_is_total(marker::marker_of(e.item), marker::marker_of(e.item));
    let after = outbound_taken(s, i);
    assert(after =~= (StateView { outbound: after.outbound, inflight: after.inflight, ..s }));
}

/// What is done once an item was sent: if every peer has it, the domain shares its content,
/// which is no longer in flight; if some failed or none was there, and less than 24 retries
/// and 30 seconds have gone by, the item waits again, last of all, bound to those that failed
/// alone; if someone else sends it, nothing changes. What waits besides is never touched.
pub proof fn sent_items_are_shared_or_wait(
    s: StateView,
    e: EntryView,
    attempted: nat,
    failed_peers: Seq<Seq<char>>,
    deferred: bool,
    now_ms: u64,
)
    requires
        now_ms <= u64::MAX - 500,
    ensures
        ({
            let after = outbound_sent(s, e, attempted, failed_peers, deferred, now_ms);
            &&& attempted > 0 && !deferred && failed_peers.len() == 0 ==> {
                &&& after.shared == Some(e.item.content_hash)
                &&& after.inflight == s.inflight.remove(e.item.content_hash)
                &&& after.outbound == s.outbound
            }
            &&& attempted > 0 && deferred ==> after == s
            &&& (attempted == 0 || (!deferred && failed_peers.len() > 0)) && e.attempts < 24
                && now_ms < e.queued_at_ms + 30_000 ==> {
                &&& after.outbound.len() == s.outbound.len() + 1
                &&& after.outbound.drop_last() == s.outbound
                &&& after.outbound.last().item == e.item
                &&& after.outbound.last().attempts == e.attempts + 1
                &&& after.outbound.last().queued_at_ms == e.queued_at_ms
                &&& now_ms + 30 <= after.outbound.last().next_attempt_at_ms <= now_ms + 500
                &&& after.outbound.last().pending_peers == (if attempted == 0 {
                    e.pending_peers
                } else {
                    Some(failed_peers)
                })
                &&& after.inflight == s.inflight
                &&& after.shared == s.shared
            }
            &&& (attempted == 0 || (!deferred && failed_peers.len() > 0)) && (e.attempts >= 24
                || now_ms >= e.queued_at_ms + 30_000) ==> {
                &&& after.outbound == s.outbound
                &&& after.inflight == s.inflight.remove(e.item.content_hash)
                &&& after.shared == s.shared
            }
            &&& after == StateView {
                shared: after.shared,
                inflight: after.inflight,
                outbound: after.outbound,
                ..s
            }
        }),
{
    let after = outbound_sent(s, e, attempted, failed_peers, deferred, now_ms);
    queue::items_are_tried_again_for_thirty_seconds(e, now_ms);
    if queue::may_retry(e, now_ms) {
        let bound = EntryView { pending_peers: Some(failed_peers), ..e };
        queue::retry_waits_and_keeps_the_item(e, now_ms);
        queue::retry_waits_and_keeps_the_item(bound, now_ms);
        assert(s.outbound.push(queue::retried(e, now_ms)).drop_last() =~= s.outbound);
        assert(s.outbound.push(queue::retried(bound, now_ms)).drop_last() =~= s.outbound);
    }
    assert(after =~= (StateView {
        shared: after.shared,
        inflight: after.inflight,
        outbound: after.outbound,
        ..s
    }));
}

/// What an event discards are the contents that waited to be applied and were copied before it,
/// and no others: what those hold on disk is still needed. An event that is not the latest one
/// discards nothing.
pub proof fn only_overtaken_contents_are_discarded(s: StateView, m: MarkerView, payload: PayloadView)
    ensures
        s.latest is Some && s.latest->Some_0.created_at_us > m.created_at_us ==> discarded_by(
            s,
            m,
        ).len() == 0,
        s.latest == Some(m) ==> discarded_by(s, m).len() == 0,
        s.latest is None || s.latest->Some_0.created_at_us < m.created_at_us ==> (discarded_by(
            s,
            m,
        ).contains(payload) <==> exists|i: int|
            0 <= i < s.inbound.len() && (#[trigger] s.inbound[i]).item.payload == payload
                && domain::is_overtaken(s.inbound[i], Some(m))),
        discarded_by(s, m).contains(payload) ==> exists|i: int|
            0 <= i < s.inbound.len() && (#[trigger] s.inbound[i]).item.payload == payload
                && s.inbound[i].item.created_at_us <= m.created_at_us,
{
    marker::marker_order_is_total(m, m);
    let leave = |e: EntryView| domain::is_overtaken(e, Some(m));
    let gone = domain::overtaken(s.inbound, Some(m));
    let list = domain::contents(gone);
    if list.contains(payload) {
        let k = list.index_of(payload);
        s.inbound.lemma_filter_pred(leave, k);
        assert(gone.contains(gone[k]));
        s.inbound.lemma_filter_contains_rev(leave, gone[k]);
        let i = s.inbound.index_of(gone[k]);
        assert(s.inbound[i].item.payload == payload);
        domain::earlier_entries_are_overtaken(s.inbound[i], m);
    }
    if exists|i: int|
        0 <= i < s.inbound.len() && (#[trigger] s.inbound[i]).item.payload == payload
            && domain::is_overtaken(s.inbound[i], Some(m)) {
        let i = choose|i: int|
            0 <= i < s.inbound.len() && (#[trigger] s.inbound[i]).item.payload == payload
                && domain::is_overtaken(s.inbound[i], Some(m));
        s.inbound.lemma_filter_contains(leave, i);
        let k = gone.index_of(s.inbound[i]);
        assert(list[k] == payload);
    }
}

/// The transfer of an item that is applied shows what the item is and that it is applied; that
/// of an overtaken one has failed. All other transfers stay as they are.
pub proof fn transfers_show_that_items_are_applied(s: StateView, now_ms: u64, i: int, k: int)
    requires
        0 <= i < s.inbound.len(),
        s.inbound[i].next_attempt_at_ms <= now_ms,
        forall|j: int| 0 <= j < i ==> (#[trigger] s.inbound[j]).next_attempt_at_ms > now_ms,
        0 <= k < s.transfers.len(),
        forall|a: int, b: int|
            0 <= a < b < s.transfers.len() ==> (#[trigger] s.transfers[a]).id != (
            #[trigger] s.transfers[b]).id,
    ensures
        ({
            let (after, applied) = inbound_taken(s, now_ms);
            let item = s.inbound[i].item;
            let id = transfers::receiving_id(s.transfers, item.id);
            let t = s.transfers[k];
            let shown = after.transfers[k];
            &&& after.transfers.len() == s.transfers.len()
            &&& id != Some(t.id) ==> shown == t
            &&& id == Some(t.id) && applied ==> shown.status == "applying"@ && shown.item_id
                == item.id && shown.item_kind == protocol::kind_name(item.payload)
                && shown.item_label == display::label(item.payload) && shown.item_summary
                == display::summary(item.payload) && shown.transferred_bytes == t.transferred_bytes
            &&& id == Some(t.id) && !applied ==> shown.status == "failed"@ && shown.error == Some(
                "已被更新内容替代"@,
            )
        }),
{
    queue::first_due_entry_is_applied(s.inbound, now_ms);
    let p = queue::first_due(s.inbound, now_ms);
    if p < i {
        assert(s.inbound[p].next_attempt_at_ms > now_ms);
    }
    assert(p == i);
    let e = s.inbound[i];
    if let Some(id) = receiving(s, e) {
        transfers::a_change_reaches_one_transfer(
            s.transfers,
            id,
            |t: TransferView|
                transfers::with_status(t, "failed"@, Some("已被更新内容替代"@), now_ms),
            k,
        );
        transfers::a_change_reaches_one_transfer(
            s.transfers,
            id,
            |t: TransferView|
                transfers::with_metadata(
                    t,
                    protocol::kind_name(e.item.payload),
                    display::label(e.item.payload),
                    display::summary(e.item.payload),
                    e.item.id,
                    "applying"@,
                    now_ms,
                ),
            k,
        );
    }
}

/// An error that is reported is the last one and the last line of the log, in full if it takes
/// no more than 8192 bytes.
pub proof fn errors_are_reported(s: StateView, message: Seq<char>, now_ms: u64)
    requires
        encode_utf8(message).len() <= 8_192,
    ensures
        ({
            let after = with_error(s, message, now_ms);
            &&& after.last_error == Some(message)
            &&& after.logs.len() > 0
            &&& after.logs.last().message == message
            &&& after.logs.last().level == "ERROR"@
            &&& after.logs.last().ts_ms == now_ms
            &&& after == StateView { last_error: after.last_error, logs: after.logs, ..s }
        }),
{
    logs::new_lines_come_last(s.logs, "ERROR"@, message, now_ms);
    let after = with_error(s, message, now_ms);
    assert(after =~= (StateView { last_error: after.last_error, logs: after.logs, ..s }));
}

/// That an item was given up is reported: the message is the last error and the last line of the
/// log, and names the item and the reason.
pub proof fn given_up_items_are_reported(
    s: StateView,
    e: EntryView,
    transfer_id: Option<Seq<char>>,
    error: Seq<char>,
    what: Seq<char>,
    now_ms: u64,
)
    requires
        encode_utf8(what + e.item.id + " error="@ + error).len() <= 8_192,
    ensures
        ({
            let message = give_up_message(what, e, error);
            let after = inbound_given_up(s, transfer_id, error, message, now_ms);
            &&& message == what + e.item.id + " error="@ + error
            &&& after.last_error == Some(message)
            &&& after.logs.len() > 0 && after.logs.last().message == message
                && after.logs.last().level == "ERROR"@ && after.logs.last().ts_ms == now_ms
        }),
{
    let message = give_up_message(what, e, error);
    logs::new_lines_come_last(s.logs, "ERROR"@, message, now_ms);
}

} // verus!
