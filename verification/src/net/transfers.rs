//! Transfers as they are shown to the user.

use crate::net::metrics;
use crate::net::metrics::percent_for;
use crate::protocol::ClipboardItem;
use crate::text::same_text;
use vstd::prelude::*;

verus! {

/// How many transfers are shown.
pub const TRANSFER_HISTORY_LIMIT: usize = 24;

/// How long a finished transfer is shown.
pub const TRANSFER_RETENTION_MS: u64 = 15_000;

/// A transfer as it is shown to the user.
#[derive(Debug)]
pub struct TransferProgress {
    pub id: String,
    pub direction: String,
    pub peer: String,
    pub item_kind: String,
    pub item_label: String,
    pub item_summary: String,
    pub item_id: String,
    pub transferred_bytes: u64,
    pub total_bytes: u64,
    pub percent: u8,
    pub status: String,
    pub updated_at_ms: u64,
    pub error: Option<String>,
}

/// A transfer as plain values.
#[verifier::ext_equal]
pub struct TransferView {
    pub id: Seq<char>,
    pub direction: Seq<char>,
    pub peer: Seq<char>,
    pub item_kind: Seq<char>,
    pub item_label: Seq<char>,
    pub item_summary: Seq<char>,
    pub item_id: Seq<char>,
    pub transferred_bytes: u64,
    pub total_bytes: u64,
    pub percent: u8,
    pub status: Seq<char>,
    pub updated_at_ms: u64,
    pub error: Option<Seq<char>>,
}

/// A text that may be missing, as plain values.
pub open spec fn text_option(text: Option<String>) -> Option<Seq<char>> {
    match text {
        Some(t) => Some(t@),
        None => None,
    }
}

impl View for TransferProgress {
    type V = TransferView;

    open spec fn view(&self) -> TransferView {
        TransferView {
            id: self.id@,
            direction: self.direction@,
            peer: self.peer@,
            item_kind: self.item_kind@,
            item_label: self.item_label@,
            item_summary: self.item_summary@,
            item_id: self.item_id@,
            transferred_bytes: self.transferred_bytes,
            total_bytes: self.total_bytes,
            percent: self.percent,
            status: self.status@,
            updated_at_ms: self.updated_at_ms,
            error: text_option(self.error),
        }
    }
}

impl Clone for TransferProgress {
    fn clone(&self) -> (copy: Self)
        ensures
            copy@ == self@,
    {
        TransferProgress {
            id: self.id.clone(),
            direction: self.direction.clone(),
            peer: self.peer.clone(),
            item_kind: self.item_kind.clone(),
            item_label: self.item_label.clone(),
            item_summary: self.item_summary.clone(),
            item_id: self.item_id.clone(),
            transferred_bytes: self.transferred_bytes,
            total_bytes: self.total_bytes,
            percent: self.percent,
            status: self.status.clone(),
            updated_at_ms: self.updated_at_ms,
            error: match &self.error {
                Some(text) => Some(text.clone()),
                None => None,
            },
        }
    }
}

/// Transfers as plain values.
pub open spec fn shown(list: Seq<TransferProgress>) -> Seq<TransferView> {
    list.map_values(|t: TransferProgress| t@)
}

/// A transfer that is under way.
pub open spec fn is_active_status(status: Seq<char>) -> bool {
    status == "sending"@ || status == "receiving"@ || status == "queued"@ || status == "applying"@
        || status == "retrying"@
}

/// The place of the first transfer with an identifier, or the length of the list.
pub open spec fn place_of(list: Seq<TransferView>, id: Seq<char>) -> int
    decreases list.len(),
{
    if list.len() == 0 || list[0].id == id {
        0
    } else {
        1 + place_of(list.skip(1), id)
    }
}

/// The list with one transfer changed, if it is there.
pub open spec fn changed(
    list: Seq<TransferView>,
    id: Seq<char>,
    change: spec_fn(TransferView) -> TransferView,
) -> Seq<TransferView> {
    let i = place_of(list, id);
    if i < list.len() {
        list.update(i, change(list[i]))
    } else {
        list
    }
}

/// Whether a transfer is still shown.
pub open spec fn is_kept(t: TransferView, now_ms: u64) -> bool {
    is_active_status(t.status) || t.updated_at_ms + TRANSFER_RETENTION_MS >= now_ms
}

/// The transfers that are still shown.
pub open spec fn kept(list: Seq<TransferView>, now_ms: u64) -> Seq<TransferView> {
    list.filter(|t: TransferView| is_kept(t, now_ms))
}

/// `t` placed into a list behind all transfers that changed as late or later.
pub open spec fn placed(list: Seq<TransferView>, t: TransferView) -> Seq<TransferView>
    decreases list.len(),
{
    if list.len() == 0 || list.last().updated_at_ms >= t.updated_at_ms {
        list.push(t)
    } else {
        placed(list.drop_last(), t).push(list.last())
    }
}

/// A list by the time of the last change, the latest first; those that changed
/// at one time stay as they were.
pub open spec fn by_recency(list: Seq<TransferView>) -> Seq<TransferView>
    decreases list.len(),
{
    if list.len() == 0 {
        list
    } else {
        placed(by_recency(list.drop_last()), list.last())
    }
}

/// The first transfers of a list.
pub open spec fn limited(list: Seq<TransferView>) -> Seq<TransferView> {
    if list.len() > TRANSFER_HISTORY_LIMIT {
        list.take(TRANSFER_HISTORY_LIMIT as int)
    } else {
        list
    }
}

/// The list after a transfer was added, or put in the place of one with its identifier.
pub open spec fn upserted(list: Seq<TransferView>, t: TransferView, now_ms: u64) -> Seq<
    TransferView,
> {
    let old_list = kept(list, now_ms);
    let i = place_of(old_list, t.id);
    limited(
        by_recency(
            if i < old_list.len() {
                old_list.update(i, t)
            } else {
                old_list.push(t)
            },
        ),
    )
}

/// A transfer with new progress.
pub open spec fn with_progress(
    t: TransferView,
    transferred: u64,
    total: u64,
    now_ms: u64,
) -> TransferView {
    let done = if transferred <= total { transferred } else { total };
    TransferView {
        transferred_bytes: done,
        total_bytes: total,
        percent: metrics::percent(done, total) as u8,
        updated_at_ms: now_ms,
        ..t
    }
}

/// A transfer with a new status.
pub open spec fn with_status(
    t: TransferView,
    status: Seq<char>,
    error: Option<Seq<char>>,
    now_ms: u64,
) -> TransferView {
    TransferView { status, error, updated_at_ms: now_ms, ..t }
}

/// A transfer that is complete.
pub open spec fn as_completed(t: TransferView, now_ms: u64) -> TransferView {
    TransferView {
        transferred_bytes: t.total_bytes,
        percent: 100,
        status: "completed"@,
        error: None,
        updated_at_ms: now_ms,
        ..t
    }
}

/// A transfer of which more is known.
pub open spec fn with_metadata(
    t: TransferView,
    item_kind: Seq<char>,
    item_label: Seq<char>,
    item_summary: Seq<char>,
    item_id: Seq<char>,
    status: Seq<char>,
    now_ms: u64,
) -> TransferView {
    TransferView {
        item_kind,
        item_label,
        item_summary,
        item_id,
        status,
        updated_at_ms: now_ms,
        ..t
    }
}

/// Tells whether a status is that of a transfer under way.
pub fn is_active(status: &str) -> (active: bool)
    ensures
        active == is_active_status(status@),
{
    same_text(status, "sending") || same_text(status, "receiving") || same_text(status, "queued")
        || same_text(status, "applying") || same_text(status, "retrying")
}

/// Finds the first transfer with an identifier.
pub fn find_transfer(list: &Vec<TransferProgress>, id: &str) -> (place: usize)
    ensures
        place == place_of(shown(list@), id@),
        place <= list@.len(),
{
    let ghost all = shown(list@);
    let mut i: usize = 0;
    assert(all.skip(0) =~= all);
    while i < list.len()
        invariant
            i <= list.len(),
            all == shown(list@),
            place_of(all, id@) == i + place_of(all.skip(i as int), id@),
        decreases list.len() - i,
    {
        assert(all.skip(i as int)[0] == list@[i as int]@);
        if same_text(&list[i].id, id) {
            return i;
        }
        assert(all.skip(i as int).skip(1) =~= all.skip(i + 1));
        i = i + 1;
    }
    i
}

/// Removes the transfers that are no longer shown.
pub fn prune_transfers(list: &mut Vec<TransferProgress>, now_ms: u64)
    ensures
        shown(final(list)@) == kept(shown(old(list)@), now_ms),
{
    let ghost all = shown(list@);
    let threshold: u64 = now_ms.saturating_sub(TRANSFER_RETENTION_MS);
    let mut next: Vec<TransferProgress> = Vec::new();
    let mut i: usize = 0;
    proof {
        reveal(Seq::filter);
    }
    assert(shown(next@) =~= kept(all.take(0), now_ms));
    while i < list.len()
        invariant
            i <= list.len(),
            all == shown(list@),
            list@ == old(list)@,
            threshold == if now_ms >= TRANSFER_RETENTION_MS {
                (now_ms - TRANSFER_RETENTION_MS) as u64
            } else {
                0u64
            },
            shown(next@) == kept(all.take(i as int), now_ms),
        decreases list.len() - i,
    {
        proof {
            assert(all.take(i + 1) =~= all.take(i as int).push(list@[i as int]@));
            all.take(i as int).lemma_filter_push(
                list@[i as int]@,
                |t: TransferView| is_kept(t, now_ms),
            );
        }
        let ghost before = next@;
        if is_active(&list[i].status) || list[i].updated_at_ms >= threshold {
            next.push(list[i].clone());
            assert(shown(next@) =~= shown(before).push(list@[i as int]@));
        }
        i = i + 1;
    }
    assert(all.take(i as int) =~= all);
    *list = next;
}

/// Places a transfer into a list that is ordered by recency.
fn place_transfer(list: &mut Vec<TransferProgress>, t: TransferProgress)
    ensures
        shown(final(list)@) == placed(shown(old(list)@), t@),
{
    let ghost all = shown(list@);
    let mut i: usize = list.len();
    let ghost tail: Seq<TransferView> = Seq::empty();
    assert(all.take(i as int) =~= all);
    assert(placed(all.take(i as int), t@) + tail =~= placed(all, t@));
    while i > 0 && list[i - 1].updated_at_ms < t.updated_at_ms
        invariant
            i <= list.len(),
            list@ == old(list)@,
            all == shown(list@),
            tail == all.skip(i as int),
            placed(all, t@) == placed(all.take(i as int), t@) + tail,
        decreases i,
    {
        proof {
            assert(all.take(i as int).last() == list@[i - 1]@);
            assert(all.take(i as int).drop_last() =~= all.take(i - 1));
            assert(all.skip(i - 1) =~= seq![all[i - 1]] + all.skip(i as int));
            assert(placed(all.take(i as int), t@) + tail =~= placed(all.take(i - 1), t@) + (seq![
                all[i - 1],
            ] + tail));
            tail = all.skip(i - 1);
        }
        i = i - 1;
    }
    proof {
        if i > 0 {
            assert(all.take(i as int).last() == list@[i - 1]@);
        }
    }
    list.insert(i, t);
    assert(shown(list@) =~= all.take(i as int).push(t@) + all.skip(i as int));
}

/// Orders transfers by the time of their last change, the latest first.
pub fn sort_by_recency(list: &mut Vec<TransferProgress>)
    ensures
        shown(final(list)@) == by_recency(shown(old(list)@)),
{
    let ghost all = shown(list@);
    let mut sorted: Vec<TransferProgress> = Vec::new();
    let mut i: usize = 0;
    assert(shown(sorted@) =~= by_recency(all.take(0)));
    while i < list.len()
        invariant
            i <= list.len(),
            list@ == old(list)@,
            all == shown(list@),
            shown(sorted@) == by_recency(all.take(i as int)),
        decreases list.len() - i,
    {
        proof {
            assert(all.take(i + 1).drop_last() =~= all.take(i as int));
            assert(all.take(i + 1).last() == list@[i as int]@);
        }
        place_transfer(&mut sorted, list[i].clone());
        i = i + 1;
    }
    assert(all.take(i as int) =~= all);
    *list = sorted;
}

/// Adds a transfer, or puts it in the place of the one with its identifier.
pub fn upsert_transfer(list: &mut Vec<TransferProgress>, transfer: TransferProgress, now_ms: u64)
    ensures
        shown(final(list)@) == upserted(shown(old(list)@), transfer@, now_ms),
        final(list)@.len() <= TRANSFER_HISTORY_LIMIT,
{
    prune_transfers(list, now_ms);
    let ghost pruned = shown(list@);
    let i: usize = find_transfer(list, &transfer.id);
    let ghost t = transfer@;
    if i < list.len() {
        list.set(i, transfer);
        assert(shown(list@) =~= pruned.update(i as int, t));
    } else {
        list.push(transfer);
        assert(shown(list@) =~= pruned.push(t));
    }
    sort_by_recency(list);
    if list.len() > TRANSFER_HISTORY_LIMIT {
        let ghost sorted = shown(list@);
        list.truncate(TRANSFER_HISTORY_LIMIT);
        assert(shown(list@) =~= sorted.take(TRANSFER_HISTORY_LIMIT as int));
    }
}

/// Takes note of the progress of a transfer.
pub fn update_transfer_progress(
    list: &mut Vec<TransferProgress>,
    transfer_id: &str,
    transferred_bytes: u64,
    total_bytes: u64,
    now_ms: u64,
)
    ensures
        shown(final(list)@) == changed(
            shown(old(list)@),
            transfer_id@,
            |t: TransferView| with_progress(t, transferred_bytes, total_bytes, now_ms),
        ),
{
    let ghost all = shown(list@);
    let i: usize = find_transfer(list, transfer_id);
    if i < list.len() {
        let mut entry = list[i].clone();
        entry.transferred_bytes = if transferred_bytes <= total_bytes {
            transferred_bytes
        } else {
            total_bytes
        };
        entry.total_bytes = total_bytes;
        entry.percent = percent_for(entry.transferred_bytes, entry.total_bytes);
        entry.updated_at_ms = now_ms;
        assert(entry@ =~= with_progress(all[i as int], transferred_bytes, total_bytes, now_ms));
        list.set(i, entry);
        assert(shown(list@) =~= all.update(i as int, entry@));
    }
}

/// Tells whether a transfer has failed, so that work on it should stop.
pub fn transfer_should_abort(list: &Vec<TransferProgress>, transfer_id: &str) -> (abort: bool)
    ensures
        abort == ({
            let i = place_of(shown(list@), transfer_id@);
            i < list@.len() && shown(list@)[i].status == "failed"@
        }),
{
    let i: usize = find_transfer(list, transfer_id);
    if i < list.len() {
        same_text(&list[i].status, "failed")
    } else {
        false
    }
}

/// Takes note of what a transfer carries.
pub fn update_transfer_metadata(
    list: &mut Vec<TransferProgress>,
    transfer_id: &str,
    item_kind: &str,
    item_label: &str,
    item_summary: &str,
    item_id: &str,
    status: &str,
    now_ms: u64,
)
    ensures
        shown(final(list)@) == changed(
            shown(old(list)@),
            transfer_id@,
            |t: TransferView|
                with_metadata(
                    t,
                    item_kind@,
                    item_label@,
                    item_summary@,
                    item_id@,
                    status@,
                    now_ms,
                ),
        ),
{
    let ghost all = shown(list@);
    let i: usize = find_transfer(list, transfer_id);
    if i < list.len() {
        let mut entry = list[i].clone();
        entry.item_kind = item_kind.to_owned();
        entry.item_label = item_label.to_owned();
        entry.item_summary = item_summary.to_owned();
        entry.item_id = item_id.to_owned();
        entry.status = status.to_owned();
        entry.updated_at_ms = now_ms;
        assert(entry@ =~= with_metadata(
            all[i as int],
            item_kind@,
            item_label@,
            item_summary@,
            item_id@,
            status@,
            now_ms,
        ));
        list.set(i, entry);
        assert(shown(list@) =~= all.update(i as int, entry@));
    }
}

/// Sets the status of a transfer.
pub fn update_transfer_status(
    list: &mut Vec<TransferProgress>,
    transfer_id: &str,
    status: &str,
    error: Option<String>,
    now_ms: u64,
)
    ensures
        shown(final(list)@) == changed(
            shown(old(list)@),
            transfer_id@,
            |t: TransferView| with_status(t, status@, text_option(error), now_ms),
        ),
{
    let ghost all = shown(list@);
    let i: usize = find_transfer(list, transfer_id);
    if i < list.len() {
        let mut entry = list[i].clone();
        entry.status = status.to_owned();
        entry.error = error;
        entry.updated_at_ms = now_ms;
        assert(entry@ =~= with_status(all[i as int], status@, text_option(error), now_ms));
        list.set(i, entry);
        assert(shown(list@) =~= all.update(i as int, entry@));
    }
}

/// Marks a transfer as complete.
pub fn mark_transfer_completed(list: &mut Vec<TransferProgress>, transfer_id: &str, now_ms: u64)
    ensures
        shown(final(list)@) == changed(
            shown(old(list)@),
            transfer_id@,
            |t: TransferView| as_completed(t, now_ms),
        ),
{
    let ghost all = shown(list@);
    let i: usize = find_transfer(list, transfer_id);
    if i < list.len() {
        let mut entry = list[i].clone();
        entry.transferred_bytes = entry.total_bytes;
        entry.percent = 100;
        entry.status = "completed".to_owned();
        entry.error = None;
        entry.updated_at_ms = now_ms;
        assert(entry@ =~= as_completed(all[i as int], now_ms));
        list.set(i, entry);
        assert(shown(list@) =~= all.update(i as int, entry@));
    }
}

/// Marks a transfer as failed.
pub fn mark_transfer_failed(
    list: &mut Vec<TransferProgress>,
    transfer_id: &str,
    error: String,
    now_ms: u64,
)
    ensures
        shown(final(list)@) == changed(
            shown(old(list)@),
            transfer_id@,
            |t: TransferView| with_status(t, "failed"@, Some(error@), now_ms),
        ),
{
    update_transfer_status(list, transfer_id, "failed", Some(error), now_ms);
}

/// Tells whether any transfer is under way.
pub fn has_active_transfers(list: &Vec<TransferProgress>) -> (active: bool)
    ensures
        active == exists|i: int|
            0 <= i < list@.len() && is_active_status((#[trigger] shown(list@)[i]).status),
{
    let mut i: usize = 0;
    while i < list.len()
        invariant
            i <= list.len(),
            forall|j: int| 0 <= j < i ==> !is_active_status((#[trigger] shown(list@)[j]).status),
        decreases list.len() - i,
    {
        assert(shown(list@)[i as int] == list@[i as int]@);
        if is_active(&list[i].status) {
            return true;
        }
        i = i + 1;
    }
    false
}

/// The place of the first transfer that receives an item, or the length of the list.
pub open spec fn receiving_place(list: Seq<TransferView>, item_id: Seq<char>) -> int
    decreases list.len(),
{
    if list.len() == 0 || (list[0].direction == "receive"@ && list[0].item_id == item_id) {
        0
    } else {
        1 + receiving_place(list.skip(1), item_id)
    }
}

/// The identifier of the transfer that receives an item.
pub open spec fn receiving_id(list: Seq<TransferView>, item_id: Seq<char>) -> Option<Seq<char>> {
    let i = receiving_place(list, item_id);
    if i < list.len() {
        Some(list[i].id)
    } else {
        None
    }
}

/// Finds the transfer that receives an item.
pub fn find_receive_transfer_id(list: &Vec<TransferProgress>, item_id: &str) -> (id: Option<String>)
    ensures
        text_option(id) == receiving_id(shown(list@), item_id@),
{
    let ghost all = shown(list@);
    let mut i: usize = 0;
    assert(all.skip(0) =~= all);
    while i < list.len()
        invariant
            i <= list.len(),
            all == shown(list@),
            receiving_place(all, item_id@) == i + receiving_place(all.skip(i as int), item_id@),
        decreases list.len() - i,
    {
        assert(all.skip(i as int)[0] == list@[i as int]@);
        if same_text(&list[i].direction, "receive") && same_text(&list[i].item_id, item_id) {
            return Some(list[i].id.clone());
        }
        assert(all.skip(i as int).skip(1) =~= all.skip(i + 1));
        i = i + 1;
    }
    None
}

/// The identifier of the transfer that receives an item from a device.
pub open spec fn receive_transfer_id(source: Seq<char>, item_id: Seq<char>) -> Seq<char> {
    "recv:"@ + source + ":"@ + item_id
}

/// The identifier of the transfer that receives an item.
pub fn canonical_receive_transfer_id(item: &ClipboardItem) -> (id: String)
    ensures
        id@ == receive_transfer_id(item@.source_device_id, item@.id),
{
    receive_transfer_id_for(&item.source_device_id, &item.id)
}

/// The identifier of the transfer that receives an item from a device.
pub fn receive_transfer_id_for(source_device_id: &str, item_id: &str) -> (id: String)
    ensures
        id@ == receive_transfer_id(source_device_id@, item_id@),
{
    let mut id: String = "recv:".to_owned();
    id.append(source_device_id);
    id.append(":");
    id.append(item_id);
    id
}

/// The transfers to show, without those that are no longer shown.
pub fn current_transfers(list: &mut Vec<TransferProgress>, now_ms: u64) -> (shown_now: Vec<
    TransferProgress,
>)
    ensures
        shown(shown_now@) == kept(shown(old(list)@), now_ms),
        shown(final(list)@) == kept(shown(old(list)@), now_ms),
{
    prune_transfers(list, now_ms);
    let mut out: Vec<TransferProgress> = Vec::new();
    let mut i: usize = 0;
    while i < list.len()
        invariant
            i <= list.len(),
            shown(out@) =~= shown(list@).take(i as int),
        decreases list.len() - i,
    {
        let ghost before = out@;
        out.push(list[i].clone());
        assert(shown(out@) =~= shown(before).push(list@[i as int]@));
        i = i + 1;
    }
    assert(shown(list@).take(i as int) =~= shown(list@));
    out
}

/// However many transfers there are, no more than a fixed number is shown.
pub proof fn shown_transfers_are_bounded(list: Seq<TransferView>, t: TransferView, now_ms: u64)
    ensures
        upserted(list, t, now_ms).len() <= TRANSFER_HISTORY_LIMIT,
{
}

/// Pruning removes exactly the transfers that are neither under way nor
/// recent: a transfer under way always stays.
pub proof fn pruning_keeps_active_transfers(list: Seq<TransferView>, now_ms: u64, t: TransferView)
    ensures
        kept(list, now_ms).contains(t) <==> list.contains(t) && is_kept(t, now_ms),
        list.contains(t) && is_active_status(t.status) ==> kept(list, now_ms).contains(t),
{
    let pred = |u: TransferView| is_kept(u, now_ms);
    if kept(list, now_ms).contains(t) {
        list.lemma_filter_contains_rev(pred, t);
        let i = list.filter(pred).index_of(t);
        list.lemma_filter_pred(pred, i);
    }
    if list.contains(t) && is_kept(t, now_ms) {
        let i = list.index_of(t);
        list.lemma_filter_contains(pred, i);
    }
}

/// The first place of an identifier holds it, and no earlier place does.
pub proof fn place_is_the_first(list: Seq<TransferView>, id: Seq<char>)
    ensures
        0 <= place_of(list, id) <= list.len(),
        place_of(list, id) < list.len() ==> list[place_of(list, id)].id == id,
        forall|i: int| 0 <= i < place_of(list, id) ==> (#[trigger] list[i]).id != id,
    decreases list.len(),
{
    if list.len() > 0 && list[0].id != id {
        let rest = list.skip(1);
        place_is_the_first(rest, id);
        assert forall|i: int| 0 <= i < place_of(list, id) implies (#[trigger] list[i]).id != id by {
            if i > 0 {
                assert(rest[i - 1] == list[i]);
            }
        }
    }
}

/// A change reaches the transfer that goes by the identifier, where there is one, and leaves
/// all others as they are, where they are.
pub proof fn a_change_reaches_one_transfer(
    list: Seq<TransferView>,
    id: Seq<char>,
    change: spec_fn(TransferView) -> TransferView,
    i: int,
)
    requires
        0 <= i < list.len(),
        forall|j: int, k: int|
            0 <= j < k < list.len() ==> (#[trigger] list[j]).id != (#[trigger] list[k]).id,
    ensures
        changed(list, id, change).len() == list.len(),
        list[i].id == id ==> changed(list, id, change)[i] == change(list[i]),
        list[i].id != id ==> changed(list, id, change)[i] == list[i],
{
    place_is_the_first(list, id);
    let p = place_of(list, id);
    if list[i].id == id && p != i {
        assert(list[p].id != list[i].id);
    }
}

/// What is shown of a transfer that is complete, that failed, or that got on: a complete one
/// has all its bytes, shows 100 percent and no error; a status or an error touches nothing
/// else; progress never shows more than there is.
pub proof fn transfers_show_what_became_of_them(
    t: TransferView,
    status: Seq<char>,
    error: Option<Seq<char>>,
    transferred: u64,
    total: u64,
    now_ms: u64,
)
    ensures
        ({
            let done = as_completed(t, now_ms);
            &&& done.transferred_bytes == t.total_bytes
            &&& done.percent == 100
            &&& done.status == "completed"@
            &&& done.error is None
            &&& done.updated_at_ms == now_ms
            &&& done == TransferView {
                transferred_bytes: done.transferred_bytes,
                percent: done.percent,
                status: done.status,
                error: done.error,
                updated_at_ms: now_ms,
                ..t
            }
        }),
        ({
            let marked = with_status(t, status, error, now_ms);
            marked.status == status && marked.error == error && marked == TransferView {
                status: marked.status,
                error: marked.error,
                updated_at_ms: now_ms,
                ..t
            }
        }),
        ({
            let on = with_progress(t, transferred, total, now_ms);
            &&& on.total_bytes == total
            &&& transferred <= total ==> on.transferred_bytes == transferred
            &&& transferred > total ==> on.transferred_bytes == total
            &&& transferred == 0 ==> on.percent == 0
            &&& transferred >= total && 0 < total <= u64::MAX / 100 ==> on.percent == 100
            &&& on.status == t.status
            &&& on == TransferView {
                transferred_bytes: on.transferred_bytes,
                total_bytes: total,
                percent: on.percent,
                updated_at_ms: now_ms,
                ..t
            }
        }),
{
    let done = if transferred <= total { transferred } else { total };
    if 0 < total {
        metrics::percent_follows_progress(0, done, total);
    }
}

/// A transfer is under way while it is sent, received, queued, applied or tried again, and no
/// longer once it is complete or has failed.
pub proof fn transfers_under_way_are_active(status: Seq<char>)
    ensures
        is_active_status("sending"@),
        is_active_status("receiving"@),
        is_active_status("queued"@),
        is_active_status("applying"@),
        is_active_status("retrying"@),
        !is_active_status("completed"@),
        !is_active_status("failed"@),
        is_active_status(status) ==> status.len() >= 6,
{
    reveal_strlit("sending");
    reveal_strlit("receiving");
    reveal_strlit("queued");
    reveal_strlit("applying");
    reveal_strlit("retrying");
    reveal_strlit("completed");
    reveal_strlit("failed");
    assert("failed"@[0] == 'f');
    assert("queued"@[0] == 'q');
    assert("completed"@[0] == 'c');
    assert("receiving"@[0] == 'r');
}

/// A transfer is shown for fifteen seconds after its last change, and as long as it is under
/// way.
pub proof fn transfers_are_shown_for_fifteen_seconds(t: TransferView, now_ms: u64)
    ensures
        t.updated_at_ms + 15_000 >= now_ms ==> is_kept(t, now_ms),
        t.updated_at_ms + 15_000 < now_ms && (t.status == "completed"@ || t.status == "failed"@)
            ==> !is_kept(t, now_ms),
        is_active_status(t.status) ==> is_kept(t, now_ms),
{
    transfers_under_way_are_active(t.status);
}

proof fn placed_holds(list: Seq<TransferView>, t: TransferView, u: TransferView)
    ensures
        placed(list, t).len() == list.len() + 1,
        placed(list, t).contains(u) <==> list.contains(u) || t == u,
    decreases list.len(),
{
    if list.len() == 0 || list.last().updated_at_ms >= t.updated_at_ms {
        let after = list.push(t);
        assert(after[list.len() as int] == t);
        if list.contains(u) {
            assert(after[list.index_of(u)] == u);
        }
    } else {
        let rest = list.drop_last();
        placed_holds(rest, t, u);
        let before = placed(rest, t);
        let after = placed(list, t);
        assert(after[before.len() as int] == list.last());
        assert(list[list.len() - 1] == list.last());
        if before.contains(u) {
            assert(after[before.index_of(u)] == u);
        }
        if after.contains(u) {
            let k = after.index_of(u);
            if k < before.len() {
                assert(before[k] == u);
            }
        }
        if rest.contains(u) {
            assert(list[rest.index_of(u)] == u);
        }
        if list.contains(u) {
            let k = list.index_of(u);
            if k < rest.len() {
                assert(rest[k] == u);
            }
        }
    }
}

proof fn by_recency_holds(list: Seq<TransferView>, u: TransferView)
    ensures
        by_recency(list).len() == list.len(),
        by_recency(list).contains(u) <==> list.contains(u),
    decreases list.len(),
{
    if list.len() > 0 {
        let rest = list.drop_last();
        by_recency_holds(rest, u);
        placed_holds(by_recency(rest), list.last(), u);
        assert(list[list.len() - 1] == list.last());
        if rest.contains(u) {
            assert(list[rest.index_of(u)] == u);
        }
        if list.contains(u) {
            let k = list.index_of(u);
            if k < rest.len() {
                assert(rest[k] == u);
            }
        }
    }
}

/// From the latest change to the earliest.
spec fn latest_first(list: Seq<TransferView>) -> bool {
    forall|i: int, j: int|
        0 <= i < j < list.len() ==> (#[trigger] list[i]).updated_at_ms >= (
        #[trigger] list[j]).updated_at_ms
}

proof fn placed_is_ordered(list: Seq<TransferView>, t: TransferView)
    requires
        latest_first(list),
    ensures
        latest_first(placed(list, t)),
        placed(list, t).len() == list.len() + 1,
        forall|i: int|
            0 <= i < placed(list, t).len() ==> (#[trigger] placed(list, t)[i]) == t || list.contains(
                placed(list, t)[i],
            ),
    decreases list.len(),
{
    if list.len() > 0 && list.last().updated_at_ms < t.updated_at_ms {
        let rest = list.drop_last();
        placed_is_ordered(rest, t);
        let before = placed(rest, t);
        let after = placed(list, t);
        assert forall|i: int| 0 <= i < before.len() implies (
        #[trigger] before[i]).updated_at_ms >= list.last().updated_at_ms && (before[i] == t
            || list.contains(before[i])) by {
            if before[i] != t {
                let k = rest.index_of(before[i]);
                assert(list[k].updated_at_ms >= list[list.len() - 1].updated_at_ms);
            }
        }
        assert forall|i: int, j: int| 0 <= i < j < after.len() implies (
        #[trigger] after[i]).updated_at_ms >= (#[trigger] after[j]).updated_at_ms by {
            assert(after[i] == before[i]);
            if j < before.len() {
                assert(after[j] == before[j]);
            }
        }
        assert forall|i: int| 0 <= i < after.len() implies (#[trigger] after[i]) == t
            || list.contains(after[i]) by {
            if i < before.len() {
                assert(after[i] == before[i]);
            } else {
                assert(after[i] == list[list.len() - 1]);
            }
        }
    }
}

proof fn by_recency_is_ordered(list: Seq<TransferView>)
    ensures
        latest_first(by_recency(list)),
    decreases list.len(),
{
    if list.len() > 0 {
        by_recency_is_ordered(list.drop_last());
        placed_is_ordered(by_recency(list.drop_last()), list.last());
    }
}

/// The transfers are shown from the latest change to the earliest.
pub proof fn latest_transfers_come_first(
    list: Seq<TransferView>,
    t: TransferView,
    now_ms: u64,
    i: int,
    j: int,
)
    requires
        0 <= i < j < upserted(list, t, now_ms).len(),
    ensures
        upserted(list, t, now_ms)[i].updated_at_ms >= upserted(list, t, now_ms)[j].updated_at_ms,
{
    let old_list = kept(list, now_ms);
    let p = place_of(old_list, t.id);
    let all = if p < old_list.len() {
        old_list.update(p, t)
    } else {
        old_list.push(t)
    };
    by_recency_is_ordered(all);
    assert(upserted(list, t, now_ms)[i] == by_recency(all)[i]);
    assert(upserted(list, t, now_ms)[j] == by_recency(all)[j]);
}

/// As long as fewer than 24 transfers are shown, a transfer that is added is shown, and so is
/// every other one that was not left out for its age; one with the same identifier gives way.
pub proof fn added_transfers_are_shown(
    list: Seq<TransferView>,
    t: TransferView,
    now_ms: u64,
    u: TransferView,
)
    requires
        list.len() < 24,
        u.id != t.id,
    ensures
        upserted(list, t, now_ms).contains(t),
        upserted(list, t, now_ms).contains(u) <==> list.contains(u) && is_kept(u, now_ms),
{
    let pred = |u: TransferView| is_kept(u, now_ms);
    let old_list = kept(list, now_ms);
    let p = place_of(old_list, t.id);
    let all = if p < old_list.len() {
        old_list.update(p, t)
    } else {
        old_list.push(t)
    };
    list.lemma_filter_len(pred);
    place_is_the_first(old_list, t.id);
    pruning_keeps_active_transfers(list, now_ms, u);
    by_recency_holds(all, t);
    by_recency_holds(all, u);
    if p < old_list.len() {
        assert(all[p] == t);
    } else {
        assert(all[old_list.len() as int] == t);
    }
    if old_list.contains(u) {
        let k = old_list.index_of(u);
        assert(all[k] == u);
    }
    if all.contains(u) {
        let k = all.index_of(u);
        assert(old_list[k] == u);
    }
}

/// The transfer that receives an item is the first one that receives at all and carries that
/// item.
pub proof fn items_are_received_by_their_transfer(list: Seq<TransferView>, item_id: Seq<char>, i: int)
    requires
        0 <= i < list.len(),
        list[i].direction == "receive"@,
        list[i].item_id == item_id,
        forall|j: int|
            0 <= j < i && (#[trigger] list[j]).item_id == item_id ==> list[j].direction
                != "receive"@,
    ensures
        receiving_id(list, item_id) == Some(list[i].id),
{
    first_receiving(list, item_id, i);
}

proof fn first_receiving(list: Seq<TransferView>, item_id: Seq<char>, i: int)
    requires
        0 <= i < list.len(),
        list[i].direction == "receive"@,
        list[i].item_id == item_id,
        forall|j: int|
            0 <= j < i && (#[trigger] list[j]).item_id == item_id ==> list[j].direction
                != "receive"@,
    ensures
        receiving_place(list, item_id) == i,
    decreases i,
{
    if i > 0 {
        let rest = list.skip(1);
        assert forall|j: int| 0 <= j < i - 1 && (#[trigger] rest[j]).item_id == item_id implies rest[
        j].direction != "receive"@ by {
            assert(rest[j] == list[j + 1]);
        }
        assert(rest[i - 1] == list[i]);
        assert(list[0].item_id == item_id ==> list[0].direction != "receive"@);
        first_receiving(rest, item_id, i - 1);
    }
}

/// The transfer that changed last is always shown, first of all, however many there are.
pub proof fn the_last_change_is_shown_first(list: Seq<TransferView>, t: TransferView, now_ms: u64)
    requires
        forall|i: int|
            0 <= i < list.len() ==> (#[trigger] list[i]).updated_at_ms < t.updated_at_ms,
    ensures
        upserted(list, t, now_ms).len() > 0,
        upserted(list, t, now_ms)[0] == t,
{
    let pred = |u: TransferView| is_kept(u, now_ms);
    let old_list = kept(list, now_ms);
    let p = place_of(old_list, t.id);
    place_is_the_first(old_list, t.id);
    let all = if p < old_list.len() {
        old_list.update(p, t)
    } else {
        old_list.push(t)
    };
    let sorted = by_recency(all);
    by_recency_holds(all, t);
    by_recency_is_ordered(all);
    assert(all.contains(t)) by {
        if p < old_list.len() {
            assert(all[p] == t);
        } else {
            assert(all[old_list.len() as int] == t);
        }
    }
    let first = sorted[0];
    by_recency_holds(all, first);
    assert(sorted.contains(first));
    let m = sorted.index_of(t);
    assert(sorted[0].updated_at_ms >= sorted[m].updated_at_ms);
    if first != t {
        let k = all.index_of(first);
        assert(old_list[k] == first);
        assert(old_list.contains(first));
        list.lemma_filter_contains_rev(pred, first);
        let q = list.index_of(first);
        assert(list[q].updated_at_ms < t.updated_at_ms);
    }
}

} // verus!
