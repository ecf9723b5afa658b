//! Items that wait to be sent or applied.

use crate::protocol::{clone_texts, ClipboardItem, ClipboardPayload, ItemView, PayloadView};
use crate::protocol;
use vstd::prelude::*;

verus! {

/// The pause before the first retry; each further one is longer by as much.
pub const QUEUE_RETRY_BASE_MS: u64 = 30;

/// The longest pause before a retry.
pub const QUEUE_RETRY_MAX_MS: u64 = 500;

/// How often an item is tried again.
pub const QUEUE_MAX_RETRIES: u32 = 24;

/// How long after it was queued an item is tried again.
pub const QUEUE_MAX_AGE_MS: u64 = 30_000;

/// An item that waits for its turn.
#[derive(Debug)]
pub struct QueueEntry {
    pub item: ClipboardItem,
    pub attempts: u32,
    pub queued_at_ms: u64,
    pub pending_peers: Option<Vec<String>>,
    pub next_attempt_at_ms: u64,
}

/// How urgent a kind of content is.
#[derive(Debug, Clone, Copy, PartialEq, Eq, Structural)]
pub enum QueueLane {
    Realtime,
    Visual,
    Bulk,
}

/// A waiting item as plain values.
#[verifier::ext_equal]
pub struct EntryView {
    pub item: ItemView,
    pub attempts: u32,
    pub queued_at_ms: u64,
    pub pending_peers: Option<Seq<Seq<char>>>,
    pub next_attempt_at_ms: u64,
}

impl View for QueueEntry {
    type V = EntryView;

    open spec fn view(&self) -> EntryView {
        EntryView {
            item: self.item@,
            attempts: self.attempts,
            queued_at_ms: self.queued_at_ms,
            pending_peers: match self.pending_peers {
                Some(peers) => Some(protocol::texts(peers@)),
                None => None,
            },
            next_attempt_at_ms: self.next_attempt_at_ms,
        }
    }
}

/// A queue as plain values.
pub open spec fn entries(queue: Seq<QueueEntry>) -> Seq<EntryView> {
    queue.map_values(|e: QueueEntry| e@)
}

/// How urgent a content is.
pub open spec fn lane(payload: PayloadView) -> QueueLane {
    match payload {
        PayloadView::Text(_) => QueueLane::Realtime,
        PayloadView::Html(_) => QueueLane::Realtime,
        PayloadView::Rtf(_) => QueueLane::Realtime,
        PayloadView::ImagePng(_) => QueueLane::Visual,
        PayloadView::FileBundleDir(_, _) => QueueLane::Bulk,
        PayloadView::FileList(_, _, _) => QueueLane::Bulk,
    }
}

/// The place of a lane, the most urgent first.
pub open spec fn lane_rank(lane: QueueLane) -> int {
    match lane {
        QueueLane::Realtime => 0,
        QueueLane::Visual => 1,
        QueueLane::Bulk => 2,
    }
}

/// `a` is sent before `b`: new items before retries, then by lane, then the
/// newer event, the one with fewer attempts, the one that was queued later.
pub open spec fn goes_first(a: EntryView, b: EntryView) -> bool {
    if (a.attempts == 0) != (b.attempts == 0) {
        a.attempts == 0
    } else if lane(a.item.payload) != lane(b.item.payload) {
        lane_rank(lane(a.item.payload)) < lane_rank(lane(b.item.payload))
    } else if a.item.created_at_us != b.item.created_at_us {
        a.item.created_at_us > b.item.created_at_us
    } else if a.attempts != b.attempts {
        a.attempts < b.attempts
    } else {
        a.queued_at_ms > b.queued_at_ms
    }
}

/// Entry `i` of a queue may be sent now, on one of the given lanes.
pub open spec fn is_ready(queue: Seq<EntryView>, lanes: Seq<QueueLane>, now_ms: u64, i: int) -> bool {
    queue[i].next_attempt_at_ms <= now_ms && lanes.contains(lane(queue[i].item.payload))
}

/// The place of the first entry that is due, or the length of the queue.
pub open spec fn first_due(queue: Seq<EntryView>, now_ms: u64) -> int
    decreases queue.len(),
{
    if queue.len() == 0 || queue[0].next_attempt_at_ms <= now_ms {
        0
    } else {
        1 + first_due(queue.skip(1), now_ms)
    }
}

/// Entry `i` is the one to send next: it is ready, none that is ready goes
/// before it, and of equals it is the last.
pub open spec fn is_next(queue: Seq<EntryView>, lanes: Seq<QueueLane>, now_ms: u64, i: int) -> bool {
    &&& 0 <= i < queue.len()
    &&& is_ready(queue, lanes, now_ms, i)
    &&& forall|j: int|
        0 <= j < queue.len() && #[trigger] is_ready(queue, lanes, now_ms, j) ==> !goes_first(
            queue[j],
            queue[i],
        ) && (j > i ==> goes_first(queue[i], queue[j]))
}

/// The pause before retry number `attempts`.
pub open spec fn retry_delay(attempts: int) -> int {
    if QUEUE_RETRY_BASE_MS * attempts <= QUEUE_RETRY_MAX_MS {
        QUEUE_RETRY_BASE_MS * attempts
    } else {
        QUEUE_RETRY_MAX_MS as int
    }
}

/// A failed entry is tried again.
pub open spec fn may_retry(entry: EntryView, now_ms: u64) -> bool {
    entry.attempts < QUEUE_MAX_RETRIES && now_ms - entry.queued_at_ms < QUEUE_MAX_AGE_MS
}

/// A failed entry that waits for its retry.
pub open spec fn retried(entry: EntryView, now_ms: u64) -> EntryView {
    EntryView {
        attempts: (entry.attempts + 1) as u32,
        next_attempt_at_ms: if now_ms + retry_delay(entry.attempts + 1) > u64::MAX {
            u64::MAX
        } else {
            (now_ms + retry_delay(entry.attempts + 1)) as u64
        },
        ..entry
    }
}

/// A new entry for an item.
pub open spec fn fresh_entry(item: ItemView, now_ms: u64) -> EntryView {
    EntryView {
        item,
        attempts: 0,
        queued_at_ms: now_ms,
        pending_peers: None,
        next_attempt_at_ms: now_ms,
    }
}

impl Clone for QueueEntry {
    fn clone(&self) -> (copy: Self)
        ensures
            copy@ == self@,
    {
        QueueEntry {
            item: self.item.clone(),
            attempts: self.attempts,
            queued_at_ms: self.queued_at_ms,
            pending_peers: match &self.pending_peers {
                Some(peers) => Some(clone_texts(peers)),
                None => None,
            },
            next_attempt_at_ms: self.next_attempt_at_ms,
        }
    }
}

/// Takes the first entry that is due.
pub fn pop_ready_queue_entry(queue: &mut Vec<QueueEntry>, now_ms: u64) -> (entry: Option<
    QueueEntry,
>)
    ensures
        ({
            let before = entries(old(queue)@);
            let i = first_due(before, now_ms);
            match entry {
                Some(e) => 0 <= i < before.len() && e@ == before[i] && entries(final(queue)@)
                    == before.remove(i),
                None => i == before.len() && final(queue)@ == old(queue)@,
            }
        }),
{
    let ghost before = entries(queue@);
    let mut i: usize = 0;
    assert(before.skip(0) =~= before);
    while i < queue.len() && queue[i].next_attempt_at_ms > now_ms
        invariant
            i <= queue.len(),
            before == entries(queue@),
            queue@ == old(queue)@,
            first_due(before, now_ms) == i + first_due(before.skip(i as int), now_ms),
        decreases queue.len() - i,
    {
        assert(before.skip(i as int)[0] == before[i as int]);
        assert(before.skip(i as int).skip(1) =~= before.skip(i + 1));
        i = i + 1;
    }
    if i == queue.len() {
        return None;
    }
    assert(before.skip(i as int)[0] == before[i as int]);
    let entry = queue.remove(i);
    assert(entries(queue@) =~= before.remove(i as int));
    Some(entry)
}

/// How urgent an entry is.
pub fn outbound_lane(entry: &QueueEntry) -> (l: QueueLane)
    ensures
        l == lane(entry@.item.payload),
{
    match &entry.item.payload {
        ClipboardPayload::Text { .. } => QueueLane::Realtime,
        ClipboardPayload::Html { .. } => QueueLane::Realtime,
        ClipboardPayload::Rtf { .. } => QueueLane::Realtime,
        ClipboardPayload::ImagePng { .. } => QueueLane::Visual,
        ClipboardPayload::FileBundleDir { .. } => QueueLane::Bulk,
        ClipboardPayload::FileList { .. } => QueueLane::Bulk,
    }
}

fn rank_of(l: QueueLane) -> (rank: u8)
    ensures
        rank == lane_rank(l),
{
    match l {
        QueueLane::Realtime => 0,
        QueueLane::Visual => 1,
        QueueLane::Bulk => 2,
    }
}

fn is_first(a: &QueueEntry, b: &QueueEntry) -> (first: bool)
    ensures
        first == goes_first(a@, b@),
{
    let rank_a: u8 = rank_of(outbound_lane(a));
    let rank_b: u8 = rank_of(outbound_lane(b));
    if (a.attempts == 0) != (b.attempts == 0) {
        a.attempts == 0
    } else if rank_a != rank_b {
        rank_a < rank_b
    } else if a.item.created_at_us != b.item.created_at_us {
        a.item.created_at_us > b.item.created_at_us
    } else if a.attempts != b.attempts {
        a.attempts < b.attempts
    } else {
        a.queued_at_ms > b.queued_at_ms
    }
}

fn holds_lane(lanes: &[QueueLane], l: QueueLane) -> (found: bool)
    ensures
        found == lanes@.contains(l),
{
    let mut i: usize = 0;
    while i < lanes.len()
        invariant
            i <= lanes.len(),
            forall|j: int| 0 <= j < i ==> lanes@[j] != l,
        decreases lanes.len() - i,
    {
        if lanes[i] == l {
            return true;
        }
        i = i + 1;
    }
    false
}

fn is_ready_entry(entry: &QueueEntry, lanes: &[QueueLane], now_ms: u64) -> (ready: bool)
    ensures
        ready == (entry@.next_attempt_at_ms <= now_ms && lanes@.contains(
            lane(entry@.item.payload),
        )),
{
    entry.next_attempt_at_ms <= now_ms && holds_lane(lanes, outbound_lane(entry))
}

/// The order of sending is one: no entry goes before itself, no two go before each other, and
/// both going first and not going first carry over from entry to entry.
pub proof fn sending_order_is_transitive(a: EntryView, b: EntryView, c: EntryView)
    ensures
        !(goes_first(a, b) && goes_first(b, a)),
        !goes_first(a, a),
        goes_first(a, b) && goes_first(b, c) ==> goes_first(a, c),
        !goes_first(a, b) && !goes_first(b, c) ==> !goes_first(a, c),
{
}

/// Takes the entry to send next, on one of the given lanes.
pub fn pop_ready_outbound_entry(
    queue: &mut Vec<QueueEntry>,
    allowed_lanes: &[QueueLane],
    now_ms: u64,
) -> (entry: Option<QueueEntry>)
    ensures
        ({
            let before = entries(old(queue)@);
            match entry {
                Some(e) => exists|i: int| #[trigger]
                    is_next(before, allowed_lanes@, now_ms, i) && e@ == before[i] && entries(
                        final(queue)@,
                    ) == before.remove(i),
                None => final(queue)@ == old(queue)@ && forall|i: int|
                    0 <= i < before.len() ==> !#[trigger] is_ready(
                        before,
                        allowed_lanes@,
                        now_ms,
                        i,
                    ),
            }
        }),
{
    let ghost before = entries(queue@);
    let ghost lanes = allowed_lanes@;
    let mut best: Option<usize> = None;
    let mut i: usize = 0;
    while i < queue.len()
        invariant
            i <= queue.len(),
            queue@ == old(queue)@,
            before == entries(queue@),
            lanes == allowed_lanes@,
            match best {
                Some(b) => {
                    &&& b < i
                    &&& is_ready(before, lanes, now_ms, b as int)
                    &&& forall|j: int|
                        0 <= j < i && #[trigger] is_ready(before, lanes, now_ms, j) ==> !goes_first(
                            before[j],
                            before[b as int],
                        ) && (j > b ==> goes_first(before[b as int], before[j]))
                },
                None => forall|j: int| 0 <= j < i ==> !#[trigger] is_ready(before, lanes, now_ms, j),
            },
        decreases queue.len() - i,
    {
        assert(before[i as int] == queue@[i as int]@);
        let ready = is_ready_entry(&queue[i], allowed_lanes, now_ms);
        assert(ready == is_ready(before, lanes, now_ms, i as int));
        if ready {
            match best {
                None => {
                    proof {
                        sending_order_is_transitive(
                            before[i as int],
                            before[i as int],
                            before[i as int],
                        );
                    }
                    best = Some(i);
                },
                Some(b) => {
                    assert(before[b as int] == queue@[b as int]@);
                    if !is_first(&queue[b], &queue[i]) {
                        proof {
                            assert forall|j: int|
                                0 <= j <= i && #[trigger] is_ready(
                                    before,
                                    lanes,
                                    now_ms,
                                    j,
                                ) implies !goes_first(before[j], before[i as int]) by {
                                sending_order_is_transitive(
                                    before[j],
                                    before[b as int],
                                    before[i as int],
                                );
                            }
                        }
                        best = Some(i);
                    } else {
                        proof {
                            sending_order_is_transitive(
                                before[b as int],
                                before[i as int],
                                before[b as int],
                            );
                        }
                    }
                },
            }
        }
        i = i + 1;
    }
    match best {
        None => None,
        Some(b) => {
            assert(is_next(before, lanes, now_ms, b as int));
            let entry = queue.remove(b);
            assert(entries(queue@) =~= before.remove(b as int));
            Some(entry)
        },
    }
}

/// Tells whether an entry can be sent now, on one of the given lanes.
pub fn has_ready_outbound_lane(queue: &Vec<QueueEntry>, lanes: &[QueueLane], now_ms: u64) -> (ready:
    bool)
    ensures
        ready == exists|i: int|
            0 <= i < queue@.len() && #[trigger] is_ready(entries(queue@), lanes@, now_ms, i),
{
    let mut i: usize = 0;
    while i < queue.len()
        invariant
            i <= queue.len(),
            forall|j: int| 0 <= j < i ==> !#[trigger] is_ready(entries(queue@), lanes@, now_ms, j),
        decreases queue.len() - i,
    {
        assert(entries(queue@)[i as int] == queue@[i as int]@);
        if is_ready_entry(&queue[i], lanes, now_ms) {
            assert(is_ready(entries(queue@), lanes@, now_ms, i as int));
            return true;
        }
        assert(!is_ready(entries(queue@), lanes@, now_ms, i as int));
        i = i + 1;
    }
    false
}

/// Puts an entry at the end of a queue.
pub fn push_queue_entry(queue: &mut Vec<QueueEntry>, entry: QueueEntry)
    ensures
        entries(final(queue)@) == entries(old(queue)@).push(entry@),
{
    queue.push(entry);
    assert(entries(queue@) =~= entries(old(queue)@).push(entry@));
}

/// Schedules the next try of a failed entry, unless it has been tried too often
/// or for too long.
pub fn schedule_retry(entry: &mut QueueEntry, now_ms: u64) -> (scheduled: bool)
    ensures
        scheduled == may_retry(old(entry)@, now_ms),
        final(entry)@ == if scheduled {
            retried(old(entry)@, now_ms)
        } else {
            old(entry)@
        },
{
    if entry.attempts >= QUEUE_MAX_RETRIES {
        return false;
    }
    if now_ms.saturating_sub(entry.queued_at_ms) >= QUEUE_MAX_AGE_MS {
        return false;
    }
    entry.attempts = entry.attempts + 1;
    let linear: u64 = QUEUE_RETRY_BASE_MS * entry.attempts as u64;
    let delay: u64 = if linear <= QUEUE_RETRY_MAX_MS {
        linear
    } else {
        QUEUE_RETRY_MAX_MS
    };
    entry.next_attempt_at_ms = now_ms.saturating_add(delay);
    true
}

/// A new entry for an item.
pub fn new_queue_entry(item: ClipboardItem, now_ms: u64) -> (entry: QueueEntry)
    ensures
        entry@ == fresh_entry(item@, now_ms),
{
    QueueEntry {
        item,
        attempts: 0,
        queued_at_ms: now_ms,
        pending_peers: None,
        next_attempt_at_ms: now_ms,
    }
}

/// All pauses before the first `attempts` retries together.
pub open spec fn total_delay(attempts: nat) -> int
    decreases attempts,
{
    if attempts == 0 {
        0
    } else {
        total_delay((attempts - 1) as nat) + retry_delay(attempts as int)
    }
}

/// The pauses before all retries take a little over eight seconds, well below
/// the age at which an item is given up.
pub proof fn retries_take_eight_seconds()
    ensures
        total_delay(QUEUE_MAX_RETRIES as nat) == 8_080,
        total_delay(QUEUE_MAX_RETRIES as nat) < QUEUE_MAX_AGE_MS,
{
    reveal_with_fuel(total_delay, 25);
}

/// A retry never brings an item back before its pause of 30 to 500
/// milliseconds is over, and it leaves the item itself as it is.
pub proof fn retry_waits_and_keeps_the_item(entry: EntryView, now_ms: u64)
    requires
        may_retry(entry, now_ms),
        now_ms <= u64::MAX - QUEUE_RETRY_MAX_MS,
    ensures
        now_ms + QUEUE_RETRY_BASE_MS <= retried(entry, now_ms).next_attempt_at_ms <= now_ms
            + QUEUE_RETRY_MAX_MS,
        retried(entry, now_ms).attempts == entry.attempts + 1,
        retried(entry, now_ms).attempts <= QUEUE_MAX_RETRIES,
        retried(entry, now_ms).item == entry.item,
        retried(entry, now_ms).queued_at_ms == entry.queued_at_ms,
        retried(entry, now_ms).pending_peers == entry.pending_peers,
{
}

/// Only one entry is the one to send next.
pub proof fn next_entry_is_unique(
    queue: Seq<EntryView>,
    lanes: Seq<QueueLane>,
    now_ms: u64,
    i: int,
    j: int,
)
    requires
        is_next(queue, lanes, now_ms, i),
        is_next(queue, lanes, now_ms, j),
    ensures
        i == j,
{
    assert(is_ready(queue, lanes, now_ms, i));
    assert(is_ready(queue, lanes, now_ms, j));
}

/// A failed item is tried again exactly if it was tried again less than 24 times and was
/// queued less than 30 seconds ago.
pub proof fn items_are_tried_again_for_thirty_seconds(entry: EntryView, now_ms: u64)
    ensures
        may_retry(entry, now_ms) <==> entry.attempts < 24 && now_ms < entry.queued_at_ms + 30_000,
{
}

/// The pause before a retry is 30 milliseconds for each retry so far, this one counted, and
/// half a second at most; nothing else of the entry changes but the count.
pub proof fn pauses_grow_up_to_half_a_second(entry: EntryView, now_ms: u64)
    requires
        may_retry(entry, now_ms),
        now_ms <= u64::MAX - 500,
    ensures
        ({
            let after = retried(entry, now_ms);
            &&& entry.attempts < 16 ==> after.next_attempt_at_ms == now_ms + 30 * (entry.attempts
                + 1)
            &&& entry.attempts >= 16 ==> after.next_attempt_at_ms == now_ms + 500
            &&& after.attempts == entry.attempts + 1
            &&& after == EntryView {
                attempts: after.attempts,
                next_attempt_at_ms: after.next_attempt_at_ms,
                ..entry
            }
        }),
{
}

/// Texts, rich texts among them, are more urgent than images, and images more urgent than
/// files.
pub proof fn texts_before_images_before_files(payload: PayloadView)
    ensures
        lane(payload) == (if payload is Text || payload is Html || payload is Rtf {
            QueueLane::Realtime
        } else if payload is ImagePng {
            QueueLane::Visual
        } else {
            QueueLane::Bulk
        }),
        lane_rank(QueueLane::Realtime) < lane_rank(QueueLane::Visual),
        lane_rank(QueueLane::Visual) < lane_rank(QueueLane::Bulk),
{
}

/// A new item goes before any that failed. Of two new ones, or of two that failed, the more
/// urgent goes first, and of two of one lane the one that was copied later.
pub proof fn new_and_urgent_items_go_first(a: EntryView, b: EntryView)
    ensures
        a.attempts == 0 && b.attempts > 0 ==> goes_first(a, b) && !goes_first(b, a),
        (a.attempts == 0 <==> b.attempts == 0) && lane_rank(lane(a.item.payload)) < lane_rank(
            lane(b.item.payload),
        ) ==> goes_first(a, b) && !goes_first(b, a),
        (a.attempts == 0 <==> b.attempts == 0) && lane(a.item.payload) == lane(b.item.payload)
            && a.item.created_at_us > b.item.created_at_us ==> goes_first(a, b) && !goes_first(b, a),
        (a.attempts == 0 <==> b.attempts == 0) && lane(a.item.payload) == lane(b.item.payload)
            && a.item.created_at_us == b.item.created_at_us && a.attempts < b.attempts
            ==> goes_first(a, b) && !goes_first(b, a),
        lane(a.item.payload) == lane(b.item.payload) && a.item.created_at_us
            == b.item.created_at_us && a.attempts == b.attempts && a.queued_at_ms > b.queued_at_ms
            ==> goes_first(a, b) && !goes_first(b, a),
{
}

/// An entry may be sent exactly if its time has come and its lane is served.
pub proof fn entries_are_ready_when_due(
    queue: Seq<EntryView>,
    lanes: Seq<QueueLane>,
    now_ms: u64,
    i: int,
)
    requires
        0 <= i < queue.len(),
    ensures
        is_ready(queue, lanes, now_ms, i) <==> queue[i].next_attempt_at_ms <= now_ms
            && lanes.contains(lane(queue[i].item.payload)),
{
}

proof fn best_so_far(queue: Seq<EntryView>, lanes: Seq<QueueLane>, now_ms: u64, n: int) -> (best: int)
    requires
        0 < n <= queue.len(),
        exists|i: int| 0 <= i < n && #[trigger] is_ready(queue, lanes, now_ms, i),
    ensures
        0 <= best < n,
        is_ready(queue, lanes, now_ms, best),
        forall|j: int|
            0 <= j < n && #[trigger] is_ready(queue, lanes, now_ms, j) ==> !goes_first(
                queue[j],
                queue[best],
            ) && (j > best ==> goes_first(queue[best], queue[j])),
    decreases n,
{
    if exists|i: int| 0 <= i < n - 1 && #[trigger] is_ready(queue, lanes, now_ms, i) {
        let best = best_so_far(queue, lanes, now_ms, n - 1);
        if is_ready(queue, lanes, now_ms, n - 1) && !goes_first(queue[best], queue[n - 1]) {
            assert forall|j: int| 0 <= j < n && #[trigger] is_ready(queue, lanes, now_ms, j) implies
                !goes_first(queue[j], queue[n - 1]) by {
                sending_order_is_transitive(queue[j], queue[best], queue[n - 1]);
            }
            n - 1
        } else {
            sending_order_is_transitive(queue[best], queue[n - 1], queue[best]);
            best
        }
    } else {
        sending_order_is_transitive(queue[n - 1], queue[n - 1], queue[n - 1]);
        n - 1
    }
}

/// As long as any entry is due on a lane that is served, there is one to send next.
pub proof fn due_entries_are_sent(
    queue: Seq<EntryView>,
    lanes: Seq<QueueLane>,
    now_ms: u64,
    i: int,
)
    requires
        0 <= i < queue.len(),
        queue[i].next_attempt_at_ms <= now_ms,
        lanes.contains(lane(queue[i].item.payload)),
    ensures
        exists|k: int| #[trigger] is_next(queue, lanes, now_ms, k),
{
    assert(is_ready(queue, lanes, now_ms, i));
    let k = best_so_far(queue, lanes, now_ms, queue.len() as int);
    assert(is_next(queue, lanes, now_ms, k));
}

/// What is applied next is due, and everything before it in the queue is not; if nothing
/// is applied, nothing is due.
pub proof fn first_due_entry_is_applied(queue: Seq<EntryView>, now_ms: u64)
    ensures
        0 <= first_due(queue, now_ms) <= queue.len(),
        first_due(queue, now_ms) < queue.len() ==> queue[first_due(
            queue,
            now_ms,
        )].next_attempt_at_ms <= now_ms,
        forall|i: int|
            0 <= i < first_due(queue, now_ms) ==> (#[trigger] queue[i]).next_attempt_at_ms > now_ms,
    decreases queue.len(),
{
    if queue.len() > 0 && queue[0].next_attempt_at_ms > now_ms {
        let rest = queue.skip(1);
        first_due_entry_is_applied(rest, now_ms);
        assert forall|i: int| 0 <= i < first_due(queue, now_ms) implies (
        #[trigger] queue[i]).next_attempt_at_ms > now_ms by {
            if i > 0 {
                assert(rest[i - 1] == queue[i]);
            }
        }
    }
}

/// A new entry is due at once, was never tried, and may go to any peer.
pub proof fn new_entries_are_due_at_once(item: ItemView, now_ms: u64)
    ensures
        ({
            let e = fresh_entry(item, now_ms);
            &&& e.item == item
            &&& e.attempts == 0
            &&& e.queued_at_ms == now_ms
            &&& e.next_attempt_at_ms == now_ms
            &&& e.pending_peers is None
            &&& may_retry(e, now_ms)
        }),
{
}

/// The entry that is sent next is due and its lane is served, and none that is due on a lane that
/// is served goes before it; of equals it is the one that was queued last.
pub proof fn the_most_urgent_entry_is_next(
    queue: Seq<EntryView>,
    lanes: Seq<QueueLane>,
    now_ms: u64,
    i: int,
    j: int,
)
    requires
        is_next(queue, lanes, now_ms, i),
        0 <= j < queue.len(),
        queue[j].next_attempt_at_ms <= now_ms,
        lanes.contains(lane(queue[j].item.payload)),
    ensures
        0 <= i < queue.len(),
        queue[i].next_attempt_at_ms <= now_ms,
        lanes.contains(lane(queue[i].item.payload)),
        !goes_first(queue[j], queue[i]),
        !goes_first(queue[i], queue[j]) ==> j <= i,
        queue[j].attempts == 0 ==> queue[i].attempts == 0,
{
    assert(is_ready(queue, lanes, now_ms, j));
}

} // verus!
