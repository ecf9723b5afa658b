//! What keeps a clipboard content from going round in circles.
//!
//! A device does not send what the domain already shares, what it is sending
//! just now, or what it has just received.

use crate::net::state;
use crate::net::state::{ObservedClipboard, RuntimeState, StateView};
use crate::protocol;
use crate::protocol::ClipboardItem;
use crate::text::same_text;
use vstd::prelude::*;

verus! {

/// How long the hash of a received content is remembered.
pub const APPLIED_HASH_TTL_MS: u64 = 10_000;

/// How many hashes of received contents are remembered.
pub const APPLIED_HASH_LIMIT: usize = 1_024;

/// How long an event is remembered.
pub const RECENT_EVENT_TTL_MS: u64 = 120_000;

/// How many events are remembered.
pub const RECENT_EVENT_ID_LIMIT: usize = 4_096;

/// A key with the time at which it was noted.
#[derive(Debug)]
pub struct RecentEntry {
    pub key: String,
    pub seen_at_ms: u64,
}

/// Keys that were noted lately, the oldest first, so many at most.
#[derive(Debug)]
pub struct BoundedRecentSet {
    pub entries: Vec<RecentEntry>,
    pub ttl_ms: u64,
    pub capacity: usize,
}

impl View for BoundedRecentSet {
    type V = Seq<(Seq<char>, u64)>;

    open spec fn view(&self) -> Seq<(Seq<char>, u64)> {
        self.entries@.map_values(|e: RecentEntry| (e.key@, e.seen_at_ms))
    }
}

/// A key that was noted at `at` is too old at `now`.
pub open spec fn is_expired(at: u64, ttl_ms: u64, now_ms: u64) -> bool {
    (if now_ms >= at {
        now_ms - at
    } else {
        0
    }) >= ttl_ms
}

/// What is left once the oldest keys have expired.
pub open spec fn unexpired(s: Seq<(Seq<char>, u64)>, ttl_ms: u64, now_ms: u64) -> Seq<
    (Seq<char>, u64),
>
    decreases s.len(),
{
    if s.len() > 0 && is_expired(s[0].1, ttl_ms, now_ms) {
        unexpired(s.skip(1), ttl_ms, now_ms)
    } else {
        s
    }
}

/// A key was noted.
pub open spec fn has_key(s: Seq<(Seq<char>, u64)>, key: Seq<char>) -> bool {
    exists|i: int| 0 <= i < s.len() && (#[trigger] s[i]).0 == key
}

/// The last `n` keys.
pub open spec fn newest(s: Seq<(Seq<char>, u64)>, n: int) -> Seq<(Seq<char>, u64)> {
    if s.len() > n {
        s.skip(s.len() - n)
    } else {
        s
    }
}

/// The keys after one was noted.
pub open spec fn noted(
    s: Seq<(Seq<char>, u64)>,
    ttl_ms: u64,
    capacity: int,
    key: Seq<char>,
    now_ms: u64,
) -> Seq<(Seq<char>, u64)> {
    let left = unexpired(s, ttl_ms, now_ms);
    if has_key(left, key) {
        left
    } else {
        newest(left.push((key, now_ms)), capacity)
    }
}

/// No key occurs twice.
pub open spec fn distinct_keys(s: Seq<(Seq<char>, u64)>) -> bool {
    forall|i: int, j: int| 0 <= i < j < s.len() ==> (#[trigger] s[i]).0 != (#[trigger] s[j]).0
}

/// What is left is an end of what there was.
pub proof fn unexpired_is_a_tail(s: Seq<(Seq<char>, u64)>, ttl_ms: u64, now_ms: u64)
    ensures
        unexpired(s, ttl_ms, now_ms).len() <= s.len(),
        unexpired(s, ttl_ms, now_ms) == s.skip(s.len() - unexpired(s, ttl_ms, now_ms).len()),
    decreases s.len(),
{
    if s.len() > 0 && is_expired(s[0].1, ttl_ms, now_ms) {
        unexpired_is_a_tail(s.skip(1), ttl_ms, now_ms);
        let left = unexpired(s.skip(1), ttl_ms, now_ms);
        assert(s.skip(s.len() - left.len()) =~= s.skip(1).skip(s.len() - 1 - left.len()));
    } else {
        assert(s.skip(0) =~= s);
    }
}

impl BoundedRecentSet {
    /// No key occurs twice, and there are no more than allowed.
    pub open spec fn wf(self) -> bool {
        &&& 0 < self.capacity
        &&& self@.len() <= self.capacity
        &&& distinct_keys(self@)
    }

    /// An empty set.
    pub fn new(ttl_ms: u64, capacity: usize) -> (set: Self)
        requires
            capacity > 0,
        ensures
            set.wf(),
            set@ == Seq::<(Seq<char>, u64)>::empty(),
            set.ttl_ms == ttl_ms,
            set.capacity == capacity,
    {
        let set = BoundedRecentSet { entries: Vec::new(), ttl_ms, capacity };
        assert(set@ =~= Seq::<(Seq<char>, u64)>::empty());
        set
    }

    /// How many keys there are.
    pub fn len(&self) -> (n: usize)
        ensures
            n == self@.len(),
    {
        self.entries.len()
    }

    /// Tells whether a key was noted, however long ago.
    pub fn contains(&self, key: &str) -> (found: bool)
        ensures
            found == has_key(self@, key@),
    {
        let mut i: usize = 0;
        while i < self.entries.len()
            invariant
                i <= self.entries.len(),
                forall|j: int| 0 <= j < i ==> (#[trigger] self@[j]).0 != key@,
            decreases self.entries.len() - i,
        {
            assert(self@[i as int].0 == self.entries@[i as int].key@);
            if same_text(&self.entries[i].key, key) {
                return true;
            }
            i = i + 1;
        }
        false
    }

    /// Forgets the keys that are too old.
    pub fn prune(&mut self, now_ms: u64)
        ensures
            final(self)@ == unexpired(old(self)@, old(self).ttl_ms, now_ms),
            final(self).ttl_ms == old(self).ttl_ms,
            final(self).capacity == old(self).capacity,
            old(self).wf() ==> final(self).wf(),
    {
        let ghost all = self@;
        proof {
            unexpired_is_a_tail(all, self.ttl_ms, now_ms);
        }
        let mut i: usize = 0;
        assert(all.skip(0) =~= all);
        while i < self.entries.len() && now_ms.saturating_sub(self.entries[i].seen_at_ms)
            >= self.ttl_ms
            invariant
                i <= self.entries.len(),
                *self == *old(self),
                all == self@,
                unexpired(all, self.ttl_ms, now_ms) == unexpired(
                    all.skip(i as int),
                    self.ttl_ms,
                    now_ms,
                ),
            decreases self.entries.len() - i,
        {
            assert(all.skip(i as int)[0] == all[i as int]);
            assert(all[i as int].1 == self.entries@[i as int].seen_at_ms);
            assert(all.skip(i as int).skip(1) =~= all.skip(i + 1));
            i = i + 1;
        }
        proof {
            if i < self.entries.len() {
                assert(all.skip(i as int)[0] == all[i as int]);
                assert(all[i as int].1 == self.entries@[i as int].seen_at_ms);
            }
        }
        let left = self.entries.split_off(i);
        self.entries = left;
        assert(self@ =~= all.skip(i as int));
    }

    /// Tells whether a key was noted and is not too old.
    pub fn contains_fresh(&mut self, key: &str, now_ms: u64) -> (found: bool)
        ensures
            final(self)@ == unexpired(old(self)@, old(self).ttl_ms, now_ms),
            found == has_key(final(self)@, key@),
            final(self).ttl_ms == old(self).ttl_ms,
            final(self).capacity == old(self).capacity,
            old(self).wf() ==> final(self).wf(),
    {
        self.prune(now_ms);
        self.contains(key)
    }

    /// Notes a key.
    pub fn insert(&mut self, key: &str, now_ms: u64)
        ensures
            final(self)@ == noted(
                old(self)@,
                old(self).ttl_ms,
                old(self).capacity as int,
                key@,
                now_ms,
            ),
            final(self).ttl_ms == old(self).ttl_ms,
            final(self).capacity == old(self).capacity,
            old(self).wf() ==> final(self).wf(),
    {
        self.prune(now_ms);
        if self.contains(key) {
            return ;
        }
        let ghost left = self@;
        self.entries.push(RecentEntry { key: key.to_owned(), seen_at_ms: now_ms });
        assert(self@ =~= left.push((key@, now_ms)));
        let ghost grown = self@;
        if self.entries.len() > self.capacity {
            let excess: usize = self.entries.len() - self.capacity;
            let kept = self.entries.split_off(excess);
            self.entries = kept;
            assert(self@ =~= grown.skip(excess as int));
        }
        proof {
            if old(self).wf() {
                assert(distinct_keys(grown)) by {
                    assert forall|i: int, j: int| 0 <= i < j < grown.len() implies (
                    #[trigger] grown[i]).0 != (#[trigger] grown[j]).0 by {
                        if j == left.len() {
                            assert(left[i].0 != key@);
                        } else {
                            assert(left[i].0 != left[j].0);
                        }
                    }
                }
                assert(distinct_keys(self@)) by {
                    let shift = grown.len() - self@.len();
                    assert forall|i: int, j: int| 0 <= i < j < self@.len() implies (
                    #[trigger] self@[i]).0 != (#[trigger] self@[j]).0 by {
                        assert(self@[i] == grown[i + shift] && self@[j] == grown[j + shift]);
                        assert(grown[i + shift].0 != grown[j + shift].0);
                    }
                }
            }
        }
    }

    /// Forgets all keys.
    pub fn clear(&mut self)
        ensures
            final(self)@ == Seq::<(Seq<char>, u64)>::empty(),
            final(self).ttl_ms == old(self).ttl_ms,
            final(self).capacity == old(self).capacity,
            old(self).wf() ==> final(self).wf(),
    {
        self.entries.clear();
        assert(self@ =~= Seq::<(Seq<char>, u64)>::empty());
    }
}

/// Noting keys never leaves more than allowed, and the key just noted is among them.
pub proof fn newest_keys_are_kept(
    s: Seq<(Seq<char>, u64)>,
    ttl_ms: u64,
    capacity: int,
    key: Seq<char>,
    now_ms: u64,
)
    requires
        0 < capacity,
        s.len() <= capacity,
    ensures
        noted(s, ttl_ms, capacity, key, now_ms).len() <= capacity,
        has_key(noted(s, ttl_ms, capacity, key, now_ms), key),
{
    unexpired_is_a_tail(s, ttl_ms, now_ms);
    let left = unexpired(s, ttl_ms, now_ms);
    if !has_key(left, key) {
        let after = newest(left.push((key, now_ms)), capacity);
        assert(after[after.len() - 1] == (key, now_ms));
    }
}

/// Noting a key again before it expires changes nothing but what expires.
pub proof fn repeated_keys_do_not_add_up(
    s: Seq<(Seq<char>, u64)>,
    ttl_ms: u64,
    capacity: int,
    key: Seq<char>,
    now_ms: u64,
)
    requires
        has_key(unexpired(s, ttl_ms, now_ms), key),
    ensures
        noted(s, ttl_ms, capacity, key, now_ms) == unexpired(s, ttl_ms, now_ms),
        noted(s, ttl_ms, capacity, key, now_ms).len() <= s.len(),
{
    unexpired_is_a_tail(s, ttl_ms, now_ms);
}

/// Keys that were noted one after the other expire exactly when they are too old.
pub proof fn keys_expire_exactly_when_too_old(
    s: Seq<(Seq<char>, u64)>,
    ttl_ms: u64,
    now_ms: u64,
    entry: (Seq<char>, u64),
)
    requires
        forall|i: int, j: int|
            0 <= i < j < s.len() ==> (#[trigger] s[i]).1 <= (#[trigger] s[j]).1,
    ensures
        unexpired(s, ttl_ms, now_ms).contains(entry) <==> s.contains(entry) && !is_expired(
            entry.1,
            ttl_ms,
            now_ms,
        ),
    decreases s.len(),
{
    if s.len() > 0 && is_expired(s[0].1, ttl_ms, now_ms) {
        let rest = s.skip(1);
        assert forall|i: int, j: int| 0 <= i < j < rest.len() implies (#[trigger] rest[i]).1 <= (
        #[trigger] rest[j]).1 by {
            assert(s[i + 1].1 <= s[j + 1].1);
        }
        keys_expire_exactly_when_too_old(rest, ttl_ms, now_ms, entry);
        if s.contains(entry) && !is_expired(entry.1, ttl_ms, now_ms) {
            let k = s.index_of(entry);
            assert(rest[k - 1] == entry);
        }
        if rest.contains(entry) {
            let k = rest.index_of(entry);
            assert(s[k + 1] == entry);
        }
    } else if s.len() > 0 && s.contains(entry) {
        let k = s.index_of(entry);
        assert(s[0].1 <= s[k].1 || k == 0);
    }
}

/// A content need not be sent: the domain shares it already, it is being sent,
/// or it was received a moment ago.
pub open spec fn is_known_content(s: StateView, content_hash: Seq<char>, now_ms: u64) -> bool {
    s.shared == Some(content_hash) || s.inflight.contains(content_hash) || has_key(
        unexpired(s.applied_hashes, APPLIED_HASH_TTL_MS, now_ms),
        content_hash,
    )
}

/// The state after a content was looked up.
pub open spec fn looked_up(s: StateView, content_hash: Seq<char>, now_ms: u64) -> StateView {
    if s.shared == Some(content_hash) || s.inflight.contains(content_hash) {
        s
    } else {
        StateView {
            applied_hashes: unexpired(s.applied_hashes, APPLIED_HASH_TTL_MS, now_ms),
            ..s
        }
    }
}

/// The state after a content was found on the clipboard.
pub open spec fn with_observed(s: StateView, content_hash: Seq<char>, at_ms: u64) -> StateView {
    StateView { observed: Some((content_hash, at_ms)), ..s }
}

/// The state after a content was written to the clipboard.
pub open spec fn with_applied_hash(s: StateView, content_hash: Seq<char>, now_ms: u64) -> StateView {
    StateView {
        applied_hashes: noted(
            s.applied_hashes,
            APPLIED_HASH_TTL_MS,
            APPLIED_HASH_LIMIT as int,
            content_hash,
            now_ms,
        ),
        ..s
    }
}

/// The state after an event became known.
pub open spec fn with_recent_event(s: StateView, event_id: Seq<char>, now_ms: u64) -> StateView {
    StateView {
        recent_events: noted(
            s.recent_events,
            RECENT_EVENT_TTL_MS,
            RECENT_EVENT_ID_LIMIT as int,
            event_id,
            now_ms,
        ),
        ..s
    }
}

/// The place of a text in a list, or its length.
fn find_text(list: &Vec<String>, text: &str) -> (place: usize)
    ensures
        place <= list@.len(),
        place < list@.len() ==> list@[place as int]@ == text@,
        state::text_set(list@).contains(text@) == (place < list@.len()),
{
    let ghost all = protocol::texts(list@);
    let mut i: usize = 0;
    while i < list.len()
        invariant
            i <= list.len(),
            all == protocol::texts(list@),
            forall|j: int| 0 <= j < i ==> all[j] != text@,
        decreases list.len() - i,
    {
        assert(all[i as int] == list@[i as int]@);
        if same_text(&list[i], text) {
            return i;
        }
        i = i + 1;
    }
    i
}

/// Tells whether a content is what the domain shares.
fn shared_fingerprint_seen(state: &RuntimeState, content_hash: &str) -> (seen: bool)
    ensures
        seen == (state@.shared == Some(content_hash@)),
{
    match &state.shared_content_fingerprint {
        Some(fingerprint) => same_text(fingerprint, content_hash),
        None => false,
    }
}

/// Tells whether a content need not be sent.
pub fn should_drop_duplicate_outbound(
    state: &mut RuntimeState,
    item: &ClipboardItem,
    now_ms: u64,
) -> (known: bool)
    requires
        old(state).wf(),
    ensures
        final(state).wf(),
        known == is_known_content(old(state)@, item@.content_hash, now_ms),
        final(state)@ == looked_up(old(state)@, item@.content_hash, now_ms),
{
    let content_hash: &str = item.content_hash.as_str();
    if shared_fingerprint_seen(state, content_hash) || find_text(
        &state.inflight_content_fingerprints,
        content_hash,
    ) < state.inflight_content_fingerprints.len() {
        return true;
    }
    state.ignored_local_hashes.contains_fresh(content_hash, now_ms)
}

/// Takes note of what is on the clipboard; tells whether it is nothing new.
pub fn should_ignore_local_observation(
    state: &mut RuntimeState,
    item: &ClipboardItem,
    observed_at_ms: u64,
) -> (ignore: bool)
    requires
        old(state).wf(),
    ensures
        final(state).wf(),
        ignore == (is_known_content(old(state)@, item@.content_hash, observed_at_ms) || match old(
            state,
        )@.observed {
            Some(previous) => previous.0 == item@.content_hash,
            None => false,
        }),
        final(state)@ == with_observed(
            looked_up(old(state)@, item@.content_hash, observed_at_ms),
            item@.content_hash,
            observed_at_ms,
        ),
{
    let known = should_drop_duplicate_outbound(state, item, observed_at_ms);
    let repeated = match &state.last_local_observed {
        Some(previous) => same_text(&previous.content_hash, &item.content_hash),
        None => false,
    };
    remember_local_observation(state, &item.content_hash, observed_at_ms);
    known || repeated
}

/// Takes note of what is on the clipboard.
pub fn remember_local_observation(
    state: &mut RuntimeState,
    content_hash: &str,
    observed_at_ms: u64,
)
    ensures
        old(state).wf() ==> final(state).wf(),
        final(state)@ == with_observed(old(state)@, content_hash@, observed_at_ms),
{
    state.last_local_observed = Some(
        ObservedClipboard { content_hash: content_hash.to_owned(), observed_at_ms },
    );
}

/// Takes note that a content is being sent.
pub fn mark_content_inflight(state: &mut RuntimeState, content_hash: &str)
    ensures
        old(state).wf() ==> final(state).wf(),
        final(state)@ == (StateView {
            inflight: old(state)@.inflight.insert(content_hash@),
            ..old(state)@
        }),
{
    let ghost before = state.inflight_content_fingerprints@;
    if find_text(&state.inflight_content_fingerprints, content_hash)
        == state.inflight_content_fingerprints.len() {
        state.inflight_content_fingerprints.push(content_hash.to_owned());
        proof {
            let after = state.inflight_content_fingerprints@;
            assert(protocol::texts(after) =~= protocol::texts(before).push(content_hash@));
            assert forall|t: Seq<char>| state::text_set(after).contains(t) <==> state::text_set(
                before,
            ).insert(content_hash@).contains(t) by {
                if protocol::texts(before).contains(t) {
                    let k = protocol::texts(before).index_of(t);
                    assert(protocol::texts(after)[k] == t);
                }
                if t == content_hash@ {
                    assert(protocol::texts(after)[before.len() as int] == t);
                }
                if protocol::texts(after).contains(t) {
                    let k = protocol::texts(after).index_of(t);
                    if k < before.len() {
                        assert(protocol::texts(before)[k] == t);
                    }
                }
            }
        }
    }
    assert(state@.inflight =~= old(state)@.inflight.insert(content_hash@));
    assert(state@ =~= (StateView {
        inflight: old(state)@.inflight.insert(content_hash@),
        ..old(state)@
    }));
}

/// Takes note that a content is no longer being sent.
pub fn clear_content_inflight(state: &mut RuntimeState, content_hash: &str)
    ensures
        old(state).wf() ==> final(state).wf(),
        final(state)@ == (StateView {
            inflight: old(state)@.inflight.remove(content_hash@),
            ..old(state)@
        }),
{
    let ghost all = protocol::texts(state.inflight_content_fingerprints@);
    let mut kept: Vec<String> = Vec::new();
    let mut i: usize = 0;
    while i < state.inflight_content_fingerprints.len()
        invariant
            i <= state.inflight_content_fingerprints.len(),
            *state == *old(state),
            all == protocol::texts(state.inflight_content_fingerprints@),
            forall|t: Seq<char>| #[trigger]
                protocol::texts(kept@).contains(t) <==> t != content_hash@ && all.take(
                    i as int,
                ).contains(t),
        decreases state.inflight_content_fingerprints.len() - i,
    {
        let ghost before = kept@;
        let ghost text = all[i as int];
        assert(text == state.inflight_content_fingerprints@[i as int]@);
        if !same_text(&state.inflight_content_fingerprints[i], content_hash) {
            kept.push(state.inflight_content_fingerprints[i].clone());
            assert(protocol::texts(kept@) =~= protocol::texts(before).push(text));
        }
        proof {
            assert(all.take(i + 1) =~= all.take(i as int).push(text));
            assert forall|t: Seq<char>| #[trigger]
                protocol::texts(kept@).contains(t) <==> t != content_hash@ && all.take(
                    i + 1,
                ).contains(t) by {
                push_contains(all.take(i as int), text, t);
                push_contains(protocol::texts(before), text, t);
            }
        }
        i = i + 1;
    }
    assert(all.take(i as int) =~= all);
    state.inflight_content_fingerprints = kept;
    assert(state@.inflight =~= old(state)@.inflight.remove(content_hash@));
    assert(state@ =~= (StateView {
        inflight: old(state)@.inflight.remove(content_hash@),
        ..old(state)@
    }));
}

proof fn push_contains<T>(s: Seq<T>, x: T, y: T)
    ensures
        s.push(x).contains(y) <==> s.contains(y) || x == y,
{
    if s.contains(y) {
        let k = s.index_of(y);
        assert(s.push(x)[k] == y);
    }
    if x == y {
        assert(s.push(x)[s.len() as int] == y);
    }
    if s.push(x).contains(y) {
        let k = s.push(x).index_of(y);
        if k < s.len() {
            assert(s[k] == y);
        }
    }
}

/// Takes note that the domain shares a content.
pub fn mark_shared_fingerprint(state: &mut RuntimeState, content_hash: &str)
    ensures
        old(state).wf() ==> final(state).wf(),
        final(state)@ == (StateView { shared: Some(content_hash@), ..old(state)@ }),
{
    state.shared_content_fingerprint = Some(content_hash.to_owned());
}

/// Takes note that a content was written to the clipboard of this device.
pub fn register_ignored_local_hash(state: &mut RuntimeState, content_hash: &str, now_ms: u64)
    requires
        old(state).wf(),
    ensures
        final(state).wf(),
        final(state)@ == with_applied_hash(old(state)@, content_hash@, now_ms),
{
    state.ignored_local_hashes.insert(content_hash, now_ms);
}

/// Forgets hashes that are too old.
pub fn prune_ignored_local_hashes(state: &mut RuntimeState, now_ms: u64)
    requires
        old(state).wf(),
    ensures
        final(state).wf(),
        final(state)@ == (StateView {
            applied_hashes: unexpired(old(state)@.applied_hashes, APPLIED_HASH_TTL_MS, now_ms),
            ..old(state)@
        }),
{
    state.ignored_local_hashes.prune(now_ms);
}

/// Tells whether an event is known.
pub fn recent_event_seen(state: &mut RuntimeState, event_id: &str, now_ms: u64) -> (seen: bool)
    requires
        old(state).wf(),
    ensures
        final(state).wf(),
        seen == has_key(
            unexpired(old(state)@.recent_events, RECENT_EVENT_TTL_MS, now_ms),
            event_id@,
        ),
        final(state)@ == (StateView {
            recent_events: unexpired(old(state)@.recent_events, RECENT_EVENT_TTL_MS, now_ms),
            ..old(state)@
        }),
{
    state.recent_event_ids.contains_fresh(event_id, now_ms)
}

/// Takes note of an event.
pub fn register_recent_event(state: &mut RuntimeState, event_id: &str, now_ms: u64)
    requires
        old(state).wf(),
    ensures
        final(state).wf(),
        final(state)@ == with_recent_event(old(state)@, event_id@, now_ms),
{
    state.recent_event_ids.insert(event_id, now_ms);
}

/// Forgets events that are too old.
pub fn prune_recent_event_ids(state: &mut RuntimeState, now_ms: u64)
    requires
        old(state).wf(),
    ensures
        final(state).wf(),
        final(state)@ == (StateView {
            recent_events: unexpired(old(state)@.recent_events, RECENT_EVENT_TTL_MS, now_ms),
            ..old(state)@
        }),
{
    state.recent_event_ids.prune(now_ms);
}

/// A content that is being sent, or that was just written to the clipboard, is
/// not sent again.
pub proof fn known_contents_are_not_sent_again(
    s: StateView,
    content_hash: Seq<char>,
    now_ms: u64,
)
    requires
        s.applied_hashes.len() <= APPLIED_HASH_LIMIT,
    ensures
        is_known_content(
            (StateView { inflight: s.inflight.insert(content_hash), ..s }),
            content_hash,
            now_ms,
        ),
        is_known_content((StateView { shared: Some(content_hash), ..s }), content_hash, now_ms),
        is_known_content(with_applied_hash(s, content_hash, now_ms), content_hash, now_ms),
{
    noted_key_is_fresh(
        s.applied_hashes,
        APPLIED_HASH_TTL_MS,
        APPLIED_HASH_LIMIT as int,
        content_hash,
        now_ms,
    );
}

/// A key that was just noted is not too old.
pub proof fn noted_key_is_fresh(
    s: Seq<(Seq<char>, u64)>,
    ttl_ms: u64,
    capacity: int,
    key: Seq<char>,
    now_ms: u64,
)
    requires
        0 < capacity,
        0 < ttl_ms,
        s.len() <= capacity,
    ensures
        has_key(unexpired(noted(s, ttl_ms, capacity, key, now_ms), ttl_ms, now_ms), key),
{
    let left = unexpired(s, ttl_ms, now_ms);
    let after = noted(s, ttl_ms, capacity, key, now_ms);
    unexpired_is_a_tail(s, ttl_ms, now_ms);
    unexpired_twice(s, ttl_ms, now_ms);
    newest_keys_are_kept(s, ttl_ms, capacity, key, now_ms);
    if !has_key(left, key) {
        let grown = left.push((key, now_ms));
        unexpired_is_a_tail(after, ttl_ms, now_ms);
        newest_entry_stays(after, ttl_ms, now_ms);
        let fresh = unexpired(after, ttl_ms, now_ms);
        assert(fresh[fresh.len() - 1] == after[after.len() - 1]);
        assert(after[after.len() - 1] == grown[grown.len() - 1]);
    }
}

proof fn unexpired_twice(s: Seq<(Seq<char>, u64)>, ttl_ms: u64, now_ms: u64)
    ensures
        unexpired(unexpired(s, ttl_ms, now_ms), ttl_ms, now_ms) == unexpired(s, ttl_ms, now_ms),
    decreases s.len(),
{
    if s.len() > 0 && is_expired(s[0].1, ttl_ms, now_ms) {
        unexpired_twice(s.skip(1), ttl_ms, now_ms);
    }
}

proof fn newest_entry_stays(s: Seq<(Seq<char>, u64)>, ttl_ms: u64, now_ms: u64)
    requires
        s.len() > 0,
        s.last().1 == now_ms,
        ttl_ms > 0,
    ensures
        unexpired(s, ttl_ms, now_ms).len() > 0,
        unexpired(s, ttl_ms, now_ms).last() == s.last(),
    decreases s.len(),
{
    if is_expired(s[0].1, ttl_ms, now_ms) {
        assert(s.skip(1).last() == s.last());
        newest_entry_stays(s.skip(1), ttl_ms, now_ms);
    }
}

proof fn unexpired_from(s: Seq<(Seq<char>, u64)>, ttl_ms: u64, now_ms: u64)
    ensures
        ({
            let cut = s.len() - unexpired(s, ttl_ms, now_ms).len();
            &&& 0 <= cut <= s.len()
            &&& unexpired(s, ttl_ms, now_ms) == s.skip(cut)
            &&& forall|i: int| 0 <= i < cut ==> (#[trigger] s[i]).1 + ttl_ms <= now_ms || ttl_ms == 0
            &&& cut < s.len() ==> s[cut].1 + ttl_ms > now_ms && ttl_ms > 0
        }),
    decreases s.len(),
{
    if s.len() > 0 && is_expired(s[0].1, ttl_ms, now_ms) {
        let rest = s.skip(1);
        unexpired_from(rest, ttl_ms, now_ms);
        let cut = s.len() - unexpired(s, ttl_ms, now_ms).len();
        assert(s.skip(cut) =~= rest.skip(cut - 1));
        assert forall|i: int| 0 <= i < cut implies (#[trigger] s[i]).1 + ttl_ms <= now_ms || ttl_ms
            == 0 by {
            if i > 0 {
                assert(rest[i - 1] == s[i]);
            }
        }
        if cut < s.len() {
            assert(rest[cut - 1] == s[cut]);
        }
    } else {
        assert(s.skip(0) =~= s);
    }
}

/// A content is known for three reasons and no others: the domain shares it, it is being
/// sent, or its hash was noted and not every hash noted up to then is ten seconds old. What
/// else waits to be sent or applied, and who is there, does not matter.
pub proof fn contents_are_known_for_three_reasons(s: StateView, content_hash: Seq<char>, now_ms: u64)
    ensures
        is_known_content(s, content_hash, now_ms) <==> {
            ||| s.shared == Some(content_hash)
            ||| s.inflight.contains(content_hash)
            ||| exists|i: int, j: int|
                0 <= i <= j < s.applied_hashes.len() && (#[trigger] s.applied_hashes[i]).1 + 10_000
                    > now_ms && (#[trigger] s.applied_hashes[j]).0 == content_hash
        },
{
    let all = s.applied_hashes;
    let left = unexpired(all, APPLIED_HASH_TTL_MS, now_ms);
    let cut = all.len() - left.len();
    unexpired_from(all, APPLIED_HASH_TTL_MS, now_ms);
    if has_key(left, content_hash) {
        let k = choose|k: int| 0 <= k < left.len() && (#[trigger] left[k]).0 == content_hash;
        assert(all[cut + k] == left[k]);
        assert(all[cut].1 + 10_000 > now_ms);
    }
    if exists|i: int, j: int|
        0 <= i <= j < all.len() && (#[trigger] all[i]).1 + 10_000 > now_ms && (
        #[trigger] all[j]).0 == content_hash {
        let (i, j) = choose|i: int, j: int|
            0 <= i <= j < all.len() && (#[trigger] all[i]).1 + 10_000 > now_ms && (
            #[trigger] all[j]).0 == content_hash;
        assert(i >= cut);
        assert(left[j - cut] == all[j]);
    }
}

/// A content that the domain does not share, that is not being sent and that was not
/// received within the last ten seconds is not known, whatever else waits to be sent.
pub proof fn new_contents_are_not_known(s: StateView, content_hash: Seq<char>, now_ms: u64)
    requires
        s.shared != Some(content_hash),
        !s.inflight.contains(content_hash),
        forall|i: int, j: int|
            0 <= i <= j < s.applied_hashes.len() && (#[trigger] s.applied_hashes[j]).0
                == content_hash ==> (#[trigger] s.applied_hashes[i]).1 + 10_000 <= now_ms,
    ensures
        !is_known_content(s, content_hash, now_ms),
{
    contents_are_known_for_three_reasons(s, content_hash, now_ms);
}

/// Looking a content up changes nothing but that hashes are forgotten: oldest first, only
/// such as were noted at least ten seconds ago.
pub proof fn looking_up_only_forgets_old_hashes(s: StateView, content_hash: Seq<char>, now_ms: u64)
    ensures
        ({
            let after = looked_up(s, content_hash, now_ms);
            let cut = s.applied_hashes.len() - after.applied_hashes.len();
            &&& after == StateView { applied_hashes: after.applied_hashes, ..s }
            &&& 0 <= cut
            &&& after.applied_hashes == s.applied_hashes.skip(cut)
            &&& forall|i: int|
                0 <= i < cut ==> (#[trigger] s.applied_hashes[i]).1 + 10_000 <= now_ms
        }),
{
    unexpired_from(s.applied_hashes, APPLIED_HASH_TTL_MS, now_ms);
    assert(s.applied_hashes.skip(0) =~= s.applied_hashes);
    assert(looked_up(s, content_hash, now_ms) =~= (StateView {
        applied_hashes: looked_up(s, content_hash, now_ms).applied_hashes,
        ..s
    }));
}

proof fn noting_adds(
    s: Seq<(Seq<char>, u64)>,
    ttl_ms: u64,
    capacity: int,
    key: Seq<char>,
    now_ms: u64,
)
    requires
        1 < capacity,
        s.len() <= capacity,
        0 < ttl_ms,
    ensures
        ({
            let after = noted(s, ttl_ms, capacity, key, now_ms);
            &&& has_key(after, key)
            &&& forall|i: int|
                0 <= i < after.len() ==> s.contains(#[trigger] after[i]) || after[i] == (key, now_ms)
            &&& forall|i: int|
                0 <= i < s.len() && (i > 0 || s.len() < capacity) && (#[trigger] s[i]).1 + ttl_ms
                    > now_ms ==> after.contains(s[i])
            &&& !has_key(s, key) ==> after.last() == (key, now_ms)
        }),
{
    let left = unexpired(s, ttl_ms, now_ms);
    let after = noted(s, ttl_ms, capacity, key, now_ms);
    unexpired_from(s, ttl_ms, now_ms);
    newest_keys_are_kept(s, ttl_ms, capacity, key, now_ms);
    let cut = s.len() - left.len();
    let grown = left.push((key, now_ms));
    let shift = if has_key(left, key) || grown.len() <= capacity {
        0
    } else {
        grown.len() - capacity
    };
    assert forall|i: int| 0 <= i < after.len() implies s.contains(#[trigger] after[i]) || after[i]
        == (key, now_ms) by {
        if i + shift < left.len() {
            assert(after[i] == left[i + shift]);
            assert(left[i + shift] == s[cut + i + shift]);
        }
    }
    assert forall|i: int|
        0 <= i < s.len() && (i > 0 || s.len() < capacity) && (#[trigger] s[i]).1 + ttl_ms
            > now_ms implies after.contains(s[i]) by {
        assert(i >= cut);
        assert(left[i - cut] == s[i]);
        assert(after[i - cut - shift] == s[i]);
    }
    if has_key(left, key) {
        let k = choose|k: int| 0 <= k < left.len() && (#[trigger] left[k]).0 == key;
        assert(s[cut + k] == left[k]);
        assert(has_key(s, key));
    }
}

/// A content written to the clipboard is noted, and nothing else becomes known by it: what
/// was noted less than ten seconds before stays, unless 1024 hashes are there already, in
/// which case the oldest may go. The rest of the state stays as it is.
pub proof fn applied_hashes_are_noted_beside_others(
    s: StateView,
    content_hash: Seq<char>,
    now_ms: u64,
)
    requires
        s.applied_hashes.len() <= 1_024,
    ensures
        ({
            let after = with_applied_hash(s, content_hash, now_ms);
            &&& after == StateView { applied_hashes: after.applied_hashes, ..s }
            &&& exists|i: int|
                0 <= i < after.applied_hashes.len() && (#[trigger] after.applied_hashes[i]).0
                    == content_hash
            &&& forall|i: int|
                0 <= i < after.applied_hashes.len() ==> s.applied_hashes.contains(
                    #[trigger] after.applied_hashes[i],
                ) || after.applied_hashes[i] == (content_hash, now_ms)
            &&& forall|i: int|
                0 <= i < s.applied_hashes.len() && (i > 0 || s.applied_hashes.len() < 1_024) && (
                #[trigger] s.applied_hashes[i]).1 + 10_000 > now_ms
                    ==> after.applied_hashes.contains(s.applied_hashes[i])
        }),
{
    noting_adds(
        s.applied_hashes,
        APPLIED_HASH_TTL_MS,
        APPLIED_HASH_LIMIT as int,
        content_hash,
        now_ms,
    );
    assert(with_applied_hash(s, content_hash, now_ms) =~= (StateView {
        applied_hashes: with_applied_hash(s, content_hash, now_ms).applied_hashes,
        ..s
    }));
}

/// An event is noted beside the others: what was noted less than two minutes before stays,
/// unless 4096 events are there already, in which case the oldest may go. The rest of the
/// state stays as it is.
pub proof fn events_are_noted_beside_others(s: StateView, event_id: Seq<char>, now_ms: u64)
    requires
        s.recent_events.len() <= 4_096,
    ensures
        ({
            let after = with_recent_event(s, event_id, now_ms);
            &&& after == StateView { recent_events: after.recent_events, ..s }
            &&& exists|i: int|
                0 <= i < after.recent_events.len() && (#[trigger] after.recent_events[i]).0
                    == event_id
            &&& forall|i: int|
                0 <= i < after.recent_events.len() ==> s.recent_events.contains(
                    #[trigger] after.recent_events[i],
                ) || after.recent_events[i] == (event_id, now_ms)
            &&& forall|i: int|
                0 <= i < s.recent_events.len() && (i > 0 || s.recent_events.len() < 4_096) && (
                #[trigger] s.recent_events[i]).1 + 120_000 > now_ms
                    ==> after.recent_events.contains(s.recent_events[i])
        }),
{
    noting_adds(
        s.recent_events,
        RECENT_EVENT_TTL_MS,
        RECENT_EVENT_ID_LIMIT as int,
        event_id,
        now_ms,
    );
    assert(with_recent_event(s, event_id, now_ms) =~= (StateView {
        recent_events: with_recent_event(s, event_id, now_ms).recent_events,
        ..s
    }));
}

/// An event is known exactly if it was noted and not every event noted up to then is two
/// minutes old.
pub proof fn events_are_known_for_two_minutes(
    events: Seq<(Seq<char>, u64)>,
    event_id: Seq<char>,
    now_ms: u64,
)
    ensures
        has_key(unexpired(events, RECENT_EVENT_TTL_MS, now_ms), event_id) <==> exists|
            i: int,
            j: int,
        |
            0 <= i <= j < events.len() && (#[trigger] events[i]).1 + 120_000 > now_ms && (
            #[trigger] events[j]).0 == event_id,
{
    let left = unexpired(events, RECENT_EVENT_TTL_MS, now_ms);
    let cut = events.len() - left.len();
    unexpired_from(events, RECENT_EVENT_TTL_MS, now_ms);
    if has_key(left, event_id) {
        let k = choose|k: int| 0 <= k < left.len() && (#[trigger] left[k]).0 == event_id;
        assert(events[cut + k] == left[k]);
        assert(events[cut].1 + 120_000 > now_ms);
    }
    if exists|i: int, j: int|
        0 <= i <= j < events.len() && (#[trigger] events[i]).1 + 120_000 > now_ms && (
        #[trigger] events[j]).0 == event_id {
        let (i, j) = choose|i: int, j: int|
            0 <= i <= j < events.len() && (#[trigger] events[i]).1 + 120_000 > now_ms && (
            #[trigger] events[j]).0 == event_id;
        assert(i >= cut);
        assert(left[j - cut] == events[j]);
    }
}

} // verus!
