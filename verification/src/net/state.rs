//! The state of a running synchronization.

use crate::net::dedupe;
use crate::net::dedupe::{
    BoundedRecentSet, APPLIED_HASH_LIMIT, APPLIED_HASH_TTL_MS, RECENT_EVENT_ID_LIMIT,
    RECENT_EVENT_TTL_MS,
};
use crate::net::logs;
use crate::net::logs::{LogView, RuntimeLog};
use crate::net::marker;
use crate::net::marker::{ItemMarker, MarkerView};
use crate::net::members::MemberCache;
use crate::net::queue;
use crate::net::queue::{EntryView, QueueEntry};
use crate::net::transfers;
use crate::net::transfers::{TransferProgress, TransferView};
use crate::protocol;
use crate::settings::SettingsNotice;
use vstd::prelude::*;

verus! {

/// What was last found on the clipboard of this device.
#[derive(Debug)]
pub struct ObservedClipboard {
    pub content_hash: String,
    pub observed_at_ms: u64,
}

/// What the user is shown of a running synchronization.
#[derive(Debug)]
pub struct RuntimeStatus {
    pub running: bool,
    pub device_id: String,
    pub device_name: String,
    pub local_ip: Option<String>,
    pub last_error: Option<String>,
    pub settings_notice: Option<SettingsNotice>,
    pub recent_log_count: usize,
    pub peer_count: usize,
}

/// The state of a running synchronization.
#[derive(Debug)]
pub struct RuntimeState {
    pub outbound_queue: Vec<QueueEntry>,
    pub inbound_queue: Vec<QueueEntry>,
    pub latest_item: Option<ItemMarker>,
    pub shared_content_fingerprint: Option<String>,
    pub inflight_content_fingerprints: Vec<String>,
    pub last_local_observed: Option<ObservedClipboard>,
    pub ignored_local_hashes: BoundedRecentSet,
    pub recent_event_ids: BoundedRecentSet,
    pub transfers: Vec<TransferProgress>,
    pub members: MemberCache,
    pub active_local_ip: Option<String>,
    pub last_error: Option<String>,
    pub logs: Vec<RuntimeLog>,
}

/// The state as plain values.
#[verifier::ext_equal]
pub struct StateView {
    pub outbound: Seq<EntryView>,
    pub inbound: Seq<EntryView>,
    pub latest: Option<MarkerView>,
    pub shared: Option<Seq<char>>,
    pub inflight: Set<Seq<char>>,
    pub observed: Option<(Seq<char>, u64)>,
    pub applied_hashes: Seq<(Seq<char>, u64)>,
    pub recent_events: Seq<(Seq<char>, u64)>,
    pub transfers: Seq<TransferView>,
    pub members: MemberCache,
    pub active_ip: Option<Seq<char>>,
    pub last_error: Option<Seq<char>>,
    pub logs: Seq<LogView>,
}

/// What was last found on the clipboard, as plain values.
pub open spec fn observed_view(observed: Option<ObservedClipboard>) -> Option<(Seq<char>, u64)> {
    match observed {
        Some(o) => Some((o.content_hash@, o.observed_at_ms)),
        None => None,
    }
}

/// The texts of a list, each once.
pub open spec fn text_set(v: Seq<String>) -> Set<Seq<char>> {
    Set::new(|t: Seq<char>| protocol::texts(v).contains(t))
}

impl View for RuntimeState {
    type V = StateView;

    open spec fn view(&self) -> StateView {
        StateView {
            outbound: queue::entries(self.outbound_queue@),
            inbound: queue::entries(self.inbound_queue@),
            latest: marker::latest_view(self.latest_item),
            shared: transfers::text_option(self.shared_content_fingerprint),
            inflight: text_set(self.inflight_content_fingerprints@),
            observed: observed_view(self.last_local_observed),
            applied_hashes: self.ignored_local_hashes@,
            recent_events: self.recent_event_ids@,
            transfers: transfers::shown(self.transfers@),
            members: self.members,
            active_ip: transfers::text_option(self.active_local_ip),
            last_error: transfers::text_option(self.last_error),
            logs: logs::log_views(self.logs@),
        }
    }
}

impl RuntimeState {
    /// The state is well formed: all that is remembered stays within its limits.
    pub open spec fn wf(self) -> bool {
        &&& self.members.wf()
        &&& self.ignored_local_hashes.wf()
        &&& self.ignored_local_hashes.ttl_ms == APPLIED_HASH_TTL_MS
        &&& self.ignored_local_hashes.capacity == APPLIED_HASH_LIMIT
        &&& self.recent_event_ids.wf()
        &&& self.recent_event_ids.ttl_ms == RECENT_EVENT_TTL_MS
        &&& self.recent_event_ids.capacity == RECENT_EVENT_ID_LIMIT
    }

    /// The state before anything has happened.
    pub fn new() -> (state: Self)
        ensures
            state.wf(),
            state@.outbound.len() == 0,
            state@.inbound.len() == 0,
            state@.latest is None,
            state@.shared is None,
            state@.inflight == Set::<Seq<char>>::empty(),
            state@.observed is None,
            state@.applied_hashes.len() == 0,
            state@.recent_events.len() == 0,
            state@.transfers.len() == 0,
            state@.members.devices@.len() == 0,
            state@.members.seen_at@.len() == 0,
            state@.members.known@.len() == 0,
            state@.active_ip is None,
            state@.last_error is None,
            state@.logs.len() == 0,
    {
        let state = RuntimeState {
            outbound_queue: Vec::new(),
            inbound_queue: Vec::new(),
            latest_item: None,
            shared_content_fingerprint: None,
            inflight_content_fingerprints: Vec::new(),
            last_local_observed: None,
            ignored_local_hashes: BoundedRecentSet::new(APPLIED_HASH_TTL_MS, APPLIED_HASH_LIMIT),
            recent_event_ids: BoundedRecentSet::new(RECENT_EVENT_TTL_MS, RECENT_EVENT_ID_LIMIT),
            transfers: Vec::new(),
            members: MemberCache::new(),
            active_local_ip: None,
            last_error: None,
            logs: Vec::new(),
        };
        assert(state@.inflight =~= Set::<Seq<char>>::empty());
        state
    }
}

} // verus!
