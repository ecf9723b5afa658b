//! How an item reaches its peers.

use crate::bytes;
use crate::net::dedupe::mark_shared_fingerprint;
use crate::net::device::DiscoveredDevice;
use crate::net::discovery;
use crate::net::discovery::LocalInterface;
use crate::net::display;
use crate::net::display::{payload_label, payload_summary};
use crate::net::domain;
use crate::net::domain::{collect_peer_targets, sort_texts};
use crate::net::file_stream::{ChunkCounter, FrameCutter, StreamError};
use crate::net::flow;
use crate::net::flow::BroadcastReport;
use crate::net::inbound;
use crate::net::logs;
use crate::net::logs::set_error;
use crate::net::members;
use crate::net::members::{mark_known_member, MemberCache};
use crate::net::socket;
use crate::net::socket::{parse_ipv4_peer, send_transfer_id};
use crate::net::state::{RuntimeState, StateView};
use crate::net::transfers;
use crate::net::transfers::{
    mark_transfer_completed, transfer_should_abort, upsert_transfer, TransferProgress,
    TransferView,
};
use crate::net::wire;
use crate::net::wire::{
    chunks_for, FileStartView, FileStreamStart, ImageStartView, ImageStreamStart,
    PayloadStreamEnd, StreamEndView, WireBody, RAW_PAYLOAD_PLAIN_BYTES,
};
use crate::order;
use crate::primitives;
use crate::protocol;
use crate::protocol::{clone_texts, ClipboardItem, ClipboardPayload, ItemView, PayloadView};
use crate::settings::Settings;
use crate::text::same_text;
use crate::text;
use vstd::prelude::*;

verus! {

/// How much of a message is written between two looks at whether to go on (4 MiB).
pub const TRANSFER_CHUNK_BYTES: usize = 4_194_304;

/// How many peers are sent to at one time.
pub const MAX_PARALLEL_PEER_SENDS: usize = 8;

/// Equal neighbours reduced to the first of them.
pub open spec fn without_repeats(s: Seq<Seq<char>>) -> Seq<Seq<char>>
    decreases s.len(),
{
    if s.len() == 0 {
        s
    } else {
        let rest = without_repeats(s.drop_last());
        if rest.len() > 0 && rest.last() == s.last() {
            rest
        } else {
            rest.push(s.last())
        }
    }
}

/// Texts in order, each once.
pub open spec fn in_order(s: Seq<Seq<char>>) -> Seq<Seq<char>> {
    without_repeats(order::sorted(s, domain::by_text()))
}

fn sort_and_dedup(list: &mut Vec<String>)
    ensures
        protocol::texts(final(list)@) == in_order(protocol::texts(old(list)@)),
{
    sort_texts(list);
    let ghost all = protocol::texts(list@);
    let mut kept: Vec<String> = Vec::new();
    let mut i: usize = 0;
    assert(protocol::texts(kept@) =~= without_repeats(all.take(0)));
    while i < list.len()
        invariant
            i <= list.len(),
            all == protocol::texts(list@),
            protocol::texts(kept@) == without_repeats(all.take(i as int)),
        decreases list.len() - i,
    {
        let ghost before = kept@;
        proof {
            assert(all.take(i + 1).drop_last() =~= all.take(i as int));
            assert(all.take(i + 1).last() == list@[i as int]@);
            if kept.len() > 0 {
                assert(protocol::texts(kept@).last() == kept@[kept@.len() - 1]@);
            }
        }
        if kept.len() == 0 || !same_text(&kept[kept.len() - 1], &list[i]) {
            kept.push(list[i].clone());
            assert(protocol::texts(kept@) =~= protocol::texts(before).push(list@[i as int]@));
        }
        i = i + 1;
    }
    assert(all.take(i as int) =~= all);
    *list = kept;
}

/// Finds the peers to send an item to: those that it is bound to, or all.
pub fn broadcast_peers(
    state: &mut RuntimeState,
    settings: &Settings,
    pending_peers: &Option<Vec<String>>,
    interfaces: &Option<Vec<LocalInterface>>,
    on_windows: bool,
    now_ms: u64,
) -> (peers: Vec<String>)
    requires
        old(state).wf(),
    ensures
        final(state).wf(),
        match pending_peers {
            Some(pending) => {
                &&& final(state)@ == old(state)@
                &&& protocol::texts(peers@) == in_order(protocol::texts(pending@))
            },
            None => {
                &&& members::is_pruned(old(state).members, final(state).members, now_ms)
                &&& final(state)@ == (StateView { members: final(state).members, ..old(state)@ })
                &&& protocol::texts(peers@) == in_order(
                    domain::peers_of(
                        final(state).members.devices@,
                        domain::rules_of(
                            settings@.device_id,
                            settings@.local_ip,
                            old(state)@.active_ip,
                            discovery::listed(*interfaces),
                            on_windows,
                        ),
                    ),
                )
            },
        },
{
    let mut peers = match pending_peers {
        Some(pending) => clone_texts(pending),
        None => collect_peer_targets(state, settings, interfaces, on_windows, now_ms),
    };
    sort_and_dedup(&mut peers);
    peers
}

/// The peers that did not get an item.
pub open spec fn failed(peers: Seq<Seq<char>>, outcomes: Seq<bool>) -> Seq<Seq<char>>
    decreases peers.len(),
{
    if peers.len() == 0 {
        peers
    } else {
        let rest = failed(peers.drop_last(), outcomes);
        if outcomes[peers.len() - 1] {
            rest
        } else {
            rest.push(peers.last())
        }
    }
}

/// How many of the first `n` peers got an item.
pub open spec fn successes(outcomes: Seq<bool>, n: int) -> int
    decreases n,
{
    if n <= 0 {
        0
    } else {
        successes(outcomes, n - 1) + (if outcomes[n - 1] {
            1int
        } else {
            0
        })
    }
}

/// An item goes as a stream of chunks.
pub open spec fn is_streamed(payload: PayloadView) -> bool {
    payload is FileList || payload is ImagePng
}

/// Counts which peers got an item. An item that goes as a stream is what the
/// domain shares as soon as one peer has it.
pub fn broadcast_report(
    state: &mut RuntimeState,
    item: &ClipboardItem,
    peers: Vec<String>,
    outcomes: Vec<bool>,
) -> (report: BroadcastReport)
    requires
        old(state).wf(),
        peers@.len() == outcomes@.len(),
    ensures
        final(state).wf(),
        report.attempted == peers@.len(),
        report.delivered == successes(outcomes@, peers@.len() as int),
        protocol::texts(report.failed_peers@) == failed(protocol::texts(peers@), outcomes@),
        report.delivered + report.failed_peers@.len() == report.attempted,
        !report.deferred,
        final(state)@ == if is_streamed(item@.payload) && report.delivered > 0 {
            StateView { shared: Some(item@.content_hash), ..old(state)@ }
        } else {
            old(state)@
        },
{
    let ghost all = protocol::texts(peers@);
    let mut delivered: usize = 0;
    let mut failed_peers: Vec<String> = Vec::new();
    let mut i: usize = 0;
    assert(protocol::texts(failed_peers@) =~= failed(all.take(0), outcomes@));
    while i < peers.len()
        invariant
            i <= peers.len() == outcomes.len(),
            all == protocol::texts(peers@),
            delivered + failed_peers@.len() == i,
            delivered == successes(outcomes@, i as int),
            protocol::texts(failed_peers@) == failed(all.take(i as int), outcomes@),
        decreases peers.len() - i,
    {
        let ghost before = failed_peers@;
        proof {
            assert(all.take(i + 1).drop_last() =~= all.take(i as int));
            assert(all.take(i + 1).last() == peers@[i as int]@);
        }
        if outcomes[i] {
            delivered = delivered + 1;
        } else {
            failed_peers.push(peers[i].clone());
            assert(protocol::texts(failed_peers@) =~= protocol::texts(before).push(
                peers@[i as int]@,
            ));
        }
        i = i + 1;
    }
    assert(all.take(i as int) =~= all);
    let streamed = match &item.payload {
        ClipboardPayload::FileList { .. } => true,
        ClipboardPayload::ImagePng { .. } => true,
        _ => false,
    };
    if streamed && delivered > 0 {
        mark_shared_fingerprint(state, &item.content_hash);
    }
    BroadcastReport { attempted: peers.len(), delivered, failed_peers, deferred: false }
}

/// How many peers are sent to at one time.
pub fn parallel_sends(peers: usize) -> (workers: usize)
    ensures
        workers == if peers <= MAX_PARALLEL_PEER_SENDS {
            peers
        } else {
            MAX_PARALLEL_PEER_SENDS
        },
{
    if peers <= MAX_PARALLEL_PEER_SENDS {
        peers
    } else {
        MAX_PARALLEL_PEER_SENDS
    }
}

/// How many bytes an item takes on its way.
pub open spec fn bytes_to_send(item: ItemView) -> u64 {
    match item.payload {
        PayloadView::FileList(_, _, archive_bytes) => archive_bytes,
        _ => item.size_bytes,
    }
}

/// The transfer of an item that is sent to a peer.
pub open spec fn sending_transfer(
    peer: Seq<char>,
    other_host: Option<Seq<char>>,
    item: ItemView,
    now_ms: u64,
) -> TransferView {
    TransferView {
        id: sending_id(peer, other_host, item),
        direction: "send"@,
        peer,
        item_kind: protocol::kind_name(item.payload),
        item_label: display::label(item.payload),
        item_summary: display::summary(item.payload),
        item_id: item.id,
        transferred_bytes: 0,
        total_bytes: bytes_to_send(item),
        percent: 0,
        status: "sending"@,
        updated_at_ms: now_ms,
        error: None,
    }
}

/// The identifier of the transfer of an item to a peer.
pub open spec fn sending_id(
    peer: Seq<char>,
    other_host: Option<Seq<char>>,
    item: ItemView,
) -> Seq<char> {
    "send:"@ + socket::peer_key(peer, other_host) + ":"@ + item.id
}

/// Begins to send an item to a peer. Returns the identifier of the transfer, or
/// nothing if the peer has no address. Where `peer` is a socket address, but none of IPv4,
/// `other_host` is the address in it in its usual form.
pub fn begin_send(
    state: &mut RuntimeState,
    peer: &str,
    other_host: Option<&str>,
    item: &ClipboardItem,
    now_ms: u64,
) -> (id: Option<String>)
    requires
        old(state).wf(),
    ensures
        final(state).wf(),
        match id {
            Some(id) => {
                &&& socket::ipv4_peer_of(peer@) is Some || other_host is Some
                &&& id@ == sending_id(peer@, socket::str_option(other_host), item@)
                &&& final(state)@ == (StateView {
                    transfers: transfers::upserted(
                        old(state)@.transfers,
                        sending_transfer(
                            peer@,
                            socket::str_option(other_host),
                            item@,
                            now_ms,
                        ),
                        now_ms,
                    ),
                    ..old(state)@
                })
            },
            None => socket::ipv4_peer_of(peer@) is None && other_host is None && final(state)@
                == old(state)@,
        },
{
    if other_host.is_none() && parse_ipv4_peer(peer).is_none() {
        return None;
    }
    let id = send_transfer_id(peer, other_host, item);
    let total_bytes: u64 = match &item.payload {
        ClipboardPayload::FileList { estimated_archive_bytes, .. } => *estimated_archive_bytes,
        _ => item.size_bytes,
    };
    let transfer = TransferProgress {
        id: id.clone(),
        direction: "send".to_owned(),
        peer: peer.to_owned(),
        item_kind: item.payload.kind().to_owned(),
        item_label: payload_label(&item.payload),
        item_summary: payload_summary(&item.payload),
        item_id: item.id.clone(),
        transferred_bytes: 0,
        total_bytes,
        percent: 0,
        status: "sending".to_owned(),
        updated_at_ms: now_ms,
        error: None,
    };
    assert(transfer@ =~= sending_transfer(
        peer@,
        socket::str_option(other_host),
        item@,
        now_ms,
    ));
    upsert_transfer(&mut state.transfers, transfer, now_ms);
    Some(id)
}

/// What happened while an item was sent to a peer.
#[derive(Debug)]
pub enum SendEvent {
    /// No connection could be made.
    ConnectFailed { error: String },
    /// The connection could not be taken up.
    NotRegistered { error: String },
    /// The peer could not be authenticated.
    HandshakeFailed { error: String },
    /// The item could not be encoded.
    EncodeFailed { error: String },
    /// A frame or the stream of chunks could not be sent.
    StreamFailed { error: String },
    /// The message could not be written.
    WriteFailed,
    /// Everything was sent.
    Delivered,
}

/// The members with a peer that an item was sent to.
pub open spec fn is_with_address(before: MemberCache, after: MemberCache, peer: Seq<char>) -> bool {
    &&& after.devices@ == before.devices@
    &&& after.seen_at@ == before.seen_at@
    &&& protocol::texts(after.known@) == members::known_after(
        protocol::texts(before.known@),
        "addr"@,
        peer,
    )
}

/// The state after sending an item went as it did.
pub open spec fn send_noted(
    s: StateView,
    item: ItemView,
    id: Seq<char>,
    event: SendEvent,
    known: MemberCache,
    now_ms: u64,
) -> StateView {
    match event {
        SendEvent::ConnectFailed { error } => if item.payload is ImagePng {
            inbound::transfer_failed(s, id, error@, now_ms)
        } else {
            s
        },
        SendEvent::NotRegistered { error } => inbound::transfer_failed(s, id, error@, now_ms),
        SendEvent::HandshakeFailed { error } => inbound::transfer_failed(s, id, error@, now_ms),
        SendEvent::EncodeFailed { error } => flow::with_error(
            inbound::transfer_failed(s, id, error@, now_ms),
            "encode payload failed: "@ + error@,
            now_ms,
        ),
        SendEvent::StreamFailed { error } => inbound::transfer_failed(s, id, error@, now_ms),
        SendEvent::WriteFailed => inbound::transfer_failed(s, id, "发送失败"@, now_ms),
        SendEvent::Delivered => StateView {
            members: known,
            ..flow::with_transfer(
                s,
                Some(id),
                |t: TransferView| transfers::as_completed(t, now_ms),
            )
        },
    }
}

/// Takes note of what happened while an item was sent to a peer; tells whether the
/// peer has it.
pub fn note_send_event(
    state: &mut RuntimeState,
    item: &ClipboardItem,
    peer: &str,
    transfer_id: &str,
    event: SendEvent,
    now_ms: u64,
) -> (delivered: bool)
    requires
        old(state).wf(),
    ensures
        final(state).wf(),
        delivered == (event is Delivered),
        final(state)@ == send_noted(
            old(state)@,
            item@,
            transfer_id@,
            event,
            final(state).members,
            now_ms,
        ),
        if delivered {
            is_with_address(old(state).members, final(state).members, peer@)
        } else {
            final(state).members == old(state).members
        },
{
    let ghost s = state@;
    match event {
        SendEvent::ConnectFailed { error } => {
            let image = match &item.payload {
                ClipboardPayload::ImagePng { .. } => true,
                _ => false,
            };
            if image {
                inbound::fail_transfer(state, transfer_id, &error, now_ms);
            }
            false
        },
        SendEvent::NotRegistered { error } => {
            inbound::fail_transfer(state, transfer_id, &error, now_ms);
            false
        },
        SendEvent::HandshakeFailed { error } => {
            inbound::fail_transfer(state, transfer_id, &error, now_ms);
            false
        },
        SendEvent::EncodeFailed { error } => {
            inbound::fail_transfer(state, transfer_id, &error, now_ms);
            let mut message: String = "encode payload failed: ".to_owned();
            message.append(&error);
            set_error(&mut state.last_error, &mut state.logs, &message, now_ms);
            assert(state@ =~= send_noted(s, item@, transfer_id@, event, state.members, now_ms));
            false
        },
        SendEvent::StreamFailed { error } => {
            inbound::fail_transfer(state, transfer_id, &error, now_ms);
            false
        },
        SendEvent::WriteFailed => {
            inbound::fail_transfer(state, transfer_id, "发送失败", now_ms);
            false
        },
        SendEvent::Delivered => {
            mark_transfer_completed(&mut state.transfers, transfer_id, now_ms);
            mark_known_member(&mut state.members.known, "addr", peer);
            assert(state@ =~= send_noted(s, item@, transfer_id@, event, state.members, now_ms));
            true
        },
    }
}

/// The announcement of an image.
pub open spec fn image_announcement(item: ItemView) -> ImageStartView {
    ImageStartView {
        item_id: item.id,
        content_hash: item.content_hash,
        created_at_us: item.created_at_us,
        source_device_id: item.source_device_id,
        size_bytes: item.size_bytes,
        chunk_count: wire::rounded_up(
            item.size_bytes as int,
            RAW_PAYLOAD_PLAIN_BYTES as int,
        ) as u64,
    }
}

/// The announcement of a file bundle.
pub open spec fn file_announcement(item: ItemView, names: Seq<Seq<char>>, size: u64) -> FileStartView {
    FileStartView {
        item_id: item.id,
        content_hash: item.content_hash,
        created_at_us: item.created_at_us,
        source_device_id: item.source_device_id,
        size_bytes: size,
        chunk_count: wire::rounded_up(size as int, RAW_PAYLOAD_PLAIN_BYTES as int) as u64,
        top_level_names: names,
    }
}

/// The announcement of the stream that an item goes as, if it goes as one.
pub fn stream_announcement(item: &ClipboardItem) -> (body: Option<WireBody>)
    ensures
        match body {
            Some(WireBody::ImageStreamRawStart(meta)) => item@.payload is ImagePng && meta@
                == image_announcement(item@),
            Some(WireBody::FileStreamRawStart(meta)) => item@.payload is FileList && meta@
                == file_announcement(item@, item@.payload->FileList_1, item@.payload->FileList_2),
            Some(_) => false,
            None => !is_streamed(item@.payload),
        },
{
    match &item.payload {
        ClipboardPayload::ImagePng { .. } => Some(
            WireBody::ImageStreamRawStart(
                ImageStreamStart {
                    item_id: item.id.clone(),
                    content_hash: item.content_hash.clone(),
                    created_at_us: item.created_at_us,
                    source_device_id: item.source_device_id.clone(),
                    size_bytes: item.size_bytes,
                    chunk_count: chunks_for(item.size_bytes),
                },
            ),
        ),
        ClipboardPayload::FileList { top_level_names, estimated_archive_bytes, .. } => Some(
            WireBody::FileStreamRawStart(
                FileStreamStart {
                    item_id: item.id.clone(),
                    content_hash: item.content_hash.clone(),
                    created_at_us: item.created_at_us,
                    source_device_id: item.source_device_id.clone(),
                    size_bytes: *estimated_archive_bytes,
                    chunk_count: chunks_for(*estimated_archive_bytes),
                    top_level_names: clone_texts(top_level_names),
                },
            ),
        ),
        _ => None,
    }
}

/// The end of a stream as it was sent.
pub open spec fn end_of(item: ItemView, sent: FrameCutter) -> StreamEndView {
    StreamEndView {
        item_id: item.id,
        chunk_count: sent.frame_count,
        digest_sha256: primitives::sha256(sent.content()),
    }
}

/// The end of the stream of an item, which vouches for what was sent.
pub fn stream_end(item: &ClipboardItem, sent: FrameCutter) -> (body: WireBody)
    ensures
        match body {
            WireBody::PayloadStreamEnd(end) => end@ == end_of(item@, sent),
            _ => false,
        },
{
    let chunk_count: u64 = sent.frame_count;
    WireBody::PayloadStreamEnd(
        PayloadStreamEnd {
            item_id: item.id.clone(),
            chunk_count,
            digest_sha256: sent.digest_sha256(),
        },
    )
}

/// The files that were sent are not those that were copied: their tree has another
/// hash, or none was made.
pub open spec fn files_changed(item: ItemView, streamed_hash: Option<Seq<char>>) -> bool {
    match streamed_hash {
        Some(hash) => hash != item.content_hash,
        None => item.payload is FileList,
    }
}

/// Tells whether a stream may be ended: as many bytes were sent as were announced,
/// and files are still what they were when they were copied.
pub fn check_stream_sent(item: &ClipboardItem, sent_bytes: u64, streamed_hash: Option<&str>) -> (result:
    Result<(), StreamError>)
    ensures
        result == if files_changed(
            item@,
            match streamed_hash {
                Some(hash) => Some(hash@),
                None => None,
            },
        ) {
            Err::<(), StreamError>(StreamError::FilesChanged)
        } else if sent_bytes == bytes_to_send(item@) {
            Ok::<(), StreamError>(())
        } else if item@.payload is ImagePng {
            Err::<(), StreamError>(
                StreamError::ImageSizeMismatch { sent: sent_bytes, expected: bytes_to_send(item@) },
            )
        } else {
            Err::<(), StreamError>(
                StreamError::ArchiveSizeMismatch {
                    sent: sent_bytes,
                    expected: bytes_to_send(item@),
                },
            )
        },
{
    if let Some(hash) = streamed_hash {
        if !same_text(hash, &item.content_hash) {
            return Err(StreamError::FilesChanged);
        }
    }
    match &item.payload {
        ClipboardPayload::ImagePng { .. } => if sent_bytes == item.size_bytes {
            Ok(())
        } else {
            Err(StreamError::ImageSizeMismatch { sent: sent_bytes, expected: item.size_bytes })
        },
        ClipboardPayload::FileList { estimated_archive_bytes, .. } => if streamed_hash.is_none() {
            Err(StreamError::FilesChanged)
        } else if sent_bytes == *estimated_archive_bytes {
            Ok(())
        } else {
            Err(
                StreamError::ArchiveSizeMismatch {
                    sent: sent_bytes,
                    expected: *estimated_archive_bytes,
                },
            )
        },
        _ => if sent_bytes == item.size_bytes {
            Ok(())
        } else {
            Err(StreamError::ArchiveSizeMismatch { sent: sent_bytes, expected: item.size_bytes })
        },
    }
}

/// Tells whether the next part of a message is written, and up to where. Nothing
/// more is written once synchronization stops or the transfer has failed.
pub fn next_write_end(
    state: &RuntimeState,
    transfer_id: &str,
    stopping: bool,
    offset: usize,
    len: usize,
) -> (end: Result<usize, StreamError>)
    requires
        offset <= len,
    ensures
        ({
            let i = transfers::place_of(state@.transfers, transfer_id@);
            let abort = stopping || (i < state@.transfers.len() && state@.transfers[i].status
                == "failed"@);
            match end {
                Ok(e) => !abort && e == wire::least(
                    offset + TRANSFER_CHUNK_BYTES,
                    len as int,
                ),
                Err(e) => abort && e == StreamError::Canceled,
            }
        }),
{
    if stopping || transfer_should_abort(&state.transfers, transfer_id) {
        return Err(StreamError::Canceled);
    }
    if len - offset <= TRANSFER_CHUNK_BYTES {
        Ok(len)
    } else {
        Ok(offset + TRANSFER_CHUNK_BYTES)
    }
}

/// The announcement of an item whose fields are in order and whose size is within
/// the limits is accepted by the device that receives it.
pub proof fn announced_images_are_accepted(item: ItemView, max_item_bytes: u64, now_us: u64)
    requires
        wire::identification_error(
            item.id,
            item.source_device_id,
            item.content_hash,
            item.created_at_us,
            now_us,
        ) is None,
        0 < item.size_bytes <= max_item_bytes,
        item.size_bytes <= wire::MAX_IMAGE_SOURCE_BYTES,
    ensures
        wire::image_start_error(image_announcement(item), max_item_bytes, now_us) is None,
{
}

/// An image that was announced, sent in full and received in full is taken up as it was
/// sent.
pub proof fn complete_images_are_taken_up(
    item: ItemView,
    sent: FrameCutter,
    counter: ChunkCounter,
    end: PayloadStreamEnd,
)
    requires
        item.payload is ImagePng,
        item.content_hash == bytes::hex_text(primitives::sha256(item.payload->ImagePng_0)),
        sent.wf(),
        sent.content() == item.payload->ImagePng_0,
        sent.sent_bytes == bytes_to_send(item),
        sent.frame_count == image_announcement(item).chunk_count,
        counter.wf(),
        counter.total_bytes == item.size_bytes,
        counter.content() == sent.content(),
        counter.chunk_count == sent.frame_count,
        end@ == end_of(item, sent),
    ensures
        inbound::image_refusal(
            image_announcement(item),
            counter,
            counter.content(),
            Some(WireBody::PayloadStreamEnd(end)),
        ) is None,
        inbound::image_item(image_announcement(item), counter.content()) == item,
{
    assert(inbound::image_item(image_announcement(item), counter.content()) =~= item);
}

/// The announcement of files whose fields and names are in order, and whose archive is
/// within the limit, is accepted by the device that receives it.
pub proof fn announced_files_are_accepted(item: ItemView, max_item_bytes: u64, now_us: u64)
    requires
        item.payload is FileList,
        wire::identification_error(
            item.id,
            item.source_device_id,
            item.content_hash,
            item.created_at_us,
            now_us,
        ) is None,
        wire::names_error(item.payload->FileList_1) is None,
        0 < item.payload->FileList_2 <= max_item_bytes,
    ensures
        wire::file_start_error(
            file_announcement(item, item.payload->FileList_1, item.payload->FileList_2),
            max_item_bytes,
            now_us,
        ) is None,
{
}

/// Files that were announced, sent in full and received in full are taken up: the item
/// keeps its identity, and the names at its top are those of the files that were copied.
pub proof fn complete_files_are_taken_up(
    item: ItemView,
    sent: FrameCutter,
    counter: ChunkCounter,
    end: PayloadStreamEnd,
    bundle_dir: Seq<char>,
)
    requires
        item.payload is FileList,
        sent.wf(),
        sent.sent_bytes == bytes_to_send(item),
        sent.frame_count == wire::rounded_up(
            item.payload->FileList_2 as int,
            RAW_PAYLOAD_PLAIN_BYTES as int,
        ),
        counter.wf(),
        counter.total_bytes == item.payload->FileList_2,
        counter.content() == sent.content(),
        counter.chunk_count == sent.frame_count,
        end@ == end_of(item, sent),
    ensures
        ({
            let meta = file_announcement(item, item.payload->FileList_1, item.payload->FileList_2);
            &&& inbound::file_refusal(
                meta,
                counter,
                Some(WireBody::PayloadStreamEnd(end)),
            ) is None
            &&& inbound::file_item(meta, bundle_dir) == (ItemView {
                size_bytes: item.payload->FileList_2,
                payload: PayloadView::FileBundleDir(bundle_dir, item.payload->FileList_1),
                ..item
            })
        }),
{
}

/// A stream of files is taken up only if what came has the digest of what was sent.
pub proof fn altered_files_are_refused(
    meta: FileStartView,
    item: ItemView,
    sent: FrameCutter,
    counter: ChunkCounter,
    end: PayloadStreamEnd,
)
    requires
        end@ == end_of(item, sent),
        primitives::sha256(counter.content()) != primitives::sha256(sent.content()),
    ensures
        inbound::file_refusal(meta, counter, Some(WireBody::PayloadStreamEnd(end))) is Some,
{
}

/// Every peer either got the item or is listed as failed: those that failed are
/// exactly the peers without success.
pub proof fn failures_are_reported_exactly(
    peers: Seq<Seq<char>>,
    outcomes: Seq<bool>,
    peer: Seq<char>,
)
    requires
        peers.len() == outcomes.len(),
    ensures
        failed(peers, outcomes).contains(peer) <==> exists|i: int|
            0 <= i < peers.len() && #[trigger] peers[i] == peer && !outcomes[i],
    decreases peers.len(),
{
    if peers.len() > 0 {
        let n = peers.len() - 1;
        let front = peers.drop_last();
        failed_ignores_later(front, outcomes, outcomes.take(n));
        failures_are_reported_exactly(front, outcomes.take(n), peer);
        let rest = failed(front, outcomes);
        if failed(peers, outcomes).contains(peer) {
            let k = failed(peers, outcomes).index_of(peer);
            if k < rest.len() {
                assert(rest[k] == peer);
                let i = choose|i: int|
                    0 <= i < front.len() && #[trigger] front[i] == peer && !outcomes.take(n)[i];
                assert(peers[i] == peer && !outcomes[i]);
            } else {
                assert(peers[n] == peer && !outcomes[n]);
            }
        }
        if exists|i: int| 0 <= i < peers.len() && #[trigger] peers[i] == peer && !outcomes[i] {
            let i = choose|i: int|
                0 <= i < peers.len() && #[trigger] peers[i] == peer && !outcomes[i];
            if i < n {
                assert(front[i] == peer && !outcomes.take(n)[i]);
                let k = rest.index_of(peer);
                assert(failed(peers, outcomes)[k] == peer);
            } else {
                assert(failed(peers, outcomes)[rest.len() as int] == peer);
            }
        }
    }
}

proof fn failed_ignores_later(peers: Seq<Seq<char>>, a: Seq<bool>, b: Seq<bool>)
    requires
        peers.len() <= a.len(),
        peers.len() <= b.len(),
        forall|i: int| 0 <= i < peers.len() ==> a[i] == b[i],
    ensures
        failed(peers, a) == failed(peers, b),
    decreases peers.len(),
{
    if peers.len() > 0 {
        failed_ignores_later(peers.drop_last(), a, b);
    }
}

proof fn without_repeats_holds(s: Seq<Seq<char>>)
    requires
        order::is_in_order(s, domain::by_text()),
    ensures
        ({
            let r = without_repeats(s);
            &&& forall|x: Seq<char>| #[trigger] r.contains(x) <==> s.contains(x)
            &&& s.len() > 0 ==> r.len() > 0 && r.last() == s.last()
            &&& forall|i: int, j: int|
                0 <= i < j < r.len() ==> text::text_before(#[trigger] r[i], #[trigger] r[j])
        }),
    decreases s.len(),
{
    if s.len() > 0 {
        let front = s.drop_last();
        let rest = without_repeats(front);
        let r = without_repeats(s);
        assert(order::is_in_order(front, domain::by_text())) by {
            assert forall|i: int, j: int| 0 <= i < j < front.len() implies !domain::by_text()(
                #[trigger] front[j],
                #[trigger] front[i],
            ) by {
                assert(!domain::by_text()(s[j], s[i]));
            }
        }
        without_repeats_holds(front);
        assert(s[s.len() - 1] == s.last());
        assert forall|x: Seq<char>| #[trigger] r.contains(x) <==> s.contains(x) by {
            if s.contains(x) {
                let k = s.index_of(x);
                if k < front.len() {
                    assert(front[k] == x);
                    assert(rest.contains(x));
                    let m = rest.index_of(x);
                    assert(r[m] == x);
                } else {
                    assert(r[r.len() - 1] == x);
                }
            }
            if r.contains(x) {
                let k = r.index_of(x);
                if k < rest.len() {
                    assert(rest[k] == x);
                    assert(rest.contains(x));
                    let m = front.index_of(x);
                    assert(s[m] == x);
                }
            }
        }
        assert forall|i: int, j: int| 0 <= i < j < r.len() implies text::text_before(
            #[trigger] r[i],
            #[trigger] r[j],
        ) by {
            if j < rest.len() {
                assert(rest[i] == r[i] && rest[j] == r[j]);
            } else {
                assert(r[j] == s.last());
                assert(front.len() > 0);
                assert(rest.last() == front.last());
                assert(!domain::by_text()(s[s.len() - 1], s[s.len() - 2]));
                text::text_order_is_total(rest.last(), s.last());
                if i < rest.len() - 1 {
                    assert(text::text_before(rest[i], rest[rest.len() - 1]));
                    text::text_order_is_transitive(rest[i], rest.last(), s.last());
                }
            }
        }
    }
}

/// Whoever an item is to be sent to gets it, and nobody else, each once, in the order of
/// their names.
pub proof fn everyone_is_sent_to_once(s: Seq<Seq<char>>, peer: Seq<char>)
    ensures
        in_order(s).contains(peer) <==> s.contains(peer),
        in_order(s).no_duplicates(),
        forall|i: int, j: int|
            0 <= i < j < in_order(s).len() ==> text::text_before(
                #[trigger] in_order(s)[i],
                #[trigger] in_order(s)[j],
            ),
{
    let sorted = order::sorted(s, domain::by_text());
    order::sorted_contains(s, domain::by_text(), peer);
    assert(order::is_ordering(domain::by_text())) by {
        assert forall|a: Seq<char>, b: Seq<char>, c: Seq<char>|
            !#[trigger] domain::by_text()(a, b) && !#[trigger] domain::by_text()(
                b,
                c,
            ) implies !domain::by_text()(a, c) by {
            text::text_order_is_total(a, b);
            text::text_order_is_total(b, c);
            text::text_order_is_total(a, c);
            if text::text_before(a, c) && a != b && b != c {
                text::text_order_is_transitive(c, b, a);
            }
        }
        assert forall|a: Seq<char>, b: Seq<char>| #[trigger]
            domain::by_text()(a, b) implies !domain::by_text()(b, a) by {
            text::text_order_is_total(a, b);
        }
    }
    order::sorted_is_in_order(s, domain::by_text());
    without_repeats_holds(sorted);
    let r = in_order(s);
    assert forall|i: int, j: int| 0 <= i < r.len() && 0 <= j < r.len() && i != j implies r[i]
        != r[j] by {
        text::text_order_is_total(r[i], r[i]);
        if i < j {
            assert(text::text_before(r[i], r[j]));
        } else {
            assert(text::text_before(r[j], r[i]));
        }
    }
}

/// A new item goes to every device that contents are sent to, at its last known port.
pub proof fn every_target_is_sent_to(
    list: Seq<DiscoveredDevice>,
    rules: domain::PeerRules,
    i: int,
)
    requires
        0 <= i < list.len(),
        domain::is_target(list[i], rules),
    ensures
        exists|j: int|
            i <= j < list.len() && #[trigger] domain::is_target(list[j], rules) && list[j].addr@
                == list[i].addr@ && in_order(domain::peers_of(list, rules)).contains(
                list[j].addr@ + seq![':'] + text::decimal(list[j].port as nat),
            ),
{
    domain::every_target_is_a_peer(list, rules, i);
    let j = choose|j: int|
        i <= j < list.len() && #[trigger] domain::is_target(list[j], rules) && list[j].addr@
            == list[i].addr@ && (forall|k: int|
            j < k < list.len() && #[trigger] domain::is_target(list[k], rules) ==> list[k].addr@
                != list[i].addr@) && domain::peers_of(list, rules).contains(
            socket::peer_text(list[j].addr@, list[j].port),
        );
    everyone_is_sent_to_once(
        domain::peers_of(list, rules),
        socket::peer_text(list[j].addr@, list[j].port),
    );
    assert(domain::is_target(list[j], rules));
}

/// Every peer either got the item or is reported, and nobody is reported exactly if all got it.
pub proof fn peers_are_counted(peers: Seq<Seq<char>>, outcomes: Seq<bool>)
    requires
        peers.len() == outcomes.len(),
    ensures
        successes(outcomes, peers.len() as int) + failed(peers, outcomes).len() == peers.len(),
        failed(peers, outcomes).len() == 0 <==> forall|i: int|
            0 <= i < outcomes.len() ==> #[trigger] outcomes[i],
{
    counted_upto(peers, outcomes, peers.len() as int);
    assert(peers.take(peers.len() as int) =~= peers);
}

proof fn counted_upto(peers: Seq<Seq<char>>, outcomes: Seq<bool>, n: int)
    requires
        peers.len() == outcomes.len(),
        0 <= n <= peers.len(),
    ensures
        successes(outcomes, n) + failed(peers.take(n), outcomes).len() == n,
        failed(peers.take(n), outcomes).len() == 0 <==> forall|i: int|
            0 <= i < n ==> #[trigger] outcomes[i],
    decreases n,
{
    if n > 0 {
        counted_upto(peers, outcomes, n - 1);
        assert(peers.take(n).drop_last() =~= peers.take(n - 1));
        if outcomes[n - 1] {
            assert(failed(peers.take(n), outcomes) == failed(peers.take(n - 1), outcomes));
        } else {
            assert(failed(peers.take(n), outcomes) == failed(peers.take(n - 1), outcomes).push(
                peers.take(n).last(),
            ));
        }
    }
}

/// Images and files go as streams, texts in one frame.
pub proof fn images_and_files_are_streamed(payload: PayloadView)
    ensures
        payload is ImagePng || payload is FileList ==> is_streamed(payload),
        payload is Text || payload is Html || payload is Rtf || payload is FileBundleDir
            ==> !is_streamed(payload),
{
}

/// A transfer that sends is shown by its peer, its item and its size, with nothing transferred
/// yet.
pub proof fn sending_starts_at_zero(
    peer: Seq<char>,
    other_host: Option<Seq<char>>,
    item: ItemView,
    now_ms: u64,
)
    ensures
        ({
            let t = sending_transfer(peer, other_host, item, now_ms);
            &&& t.direction == "send"@ && t.peer == peer && t.item_id == item.id
            &&& t.item_kind == protocol::kind_name(item.payload)
            &&& item.payload is FileList ==> t.total_bytes == item.payload->FileList_2
            &&& !(item.payload is FileList) ==> t.total_bytes == item.size_bytes
            &&& t.transferred_bytes == 0 && t.percent == 0 && t.status == "sending"@
            &&& t.error is None && t.updated_at_ms == now_ms
        }),
{
}

/// The files that were sent count as those that were copied exactly if their tree still has the
/// hash of the item; without a hash they do not.
pub proof fn files_are_compared_by_their_hash(item: ItemView, hash: Seq<char>)
    ensures
        files_changed(item, Some(hash)) <==> hash != item.content_hash,
        files_changed(item, None) <==> item.payload is FileList,
{
}

/// Once an item was delivered its transfer is complete; after any other event but a failure to
/// connect it has failed, with the reason. Other transfers, the queues and what is known of
/// contents stay as they are.
pub proof fn transfers_end_as_sending_went(
    s: StateView,
    item: ItemView,
    id: Seq<char>,
    event: SendEvent,
    known: MemberCache,
    now_ms: u64,
    i: int,
)
    requires
        0 <= i < s.transfers.len(),
        forall|j: int, k: int|
            0 <= j < k < s.transfers.len() ==> (#[trigger] s.transfers[j]).id != (
            #[trigger] s.transfers[k]).id,
    ensures
        ({
            let t = s.transfers[i];
            let after = send_noted(s, item, id, event, known, now_ms);
            &&& after.transfers.len() == s.transfers.len()
            &&& t.id != id ==> after.transfers[i] == t
            &&& t.id == id && event is Delivered ==> after.transfers[i].status == "completed"@
                && after.transfers[i].percent == 100 && after.transfers[i].error is None
            &&& t.id == id && !(event is Delivered) && (!(event is ConnectFailed)
                || item.payload is ImagePng) ==> after.transfers[i].status == "failed"@
                && after.transfers[i].error is Some
            &&& event is StreamFailed && t.id == id ==> after.transfers[i].error == Some(
                event->StreamFailed_error@,
            )
            &&& event is HandshakeFailed && t.id == id ==> after.transfers[i].error == Some(
                event->HandshakeFailed_error@,
            )
            &&& event is ConnectFailed && !(item.payload is ImagePng) ==> after == s
            &&& after.outbound == s.outbound && after.inbound == s.inbound && after.inflight
                == s.inflight && after.shared == s.shared && after.latest == s.latest
        }),
{
    transfers::a_change_reaches_one_transfer(
        s.transfers,
        id,
        |t: TransferView| transfers::as_completed(t, now_ms),
        i,
    );
    match event {
        SendEvent::ConnectFailed { error } => {
            transfers::a_change_reaches_one_transfer(
                s.transfers,
                id,
                |t: TransferView| transfers::with_status(t, "failed"@, Some(error@), now_ms),
                i,
            );
        },
        SendEvent::NotRegistered { error } => {
            transfers::a_change_reaches_one_transfer(
                s.transfers,
                id,
                |t: TransferView| transfers::with_status(t, "failed"@, Some(error@), now_ms),
                i,
            );
        },
        SendEvent::HandshakeFailed { error } => {
            transfers::a_change_reaches_one_transfer(
                s.transfers,
                id,
                |t: TransferView| transfers::with_status(t, "failed"@, Some(error@), now_ms),
                i,
            );
        },
        SendEvent::EncodeFailed { error } => {
            transfers::a_change_reaches_one_transfer(
                s.transfers,
                id,
                |t: TransferView| transfers::with_status(t, "failed"@, Some(error@), now_ms),
                i,
            );
        },
        SendEvent::StreamFailed { error } => {
            transfers::a_change_reaches_one_transfer(
                s.transfers,
                id,
                |t: TransferView| transfers::with_status(t, "failed"@, Some(error@), now_ms),
                i,
            );
        },
        SendEvent::WriteFailed => {
            let error = "发送失败"@;
            transfers::a_change_reaches_one_transfer(
                s.transfers,
                id,
                |t: TransferView| transfers::with_status(t, "failed"@, Some(error), now_ms),
                i,
            );
        },
        SendEvent::Delivered => {},
    }
}

} // verus!
