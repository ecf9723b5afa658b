//! What other devices send.

use crate::bytes;
use crate::bytes::same_bytes;
use crate::net::display;
use crate::net::display::{file_stream_label, file_stream_summary, payload_label, payload_summary};
use crate::net::domain;
use crate::net::file_stream::{ChunkCounter, StreamError};
use crate::net::flow;
use crate::net::flow::{enqueue_inbound_item, should_skip_remote_item};
use crate::net::marker;
use crate::net::marker::{
    file_stream_marker, image_stream_marker, is_stale_marker, ItemMarker, MarkerView,
};
use crate::net::members;
use crate::net::members::{mark_known_member, MemberCache};
use crate::net::state::{RuntimeState, StateView};
use crate::net::transfers;
use crate::net::transfers::{
    canonical_receive_transfer_id, mark_transfer_failed, receive_transfer_id_for, upsert_transfer,
    TransferProgress, TransferView,
};
use crate::net::wire::{
    FileStartView, FileStreamStart, ImageStartView, ImageStreamStart, PayloadStreamEnd, StreamEndView, WireBody,
};
use crate::primitives;
use crate::primitives::sha256_of;
use crate::protocol;
use crate::protocol::{ClipboardItem, ClipboardPayload, ItemView, PayloadView};
use crate::text;
use crate::text::same_text;
use vstd::prelude::*;
use vstd::utf8::*;

verus! {

/// How many connections may come in at one time.
pub const MAX_INCOMING_CONNECTIONS: usize = 16;

/// How many connections may come in from one address at one time.
pub const MAX_INCOMING_CONNECTIONS_PER_IP: usize = 4;

/// How many files or images may be received at one time.
pub const MAX_ACTIVE_PAYLOAD_RECEIVES: usize = 2;

/// A connection that came in, with the address that it came from.
#[derive(Debug)]
pub struct OpenConnection {
    pub id: u64,
    pub peer_ip: Option<String>,
}

/// The connections that came in and are still open.
#[derive(Debug)]
pub struct IncomingConnections {
    pub open: Vec<OpenConnection>,
}

/// How many connections come from an address.
pub open spec fn from_ip(open: Seq<OpenConnection>, ip: Seq<char>) -> nat
    decreases open.len(),
{
    if open.len() == 0 {
        0
    } else {
        from_ip(open.drop_last(), ip) + (if transfers::text_option(open.last().peer_ip) == Some(
            ip,
        ) {
            1nat
        } else {
            0nat
        })
    }
}

/// A further connection may come in.
pub open spec fn has_room(open: Seq<OpenConnection>, peer_ip: Option<Seq<char>>) -> bool {
    &&& open.len() < MAX_INCOMING_CONNECTIONS
    &&& peer_ip is Some ==> from_ip(open, peer_ip->Some_0) < MAX_INCOMING_CONNECTIONS_PER_IP
}

/// The open connections as plain values.
pub open spec fn connection_views(open: Seq<OpenConnection>) -> Seq<(u64, Option<Seq<char>>)> {
    open.map_values(|c: OpenConnection| (c.id, transfers::text_option(c.peer_ip)))
}

impl IncomingConnections {
    /// There are no more connections than allowed, in all and from one address.
    pub open spec fn wf(self) -> bool {
        &&& self.open@.len() <= MAX_INCOMING_CONNECTIONS
        &&& forall|ip: Seq<char>| #[trigger]
            from_ip(self.open@, ip) <= MAX_INCOMING_CONNECTIONS_PER_IP
    }

    /// No connections.
    pub fn new() -> (connections: Self)
        ensures
            connections.wf(),
            connections.open@.len() == 0,
    {
        IncomingConnections { open: Vec::new() }
    }

    /// Takes up a connection if there is room for it; tells whether there was.
    pub fn register(&mut self, id: u64, peer_ip: Option<String>) -> (registered: bool)
        requires
            old(self).wf(),
        ensures
            final(self).wf(),
            registered == has_room(old(self).open@, transfers::text_option(peer_ip)),
            connection_views(final(self).open@) == if registered {
                connection_views(old(self).open@).push((id, transfers::text_option(peer_ip)))
            } else {
                connection_views(old(self).open@)
            },
    {
        if self.open.len() >= MAX_INCOMING_CONNECTIONS {
            return false;
        }
        if let Some(ip) = &peer_ip {
            let mut count: usize = 0;
            let mut i: usize = 0;
            assert(from_ip(self.open@.take(0), ip@) == 0);
            while i < self.open.len()
                invariant
                    i <= self.open.len() < MAX_INCOMING_CONNECTIONS,
                    count <= i,
                    count == from_ip(self.open@.take(i as int), ip@),
                decreases self.open.len() - i,
            {
                proof {
                    assert(self.open@.take(i + 1).drop_last() =~= self.open@.take(i as int));
                    assert(self.open@.take(i + 1).last() == self.open@[i as int]);
                }
                if let Some(other) = &self.open[i].peer_ip {
                    if same_text(other, ip) {
                        count = count + 1;
                    }
                }
                i = i + 1;
            }
            assert(self.open@.take(i as int) =~= self.open@);
            if count >= MAX_INCOMING_CONNECTIONS_PER_IP {
                return false;
            }
        }
        let ghost before = self.open@;
        let connection = OpenConnection { id, peer_ip };
        self.open.push(connection);
        proof {
            assert forall|ip: Seq<char>| #[trigger]
                from_ip(self.open@, ip) <= MAX_INCOMING_CONNECTIONS_PER_IP by {
                assert(self.open@.drop_last() =~= before);
                assert(from_ip(before, ip) <= MAX_INCOMING_CONNECTIONS_PER_IP);
            }
            assert(connection_views(self.open@) =~= connection_views(before).push(
                (id, transfers::text_option(peer_ip)),
            ));
        }
        true
    }

    /// Takes note that a connection was closed.
    pub fn release(&mut self, id: u64)
        requires
            old(self).wf(),
        ensures
            final(self).wf(),
            connection_views(final(self).open@) == connection_views(old(self).open@).filter(
                |c: (u64, Option<Seq<char>>)| c.0 != id,
            ),
    {
        let ghost all = connection_views(self.open@);
        let ghost keep = |c: (u64, Option<Seq<char>>)| c.0 != id;
        let mut kept: Vec<OpenConnection> = Vec::new();
        let mut i: usize = 0;
        proof {
            reveal(Seq::filter);
        }
        assert(connection_views(kept@) =~= all.take(0).filter(keep));
        while i < self.open.len()
            invariant
                i <= self.open.len(),
                self.wf(),
                *self == *old(self),
                kept.len() <= i,
                all == connection_views(self.open@),
                keep == (|c: (u64, Option<Seq<char>>)| c.0 != id),
                connection_views(kept@) == all.take(i as int).filter(keep),
                forall|ip: Seq<char>| #[trigger]
                    from_ip(kept@, ip) <= from_ip(self.open@.take(i as int), ip),
            decreases self.open.len() - i,
        {
            let ghost before = kept@;
            proof {
                assert(all.take(i + 1) =~= all.take(i as int).push(all[i as int]));
                all.take(i as int).lemma_filter_push(all[i as int], keep);
                assert(self.open@.take(i + 1).drop_last() =~= self.open@.take(i as int));
                assert(self.open@.take(i + 1).last() == self.open@[i as int]);
            }
            if self.open[i].id != id {
                let copy = OpenConnection {
                    id: self.open[i].id,
                    peer_ip: match &self.open[i].peer_ip {
                        Some(ip) => Some(ip.clone()),
                        None => None,
                    },
                };
                kept.push(copy);
                proof {
                    assert(connection_views(kept@) =~= connection_views(before).push(all[i as int]));
                    assert(kept@.drop_last() =~= before);
                    assert forall|ip: Seq<char>| #[trigger]
                        from_ip(kept@, ip) <= from_ip(self.open@.take(i + 1), ip) by {
                        assert(from_ip(before, ip) <= from_ip(self.open@.take(i as int), ip));
                    }
                }
            } else {
                assert forall|ip: Seq<char>| #[trigger]
                    from_ip(kept@, ip) <= from_ip(self.open@.take(i + 1), ip) by {
                    assert(from_ip(before, ip) <= from_ip(self.open@.take(i as int), ip));
                }
            }
            i = i + 1;
        }
        assert(all.take(i as int) =~= all);
        assert(self.open@.take(i as int) =~= self.open@);
        self.open = kept;
        assert forall|ip: Seq<char>| #[trigger]
            from_ip(self.open@, ip) <= MAX_INCOMING_CONNECTIONS_PER_IP by {
            assert(from_ip(old(self).open@, ip) <= MAX_INCOMING_CONNECTIONS_PER_IP);
        }
    }
}

/// Takes up a receive of a file or image if there is room for it.
pub fn acquire_payload_receive(active: &mut usize) -> (result: Result<(), StreamError>)
    ensures
        match result {
            Ok(_) => *old(active) < MAX_ACTIVE_PAYLOAD_RECEIVES && *final(active) == *old(active)
                + 1,
            Err(e) => *old(active) >= MAX_ACTIVE_PAYLOAD_RECEIVES && e == StreamError::ReceiveLimit
                && *final(active) == *old(active),
        },
        *old(active) <= MAX_ACTIVE_PAYLOAD_RECEIVES ==> *final(active)
            <= MAX_ACTIVE_PAYLOAD_RECEIVES,
{
    if *active < MAX_ACTIVE_PAYLOAD_RECEIVES {
        *active = *active + 1;
        Ok(())
    } else {
        Err(StreamError::ReceiveLimit)
    }
}

/// Takes note that a receive has ended.
pub fn release_payload_receive(active: &mut usize)
    requires
        *old(active) > 0,
    ensures
        *final(active) == *old(active) - 1,
{
    *active = *active - 1;
}

/// What a received control body asks for.
#[derive(Debug)]
pub enum IncomingBody {
    /// An item to take up.
    Item(ClipboardItem),
    /// A file bundle that follows.
    FileStream(FileStreamStart),
    /// An image that follows.
    ImageStream(ImageStreamStart),
}

/// Sorts a control body that comes outside of any stream. The end of a stream has
/// no place there.
pub fn incoming_body(body: WireBody) -> (result: Result<IncomingBody, StreamError>)
    ensures
        match body {
            WireBody::ClipboardItem(item) => result == Ok::<_, StreamError>(
                IncomingBody::Item(item),
            ),
            WireBody::FileStreamRawStart(meta) => result == Ok::<_, StreamError>(
                IncomingBody::FileStream(meta),
            ),
            WireBody::ImageStreamRawStart(meta) => result == Ok::<_, StreamError>(
                IncomingBody::ImageStream(meta),
            ),
            WireBody::PayloadStreamEnd(_) => result == Err::<IncomingBody, _>(
                StreamError::UnexpectedEnd,
            ),
        },
{
    match body {
        WireBody::ClipboardItem(item) => Ok(IncomingBody::Item(item)),
        WireBody::FileStreamRawStart(meta) => Ok(IncomingBody::FileStream(meta)),
        WireBody::ImageStreamRawStart(meta) => Ok(IncomingBody::ImageStream(meta)),
        WireBody::PayloadStreamEnd(_) => Err(StreamError::UnexpectedEnd),
    }
}

/// The transfer of an item that was received.
pub open spec fn received_transfer(peer: Seq<char>, item: ItemView, now_ms: u64) -> TransferView {
    TransferView {
        id: transfers::receive_transfer_id(item.source_device_id, item.id),
        direction: "receive"@,
        peer,
        item_kind: protocol::kind_name(item.payload),
        item_label: display::label(item.payload),
        item_summary: display::summary(item.payload),
        item_id: item.id,
        transferred_bytes: item.size_bytes,
        total_bytes: item.size_bytes,
        percent: 100,
        status: "received"@,
        updated_at_ms: now_ms,
        error: None,
    }
}

/// The members with one that an item came from.
pub open spec fn is_with_device(before: MemberCache, after: MemberCache, id: Seq<char>) -> bool {
    &&& after.devices@ == before.devices@
    &&& after.seen_at@ == before.seen_at@
    &&& protocol::texts(after.known@) == members::known_after(
        protocol::texts(before.known@),
        "device"@,
        id,
    )
}

/// An item is taken up: synchronization goes on, it comes from another device, its
/// event is new and was not overtaken.
pub open spec fn is_taken_up(
    s: StateView,
    item: ItemView,
    device_id: Seq<char>,
    stopping: bool,
    now_ms: u64,
) -> bool {
    !stopping && item.source_device_id != device_id && !flow::is_skipped(s, item, now_ms)
}

/// The state after an item was received, where `known` are the members with the
/// device that it came from.
pub open spec fn item_received(
    s: StateView,
    peer: Seq<char>,
    item: ItemView,
    known: MemberCache,
    now_ms: u64,
) -> StateView {
    let checked = flow::remote_item_checked(StateView { members: known, ..s }, item, now_ms);
    if flow::is_skipped(s, item, now_ms) {
        checked
    } else {
        flow::inbound_queued(
            StateView {
                transfers: transfers::upserted(
                    checked.transfers,
                    received_transfer(peer, item, now_ms),
                    now_ms,
                ),
                ..checked
            },
            item,
            transfers::receive_transfer_id(item.source_device_id, item.id),
            peer,
            now_ms,
        )
    }
}

/// Takes up an item that was received. The first result tells whether it was
/// taken up, the second holds what its event has overtaken: what those contents
/// hold on disk is no longer needed.
pub fn handle_incoming_item(
    state: &mut RuntimeState,
    peer: &str,
    item: ClipboardItem,
    device_id: &str,
    stopping: bool,
    now_ms: u64,
) -> (result: (bool, Vec<ClipboardPayload>))
    requires
        old(state).wf(),
    ensures
        final(state).wf(),
        result.0 == is_taken_up(old(state)@, item@, device_id@, stopping, now_ms),
        if stopping || item@.source_device_id == device_id@ {
            final(state)@ == old(state)@
        } else {
            &&& is_with_device(
                old(state).members,
                final(state).members,
                item@.source_device_id,
            )
            &&& final(state)@ == item_received(
                old(state)@,
                peer@,
                item@,
                final(state).members,
                now_ms,
            )
        },
        domain::payloads(result.1@) == if result.0 {
            flow::discarded_by(old(state)@, marker::marker_of(item@))
        } else {
            Seq::<PayloadView>::empty()
        },
{
    let ghost s = state@;
    let ghost view = item@;
    if stopping || same_text(&item.source_device_id, device_id) {
        let none: Vec<ClipboardPayload> = Vec::new();
        assert(domain::payloads(none@) =~= Seq::<PayloadView>::empty());
        return (false, none);
    }
    let transfer_id = canonical_receive_transfer_id(&item);
    mark_known_member(&mut state.members.known, "device", &item.source_device_id);
    let ghost known = state.members;
    assert(state@ =~= (StateView { members: known, ..s }));
    let (skip, discarded) = should_skip_remote_item(state, &item, now_ms);
    if skip {
        return (false, discarded);
    }
    let ghost checked = state@;
    let transfer = TransferProgress {
        id: transfer_id.clone(),
        direction: "receive".to_owned(),
        peer: peer.to_owned(),
        item_kind: item.payload.kind().to_owned(),
        item_label: payload_label(&item.payload),
        item_summary: payload_summary(&item.payload),
        item_id: item.id.clone(),
        transferred_bytes: item.size_bytes,
        total_bytes: item.size_bytes,
        percent: 100,
        status: "received".to_owned(),
        updated_at_ms: now_ms,
        error: None,
    };
    assert(transfer@ =~= received_transfer(peer@, view, now_ms));
    upsert_transfer(&mut state.transfers, transfer, now_ms);
    let ghost shown = state@;
    assert(shown =~= (StateView {
        transfers: transfers::upserted(
            checked.transfers,
            received_transfer(peer@, view, now_ms),
            now_ms,
        ),
        ..checked
    }));
    let more = enqueue_inbound_item(state, item, &transfer_id, peer, now_ms);
    proof {
        marker::marker_order_is_total(marker::marker_of(view), marker::marker_of(view));
        assert(domain::payloads(more@) =~= Seq::<PayloadView>::empty());
    }
    (true, discarded)
}

/// The transfer of a stream that is being received.
pub open spec fn stream_transfer(
    peer: Seq<char>,
    kind: Seq<char>,
    label: Seq<char>,
    summary: Seq<char>,
    item_id: Seq<char>,
    source: Seq<char>,
    size_bytes: u64,
    now_ms: u64,
) -> TransferView {
    TransferView {
        id: transfers::receive_transfer_id(source, item_id),
        direction: "receive"@,
        peer,
        item_kind: kind,
        item_label: label,
        item_summary: summary,
        item_id,
        transferred_bytes: 0,
        total_bytes: size_bytes,
        percent: 0,
        status: "receiving"@,
        updated_at_ms: now_ms,
        error: None,
    }
}

/// The state after a transfer failed.
pub open spec fn transfer_failed(s: StateView, id: Seq<char>, error: Seq<char>, now_ms: u64) -> StateView {
    flow::with_transfer(
        s,
        Some(id),
        |t: TransferView| transfers::with_status(t, "failed"@, Some(error), now_ms),
    )
}

/// The state after a stream was announced.
pub open spec fn stream_begun(s: StateView, t: TransferView, m: MarkerView, now_ms: u64) -> StateView {
    let shown = StateView { transfers: transfers::upserted(s.transfers, t, now_ms), ..s };
    if marker::is_stale(s.latest, m) {
        transfer_failed(shown, t.id, "已被更新内容替代"@, now_ms)
    } else {
        shown
    }
}

fn begin_stream(
    state: &mut RuntimeState,
    transfer: TransferProgress,
    stream_marker: &ItemMarker,
    now_ms: u64,
) -> (result: Result<(), StreamError>)
    requires
        old(state).wf(),
    ensures
        final(state).wf(),
        final(state)@ == stream_begun(old(state)@, transfer@, stream_marker@, now_ms),
        match result {
            Ok(_) => !marker::is_stale(old(state)@.latest, stream_marker@),
            Err(e) => marker::is_stale(old(state)@.latest, stream_marker@) && e
                == StreamError::Stale,
        },
{
    let ghost s = state@;
    let ghost t = transfer@;
    let id = transfer.id.clone();
    upsert_transfer(&mut state.transfers, transfer, now_ms);
    assert(state@ =~= (StateView { transfers: transfers::upserted(s.transfers, t, now_ms), ..s }));
    if is_stale_marker(&state.latest_item, stream_marker) {
        mark_transfer_failed(&mut state.transfers, &id, "已被更新内容替代".to_owned(), now_ms);
        assert(state@ =~= stream_begun(s, t, stream_marker@, now_ms));
        return Err(StreamError::Stale);
    }
    Ok(())
}

/// The transfer of a file bundle that is being received.
pub open spec fn file_transfer(peer: Seq<char>, meta: FileStartView, now_ms: u64) -> TransferView {
    stream_transfer(
        peer,
        "file_bundle"@,
        display::files_label(meta.top_level_names),
        display::files_summary(meta.top_level_names),
        meta.item_id,
        meta.source_device_id,
        meta.size_bytes,
        now_ms,
    )
}

/// The event of a file bundle.
pub open spec fn file_marker(meta: FileStartView) -> MarkerView {
    MarkerView {
        id: meta.item_id,
        created_at_us: meta.created_at_us,
        source_device_id: meta.source_device_id,
    }
}

/// Begins to receive a file bundle. It is refused if it was overtaken.
pub fn begin_file_receive(
    state: &mut RuntimeState,
    peer: &str,
    meta: &FileStreamStart,
    now_ms: u64,
) -> (result: Result<String, StreamError>)
    requires
        old(state).wf(),
    ensures
        final(state).wf(),
        final(state)@ == stream_begun(
            old(state)@,
            file_transfer(peer@, meta@, now_ms),
            file_marker(meta@),
            now_ms,
        ),
        match result {
            Ok(id) => !marker::is_stale(old(state)@.latest, file_marker(meta@)) && id@
                == transfers::receive_transfer_id(meta@.source_device_id, meta@.item_id),
            Err(e) => marker::is_stale(old(state)@.latest, file_marker(meta@)) && e
                == StreamError::Stale,
        },
{
    let id = receive_transfer_id_for(&meta.source_device_id, &meta.item_id);
    let transfer = TransferProgress {
        id: id.clone(),
        direction: "receive".to_owned(),
        peer: peer.to_owned(),
        item_kind: "file_bundle".to_owned(),
        item_label: file_stream_label(&meta.top_level_names),
        item_summary: file_stream_summary(&meta.top_level_names),
        item_id: meta.item_id.clone(),
        transferred_bytes: 0,
        total_bytes: meta.size_bytes,
        percent: 0,
        status: "receiving".to_owned(),
        updated_at_ms: now_ms,
        error: None,
    };
    assert(transfer@ =~= file_transfer(peer@, meta@, now_ms));
    match begin_stream(state, transfer, &file_stream_marker(meta), now_ms) {
        Ok(_) => Ok(id),
        Err(e) => Err(e),
    }
}

/// The transfer of an image that is being received.
pub open spec fn image_transfer(peer: Seq<char>, meta: ImageStartView, now_ms: u64) -> TransferView {
    stream_transfer(
        peer,
        "image_png"@,
        display::label(PayloadView::ImagePng(Seq::empty())),
        display::summary(PayloadView::ImagePng(Seq::empty())),
        meta.item_id,
        meta.source_device_id,
        meta.size_bytes,
        now_ms,
    )
}

/// The event of an image.
pub open spec fn image_marker(meta: ImageStartView) -> MarkerView {
    MarkerView {
        id: meta.item_id,
        created_at_us: meta.created_at_us,
        source_device_id: meta.source_device_id,
    }
}

/// Begins to receive an image. It is refused if it was overtaken.
pub fn begin_image_receive(
    state: &mut RuntimeState,
    peer: &str,
    meta: &ImageStreamStart,
    now_ms: u64,
) -> (result: Result<String, StreamError>)
    requires
        old(state).wf(),
    ensures
        final(state).wf(),
        final(state)@ == stream_begun(
            old(state)@,
            image_transfer(peer@, meta@, now_ms),
            image_marker(meta@),
            now_ms,
        ),
        match result {
            Ok(id) => !marker::is_stale(old(state)@.latest, image_marker(meta@)) && id@
                == transfers::receive_transfer_id(meta@.source_device_id, meta@.item_id),
            Err(e) => marker::is_stale(old(state)@.latest, image_marker(meta@)) && e
                == StreamError::Stale,
        },
{
    let id = receive_transfer_id_for(&meta.source_device_id, &meta.item_id);
    let empty = ClipboardPayload::ImagePng { png_bytes: Vec::new() };
    assert(empty@ =~= PayloadView::ImagePng(Seq::empty()));
    let transfer = TransferProgress {
        id: id.clone(),
        direction: "receive".to_owned(),
        peer: peer.to_owned(),
        item_kind: "image_png".to_owned(),
        item_label: payload_label(&empty),
        item_summary: payload_summary(&empty),
        item_id: meta.item_id.clone(),
        transferred_bytes: 0,
        total_bytes: meta.size_bytes,
        percent: 0,
        status: "receiving".to_owned(),
        updated_at_ms: now_ms,
        error: None,
    };
    assert(transfer@ =~= image_transfer(peer@, meta@, now_ms));
    match begin_stream(state, transfer, &image_stream_marker(meta), now_ms) {
        Ok(_) => Ok(id),
        Err(e) => Err(e),
    }
}

/// The end that a stream must have: for this item, with as many chunks as were
/// declared and received, and the digest of what was received.
pub open spec fn is_matching_end(
    end: StreamEndView,
    item_id: Seq<char>,
    declared_chunks: u64,
    received_chunks: u64,
    digest: Seq<u8>,
) -> bool {
    &&& end.item_id == item_id
    &&& end.chunk_count == declared_chunks
    &&& end.chunk_count == received_chunks
    &&& end.digest_sha256 == digest
}

/// A stream ended as it must: the last frame came and matches.
pub open spec fn ends_well(
    end: Option<WireBody>,
    item_id: Seq<char>,
    declared_chunks: u64,
    received_chunks: u64,
    digest: Seq<u8>,
) -> bool {
    match end {
        Some(WireBody::PayloadStreamEnd(e)) => is_matching_end(
            e@,
            item_id,
            declared_chunks,
            received_chunks,
            digest,
        ),
        _ => false,
    }
}

/// Tells whether a stream ended as it must. Where no frame came, it did not.
pub fn stream_ends_well(
    end: &Option<WireBody>,
    item_id: &str,
    declared_chunks: u64,
    received_chunks: u64,
    digest: &[u8; 32],
) -> (valid: bool)
    ensures
        valid == ends_well(*end, item_id@, declared_chunks, received_chunks, digest@),
{
    match end {
        Some(WireBody::PayloadStreamEnd(e)) => same_text(&e.item_id, item_id) && e.chunk_count
            == declared_chunks && e.chunk_count == received_chunks && same_bytes(
            &e.digest_sha256,
            digest,
        ),
        _ => false,
    }
}

/// What became of a stream.
#[derive(Debug)]
pub enum StreamOutcome {
    /// Its item was taken up.
    Accepted { discarded: Vec<ClipboardPayload> },
    /// Its item was not taken up; what it holds on disk is no longer needed.
    Rejected { payload: ClipboardPayload },
}

/// Takes note that a transfer has failed.
pub fn fail_transfer(state: &mut RuntimeState, transfer_id: &str, error: &str, now_ms: u64)
    requires
        old(state).wf(),
    ensures
        final(state).wf(),
        final(state)@ == transfer_failed(old(state)@, transfer_id@, error@, now_ms),
{
    mark_transfer_failed(&mut state.transfers, transfer_id, error.to_owned(), now_ms);
    assert(state@ =~= transfer_failed(old(state)@, transfer_id@, error@, now_ms));
}

/// The item of a file bundle that was received.
pub open spec fn file_item(meta: FileStartView, bundle_dir: Seq<char>) -> ItemView {
    ItemView {
        id: meta.item_id,
        content_hash: meta.content_hash,
        created_at_us: meta.created_at_us,
        source_device_id: meta.source_device_id,
        size_bytes: meta.size_bytes,
        payload: PayloadView::FileBundleDir(bundle_dir, meta.top_level_names),
    }
}

/// The item of an image that was received.
pub open spec fn image_item(meta: ImageStartView, png_bytes: Seq<u8>) -> ItemView {
    ItemView {
        id: meta.item_id,
        content_hash: meta.content_hash,
        created_at_us: meta.created_at_us,
        source_device_id: meta.source_device_id,
        size_bytes: meta.size_bytes,
        payload: PayloadView::ImagePng(png_bytes),
    }
}

/// Why a file bundle that was received is not taken up, if it is not, with what is
/// shown to the user.
pub open spec fn file_refusal(
    meta: FileStartView,
    counter: ChunkCounter,
    end: Option<WireBody>,
) -> Option<(StreamError, Seq<char>)> {
    let digest = primitives::sha256(counter.content());
    let incomplete = StreamError::Incomplete {
        received: counter.received_bytes,
        expected: counter.total_bytes,
    };
    if counter.received_bytes != counter.total_bytes {
        Some((incomplete, incomplete.spec_message()))
    } else if !ends_well(end, meta.item_id, meta.chunk_count, counter.chunk_count, digest) {
        Some((StreamError::Integrity, "文件流完整性校验失败"@))
    } else {
        None
    }
}

/// Finishes receiving a file bundle: it is taken up only if everything that was
/// declared came, and the end of the stream vouches for it with the digest of what came.
/// Otherwise the transfer has failed.
pub fn finish_file_receive(
    state: &mut RuntimeState,
    peer: &str,
    meta: FileStreamStart,
    bundle_dir: String,
    counter: ChunkCounter,
    end: Option<WireBody>,
    device_id: &str,
    stopping: bool,
    now_ms: u64,
) -> (result: Result<StreamOutcome, StreamError>)
    requires
        old(state).wf(),
    ensures
        final(state).wf(),
        ({
            let s = old(state)@;
            let item = file_item(meta@, bundle_dir@);
            let id = transfers::receive_transfer_id(meta@.source_device_id, meta@.item_id);
            match file_refusal(meta@, counter, end) {
                Some((error, shown)) => {
                    &&& result == Err::<StreamOutcome, _>(error)
                    &&& final(state)@ == transfer_failed(s, id, shown, now_ms)
                },
                None => if stopping {
                    &&& result == Err::<StreamOutcome, _>(StreamError::Stopped)
                    &&& final(state)@ == s
                } else {
                    is_taken(*old(state), *final(state), peer@, item, device_id@, now_ms, result)
                },
            }
        }),
{
    let ghost s = state@;
    let ghost view = file_item(meta@, bundle_dir@);
    let ghost id_view = transfers::receive_transfer_id(meta@.source_device_id, meta@.item_id);
    if let Err(e) = counter.ensure_complete() {
        let id = receive_transfer_id_for(&meta.source_device_id, &meta.item_id);
        fail_transfer(state, &id, &e.message(), now_ms);
        return Err(e);
    }
    let chunk_count: u64 = counter.chunk_count;
    let digest = counter.digest_sha256();
    if !stream_ends_well(&end, &meta.item_id, meta.chunk_count, chunk_count, &digest) {
        let id = receive_transfer_id_for(&meta.source_device_id, &meta.item_id);
        fail_transfer(state, &id, "文件流完整性校验失败", now_ms);
        return Err(StreamError::Integrity);
    }
    if stopping {
        return Err(StreamError::Stopped);
    }
    let item = ClipboardItem {
        id: meta.item_id,
        content_hash: meta.content_hash,
        created_at_us: meta.created_at_us,
        source_device_id: meta.source_device_id,
        size_bytes: meta.size_bytes,
        payload: ClipboardPayload::FileBundleDir {
            bundle_dir,
            top_level_names: meta.top_level_names,
        },
    };
    assert(item@ =~= view);
    take_up(state, peer, item, device_id, now_ms)
}

/// What was received was taken up, or not, as any other item.
pub open spec fn is_taken(
    before: RuntimeState,
    after: RuntimeState,
    peer: Seq<char>,
    item: ItemView,
    device_id: Seq<char>,
    now_ms: u64,
    result: Result<StreamOutcome, StreamError>,
) -> bool {
    let s = before@;
    &&& if item.source_device_id == device_id {
        after@ == s
    } else {
        &&& is_with_device(before.members, after.members, item.source_device_id)
        &&& after@ == item_received(s, peer, item, after.members, now_ms)
    }
    &&& match result {
        Ok(StreamOutcome::Accepted { discarded }) => {
            &&& is_taken_up(s, item, device_id, false, now_ms)
            &&& domain::payloads(discarded@) == flow::discarded_by(s, marker::marker_of(item))
        },
        Ok(StreamOutcome::Rejected { payload }) => {
            &&& !is_taken_up(s, item, device_id, false, now_ms)
            &&& payload@ == item.payload
        },
        Err(_) => false,
    }
}

fn take_up(
    state: &mut RuntimeState,
    peer: &str,
    item: ClipboardItem,
    device_id: &str,
    now_ms: u64,
) -> (result: Result<StreamOutcome, StreamError>)
    requires
        old(state).wf(),
    ensures
        final(state).wf(),
        is_taken(*old(state), *final(state), peer@, item@, device_id@, now_ms, result),
{
    let payload = item.payload.clone();
    let (taken, discarded) = handle_incoming_item(state, peer, item, device_id, false, now_ms);
    if taken {
        Ok(StreamOutcome::Accepted { discarded })
    } else {
        Ok(StreamOutcome::Rejected { payload })
    }
}

/// Why an image that was received is not taken up, if it is not, with what is
/// shown to the user.
pub open spec fn image_refusal(
    meta: ImageStartView,
    counter: ChunkCounter,
    png_bytes: Seq<u8>,
    end: Option<WireBody>,
) -> Option<(StreamError, Seq<char>)> {
    let digest = primitives::sha256(png_bytes);
    let incomplete = StreamError::Incomplete {
        received: counter.received_bytes,
        expected: counter.total_bytes,
    };
    if counter.received_bytes != counter.total_bytes {
        Some((incomplete, incomplete.spec_message()))
    } else if !ends_well(end, meta.item_id, meta.chunk_count, counter.chunk_count, digest)
        || meta.content_hash != bytes::hex_text(digest) {
        Some((StreamError::Integrity, "文件流完整性校验失败"@))
    } else {
        None
    }
}

/// Finishes receiving an image: it is taken up only if everything that was declared
/// came, the end of the stream vouches for it, and it has the content hash that
/// was announced. Otherwise the transfer has failed.
pub fn finish_image_receive(
    state: &mut RuntimeState,
    peer: &str,
    meta: ImageStreamStart,
    png_bytes: Vec<u8>,
    counter: ChunkCounter,
    end: Option<WireBody>,
    device_id: &str,
    stopping: bool,
    now_ms: u64,
) -> (result: Result<StreamOutcome, StreamError>)
    requires
        old(state).wf(),
    ensures
        final(state).wf(),
        ({
            let s = old(state)@;
            let item = image_item(meta@, png_bytes@);
            let id = transfers::receive_transfer_id(meta@.source_device_id, meta@.item_id);
            match image_refusal(meta@, counter, png_bytes@, end) {
                Some((error, shown)) => {
                    &&& result == Err::<StreamOutcome, _>(error)
                    &&& final(state)@ == transfer_failed(s, id, shown, now_ms)
                },
                None => if stopping {
                    &&& result == Err::<StreamOutcome, _>(StreamError::Stopped)
                    &&& final(state)@ == s
                } else {
                    is_taken(*old(state), *final(state), peer@, item, device_id@, now_ms, result)
                },
            }
        }),
{
    let ghost view = image_item(meta@, png_bytes@);
    if let Err(e) = counter.ensure_complete() {
        let id = receive_transfer_id_for(&meta.source_device_id, &meta.item_id);
        fail_transfer(state, &id, &e.message(), now_ms);
        return Err(e);
    }
    let digest = sha256_of(&png_bytes);
    if !stream_ends_well(&end, &meta.item_id, meta.chunk_count, counter.chunk_count, &digest)
        || !same_text(&meta.content_hash, &crate::bytes::hex_of(&digest)) {
        let id = receive_transfer_id_for(&meta.source_device_id, &meta.item_id);
        fail_transfer(state, &id, "文件流完整性校验失败", now_ms);
        return Err(StreamError::Integrity);
    }
    if stopping {
        return Err(StreamError::Stopped);
    }
    let item = ClipboardItem {
        id: meta.item_id,
        content_hash: meta.content_hash,
        created_at_us: meta.created_at_us,
        source_device_id: meta.source_device_id,
        size_bytes: meta.size_bytes,
        payload: ClipboardPayload::ImagePng { png_bytes },
    };
    assert(item@ =~= view);
    take_up(state, peer, item, device_id, now_ms)
}

/// A stream without a matching end is never taken up: its transfer has failed,
/// whether the last frame is wrong or never came.
pub proof fn unfinished_streams_fail(
    meta: FileStartView,
    counter: ChunkCounter,
    end: Option<WireBody>,
)
    requires
        end is None || counter.received_bytes != counter.total_bytes,
    ensures
        file_refusal(meta, counter, end) is Some,
{
}

/// An item of this device that comes back is not taken up.
pub proof fn own_items_do_not_come_back(
    s: StateView,
    item: ItemView,
    stopping: bool,
    now_ms: u64,
)
    ensures
        !is_taken_up(s, item, item.source_device_id, stopping, now_ms),
{
}

proof fn connections_are_counted(open: Seq<OpenConnection>, ip: Seq<char>)
    ensures
        from_ip(open, ip) == open.filter(
            |c: OpenConnection| transfers::text_option(c.peer_ip) == Some(ip),
        ).len(),
    decreases open.len(),
{
    reveal(Seq::filter);
    if open.len() > 0 {
        connections_are_counted(open.drop_last(), ip);
    }
}

/// A connection is let in as long as fewer than 16 are open, and fewer than 4 from its address.
/// Whoever else is connected does not matter.
pub proof fn there_is_room_for_sixteen(open: Seq<OpenConnection>, ip: Seq<char>)
    ensures
        has_room(open, None) <==> open.len() < 16,
        has_room(open, Some(ip)) <==> open.len() < 16 && open.filter(
            |c: OpenConnection| transfers::text_option(c.peer_ip) == Some(ip),
        ).len() < 4,
        open.len() < 16 && (forall|i: int|
            0 <= i < open.len() ==> transfers::text_option((#[trigger] open[i]).peer_ip) != Some(ip))
            ==> has_room(open, Some(ip)),
{
    connections_are_counted(open, ip);
    let same = |c: OpenConnection| transfers::text_option(c.peer_ip) == Some(ip);
    if forall|i: int|
        0 <= i < open.len() ==> transfers::text_option((#[trigger] open[i]).peer_ip) != Some(ip) {
        let found = open.filter(same);
        if found.len() > 0 {
            open.lemma_filter_pred(same, 0);
            assert(found.contains(found[0]));
            open.lemma_filter_contains_rev(same, found[0]);
            let k = open.index_of(found[0]);
            assert(transfers::text_option(open[k].peer_ip) == Some(ip));
        }
    }
}

/// An item of another device is taken up if it was copied later than all that is known and its
/// event was never noted; it then waits to be applied, last of all, with its content as it
/// came. Items of this device, known ones and overtaken ones are not.
pub proof fn later_items_of_others_are_taken_up(
    s: StateView,
    peer: Seq<char>,
    item: ItemView,
    known: MemberCache,
    device_id: Seq<char>,
    now_ms: u64,
)
    requires
        item.source_device_id != device_id,
        s.latest is None || s.latest->Some_0.created_at_us < item.created_at_us,
        forall|i: int| 0 <= i < s.recent_events.len() ==> (#[trigger] s.recent_events[i]).0 != item.id,
        s.recent_events.len() <= 4_096,
    ensures
        is_taken_up(s, item, device_id, false, now_ms),
        !is_taken_up(s, item, device_id, true, now_ms),
        !is_taken_up(s, item, item.source_device_id, false, now_ms),
        ({
            let after = item_received(s, peer, item, known, now_ms);
            &&& after.inbound.len() > 0
            &&& after.inbound.last().item == item
            &&& after.inbound.last().attempts == 0
            &&& after.inbound.last().next_attempt_at_ms == now_ms
            &&& after.latest == Some(
                MarkerView {
                    id: item.id,
                    created_at_us: item.created_at_us,
                    source_device_id: item.source_device_id,
                },
            )
            &&& after.shared == s.shared
            &&& after.members == known
        }),
{
    flow::received_items_are_skipped_for_two_reasons(s, item, now_ms);
    let with_known = StateView { members: known, ..s };
    flow::received_items_are_skipped_for_two_reasons(with_known, item, now_ms);
    flow::checking_an_item_touches_events_alone(with_known, item, now_ms);
    let m = marker::marker_of(item);
    marker::marker_order_is_total(m, m);
}

/// An item that is known already leaves everything as it is, but for the members and for events
/// that are forgotten by their age.
pub proof fn known_items_change_nothing(
    s: StateView,
    peer: Seq<char>,
    item: ItemView,
    known: MemberCache,
    device_id: Seq<char>,
    now_ms: u64,
)
    requires
        flow::is_skipped(s, item, now_ms),
    ensures
        !is_taken_up(s, item, device_id, false, now_ms),
        ({
            let after = item_received(s, peer, item, known, now_ms);
            after == StateView { members: known, recent_events: after.recent_events, ..s }
        }),
{
    let after = item_received(s, peer, item, known, now_ms);
    flow::checking_an_item_touches_events_alone(
        StateView { members: known, ..s },
        item,
        now_ms,
    );
    assert(after =~= (StateView { members: known, recent_events: after.recent_events, ..s }));
}

/// What was streamed is the item that was announced, under the same identifiers, hash, time and
/// size; its content is what came.
pub proof fn streamed_items_are_as_announced(
    files: FileStartView,
    bundle_dir: Seq<char>,
    image: ImageStartView,
    png_bytes: Seq<u8>,
)
    ensures
        file_item(files, bundle_dir) == (ItemView {
            id: files.item_id,
            content_hash: files.content_hash,
            created_at_us: files.created_at_us,
            source_device_id: files.source_device_id,
            size_bytes: files.size_bytes,
            payload: PayloadView::FileBundleDir(bundle_dir, files.top_level_names),
        }),
        image_item(image, png_bytes) == (ItemView {
            id: image.item_id,
            content_hash: image.content_hash,
            created_at_us: image.created_at_us,
            source_device_id: image.source_device_id,
            size_bytes: image.size_bytes,
            payload: PayloadView::ImagePng(png_bytes),
        }),
{
}

/// A stream of files is taken up exactly if every byte came that was announced, and its end
/// names the item, the number of chunks that was announced and came, and the digest of what came.
pub proof fn complete_streams_are_taken_up(
    meta: FileStartView,
    counter: ChunkCounter,
    end: PayloadStreamEnd,
)
    ensures
        file_refusal(meta, counter, Some(WireBody::PayloadStreamEnd(end))) is None <==> {
            &&& counter.received_bytes == counter.total_bytes
            &&& end@.item_id == meta.item_id
            &&& end@.chunk_count == meta.chunk_count
            &&& end@.chunk_count == counter.chunk_count
            &&& end@.digest_sha256 == primitives::sha256(counter.content())
        },
        file_refusal(meta, counter, None) is Some,
{
}

/// A stream that was announced is shown as being received, unless it was copied before the
/// latest event: then its transfer has failed, and it is not received at all.
pub proof fn announced_streams_are_shown(s: StateView, t: TransferView, m: MarkerView, now_ms: u64)
    requires
        s.transfers.len() < 24,
    ensures
        ({
            let after = stream_begun(s, t, m, now_ms);
            &&& s.latest is None || s.latest->Some_0.created_at_us < m.created_at_us
                ==> after.transfers.contains(t)
            &&& after == StateView { transfers: after.transfers, ..s }
        }),
{
    let other = TransferView { id: t.id.push('x'), ..t };
    assert(other.id.len() != t.id.len());
    transfers::added_transfers_are_shown(s.transfers, t, now_ms, other);
    let after = stream_begun(s, t, m, now_ms);
    assert(after =~= (StateView { transfers: after.transfers, ..s }));
}

/// A stream is shown by its item, its device and its size, as received from its peer, with
/// nothing transferred yet.
pub proof fn streams_start_at_zero(peer: Seq<char>, files: FileStartView, image: ImageStartView, now_ms: u64)
    ensures
        ({
            let t = file_transfer(peer, files, now_ms);
            &&& t.id == "recv:"@ + files.source_device_id + ":"@ + files.item_id
            &&& t.direction == "receive"@ && t.peer == peer && t.item_kind == "file_bundle"@
            &&& t.item_id == files.item_id && t.total_bytes == files.size_bytes
            &&& t.transferred_bytes == 0 && t.percent == 0 && t.status == "receiving"@
            &&& t.error is None && t.updated_at_ms == now_ms
        }),
        ({
            let t = image_transfer(peer, image, now_ms);
            &&& t.id == "recv:"@ + image.source_device_id + ":"@ + image.item_id
            &&& t.direction == "receive"@ && t.peer == peer && t.item_kind == "image_png"@
            &&& t.item_id == image.item_id && t.total_bytes == image.size_bytes
            &&& t.transferred_bytes == 0 && t.percent == 0 && t.status == "receiving"@
            &&& t.error is None && t.updated_at_ms == now_ms
        }),
{
}

/// An image is taken up exactly if every byte came that was announced, its end names the item,
/// the number of chunks that was announced and came, and the digest of the image, and that digest
/// is the hash that was announced.
pub proof fn images_are_taken_up_by_their_digest(
    meta: ImageStartView,
    counter: ChunkCounter,
    png_bytes: Seq<u8>,
    end: PayloadStreamEnd,
)
    ensures
        image_refusal(meta, counter, png_bytes, Some(WireBody::PayloadStreamEnd(end))) is None <==> {
            &&& counter.received_bytes == counter.total_bytes
            &&& end@.item_id == meta.item_id
            &&& end@.chunk_count == meta.chunk_count
            &&& end@.chunk_count == counter.chunk_count
            &&& end@.digest_sha256 == primitives::sha256(png_bytes)
            &&& meta.content_hash == bytes::hex_text(primitives::sha256(png_bytes))
        },
        image_refusal(meta, counter, png_bytes, None) is Some,
{
}

/// The transfer of a received item shows its sender, what it is and that all of it came.
pub proof fn received_items_are_shown(peer: Seq<char>, item: ItemView, now_ms: u64)
    ensures
        ({
            let t = received_transfer(peer, item, now_ms);
            &&& t.id == "recv:"@ + item.source_device_id + ":"@ + item.id
            &&& t.direction == "receive"@ && t.peer == peer && t.item_id == item.id
            &&& t.item_kind == protocol::kind_name(item.payload)
            &&& t.item_label == display::label(item.payload)
            &&& t.item_summary == display::summary(item.payload)
            &&& t.transferred_bytes == item.size_bytes && t.total_bytes == item.size_bytes
            &&& t.percent == 100 && t.error is None && t.updated_at_ms == now_ms
        }),
{
}

/// What was streamed by another device, was copied later than all that is known and whose event
/// was never noted, is accepted: it waits to be applied, last of all. What was streamed by this
/// device itself changes nothing and is handed back.
pub proof fn later_streams_of_others_are_accepted(
    before: RuntimeState,
    after: RuntimeState,
    peer: Seq<char>,
    item: ItemView,
    device_id: Seq<char>,
    now_ms: u64,
    result: Result<StreamOutcome, StreamError>,
)
    requires
        is_taken(before, after, peer, item, device_id, now_ms, result),
        before@.recent_events.len() <= 4_096,
        before@.latest is None || before@.latest->Some_0.created_at_us < item.created_at_us,
        forall|i: int|
            0 <= i < before@.recent_events.len() ==> (#[trigger] before@.recent_events[i]).0
                != item.id,
    ensures
        item.source_device_id != device_id ==> {
            &&& result is Ok && result->Ok_0 is Accepted
            &&& after@.inbound.len() > 0 && after@.inbound.last().item == item
        },
        item.source_device_id == device_id ==> {
            &&& result is Ok && result->Ok_0 is Rejected
            &&& result->Ok_0->payload@ == item.payload
            &&& after@ == before@
        },
{
    if item.source_device_id != device_id {
        later_items_of_others_are_taken_up(
            before@,
            peer,
            item,
            after.members,
            device_id,
            now_ms,
        );
    }
}

/// The device that an item came from is known from then on; who is listed and when they were
/// heard of does not change by it.
pub proof fn senders_are_remembered(before: MemberCache, after: MemberCache, id: Seq<char>)
    requires
        is_with_device(before, after, id),
        text::trimmed(id) == id,
        id.len() > 0,
        encode_utf8(id).len() <= 160,
    ensures
        protocol::texts(after.known@).contains("device"@ + ":"@ + id),
        after.devices@ == before.devices@,
        after.seen_at@ == before.seen_at@,
{
    members::members_are_remembered(protocol::texts(before.known@), "device"@, id, id);
}

} // verus!
