//! Frames between two authenticated devices.
//!
//! Control frames carry small contents and the starts and ends of streams. Each
//! is sealed, bound to the session and numbered without gaps. Raw frames carry the
//! chunks of a stream and are bound to session, transfer and chunk index.

use crate::bytes;
use crate::bytes::{copy_array, copy_range, push_all, push_be32, push_be64, read_be64, same_bytes};
use crate::net::codec;
use crate::net::codec::{
    decode_file_start, decode_image_start, decode_item, decode_stream_end, decode_variant,
    encode_file_start, encode_image_start, encode_item, encode_stream_end,
};
use crate::net::crypto::{
    decrypt_bytes, decrypt_raw_payload_bytes, encrypt_bytes_with, encrypt_raw_payload_bytes_with,
    AEAD_TAG_BYTES,
};
use crate::net::error::NetError;
use crate::net::handshake;
use crate::net::handshake::{Session, SessionView};
use crate::primitives;
use crate::primitives::random_nonce12;
use crate::protocol;
use crate::protocol::{clone_texts, ClipboardItem, ClipboardPayload, ItemView, PayloadView};
use crate::settings::Settings;
use crate::text;
use crate::text::{byte_len, chars_of, is_control, lowercase, same_text};
use crate::uuid_text;
use crate::uuid_text::{is_nil_uuid, parse_uuid_text};
use vstd::prelude::*;
use vstd::utf8::*;

verus! {

/// The version of the frame format.
pub const WIRE_VERSION: u8 = 5;

/// Marks a frame as encrypted; no other flag exists.
pub const ENCRYPTED_FLAG: u8 = 1;

/// The largest content that a control frame carries (8 MiB).
pub const MAX_PORTABLE_PAYLOAD_BYTES: u64 = 8_388_608;

/// What a control frame may hold beside the content (256 KiB).
pub const CONTROL_FRAME_OVERHEAD_BYTES: u64 = 262_144;

/// The length of the header of a control frame.
pub const CONTROL_HEADER_BYTES: usize = 26;

/// The length of the header of a raw frame.
pub const RAW_HEADER_BYTES: usize = 42;

/// The length of a nonce.
pub const RAW_NONCE_BYTES: usize = 12;

/// The most top-level entries of a file stream.
pub const MAX_TOP_LEVEL_NAMES: usize = 256;

/// The longest name of a top-level entry in bytes.
pub const MAX_TOP_LEVEL_NAME_BYTES: usize = 255;

/// How far the clock of another device may be ahead (5 minutes).
pub const MAX_FUTURE_CLOCK_SKEW_US: u64 = 300_000_000;

/// The length of the chunks of a stream (1 MiB).
pub const RAW_PAYLOAD_PLAIN_BYTES: u64 = 1_048_576;

/// The largest image stream (80 MiB): larger images cannot be decoded safely.
pub const MAX_IMAGE_SOURCE_BYTES: u64 = 83_886_080;

/// The start of a stream of files.
#[derive(Debug)]
pub struct FileStreamStart {
    pub item_id: String,
    pub content_hash: String,
    pub created_at_us: u64,
    pub source_device_id: String,
    pub size_bytes: u64,
    pub chunk_count: u64,
    pub top_level_names: Vec<String>,
}

/// The start of the stream of an image.
#[derive(Debug)]
pub struct ImageStreamStart {
    pub item_id: String,
    pub content_hash: String,
    pub created_at_us: u64,
    pub source_device_id: String,
    pub size_bytes: u64,
    pub chunk_count: u64,
}

/// The end of a stream.
#[derive(Debug)]
pub struct PayloadStreamEnd {
    pub item_id: String,
    pub chunk_count: u64,
    pub digest_sha256: [u8; 32],
}

/// The body of a control frame.
#[derive(Debug)]
pub enum WireBody {
    ClipboardItem(ClipboardItem),
    FileStreamRawStart(FileStreamStart),
    ImageStreamRawStart(ImageStreamStart),
    PayloadStreamEnd(PayloadStreamEnd),
}

/// The start of a stream of files as plain values.
#[verifier::ext_equal]
pub struct FileStartView {
    pub item_id: Seq<char>,
    pub content_hash: Seq<char>,
    pub created_at_us: u64,
    pub source_device_id: Seq<char>,
    pub size_bytes: u64,
    pub chunk_count: u64,
    pub top_level_names: Seq<Seq<char>>,
}

/// The start of the stream of an image as plain values.
#[verifier::ext_equal]
pub struct ImageStartView {
    pub item_id: Seq<char>,
    pub content_hash: Seq<char>,
    pub created_at_us: u64,
    pub source_device_id: Seq<char>,
    pub size_bytes: u64,
    pub chunk_count: u64,
}

/// The end of a stream as plain values.
#[verifier::ext_equal]
pub struct StreamEndView {
    pub item_id: Seq<char>,
    pub chunk_count: u64,
    pub digest_sha256: Seq<u8>,
}

/// The body of a control frame as plain values.
#[verifier::ext_equal]
pub enum WireBodyView {
    Item(ItemView),
    FileStart(FileStartView),
    ImageStart(ImageStartView),
    End(StreamEndView),
}

impl View for FileStreamStart {
    type V = FileStartView;

    open spec fn view(&self) -> FileStartView {
        FileStartView {
            item_id: self.item_id@,
            content_hash: self.content_hash@,
            created_at_us: self.created_at_us,
            source_device_id: self.source_device_id@,
            size_bytes: self.size_bytes,
            chunk_count: self.chunk_count,
            top_level_names: protocol::texts(self.top_level_names@),
        }
    }
}

impl View for ImageStreamStart {
    type V = ImageStartView;

    open spec fn view(&self) -> ImageStartView {
        ImageStartView {
            item_id: self.item_id@,
            content_hash: self.content_hash@,
            created_at_us: self.created_at_us,
            source_device_id: self.source_device_id@,
            size_bytes: self.size_bytes,
            chunk_count: self.chunk_count,
        }
    }
}

impl View for PayloadStreamEnd {
    type V = StreamEndView;

    open spec fn view(&self) -> StreamEndView {
        StreamEndView {
            item_id: self.item_id@,
            chunk_count: self.chunk_count,
            digest_sha256: self.digest_sha256@,
        }
    }
}

impl View for WireBody {
    type V = WireBodyView;

    open spec fn view(&self) -> WireBodyView {
        match self {
            WireBody::ClipboardItem(item) => WireBodyView::Item(item@),
            WireBody::FileStreamRawStart(meta) => WireBodyView::FileStart(meta@),
            WireBody::ImageStreamRawStart(meta) => WireBodyView::ImageStart(meta@),
            WireBody::PayloadStreamEnd(end) => WireBodyView::End(end@),
        }
    }
}

impl Clone for FileStreamStart {
    fn clone(&self) -> (copy: Self)
        ensures
            copy@ == self@,
    {
        FileStreamStart {
            item_id: self.item_id.clone(),
            content_hash: self.content_hash.clone(),
            created_at_us: self.created_at_us,
            source_device_id: self.source_device_id.clone(),
            size_bytes: self.size_bytes,
            chunk_count: self.chunk_count,
            top_level_names: clone_texts(&self.top_level_names),
        }
    }
}

impl Clone for ImageStreamStart {
    fn clone(&self) -> (copy: Self)
        ensures
            copy@ == self@,
    {
        ImageStreamStart {
            item_id: self.item_id.clone(),
            content_hash: self.content_hash.clone(),
            created_at_us: self.created_at_us,
            source_device_id: self.source_device_id.clone(),
            size_bytes: self.size_bytes,
            chunk_count: self.chunk_count,
        }
    }
}

/// The smaller of two numbers.
pub open spec fn least(a: int, b: int) -> int {
    if a <= b {
        a
    } else {
        b
    }
}

/// `a / b`, rounded up.
pub open spec fn rounded_up(a: int, b: int) -> int {
    (a + b - 1) / b
}

/// A text that names an item or a device.
pub open spec fn is_identifier(s: Seq<char>) -> bool {
    uuid_text::uuid_bytes(s) is Some && !uuid_text::is_nil(uuid_text::uuid_bytes(s)->Some_0)
}

/// A SHA-256 digest in hexadecimal.
pub open spec fn is_digest_text(s: Seq<char>) -> bool {
    s.len() == 64 && forall|i: int| 0 <= i < s.len() ==> bytes::hex_value(#[trigger] s[i]) is Some
}

/// A time that is set and not too far ahead of `now_us`.
pub open spec fn is_plausible_time(created_at_us: u64, now_us: u64) -> bool {
    created_at_us != 0 && created_at_us <= least(now_us + MAX_FUTURE_CLOCK_SKEW_US, u64::MAX as int)
}

/// What is wrong with the identification of a content, if anything.
pub open spec fn identification_error(
    item_id: Seq<char>,
    source: Seq<char>,
    content_hash: Seq<char>,
    created_at_us: u64,
    now_us: u64,
) -> Option<NetError> {
    if !is_identifier(item_id) {
        Some(NetError::InvalidItemId)
    } else if !is_identifier(source) {
        Some(NetError::InvalidSourceDeviceId)
    } else if !is_digest_text(content_hash) {
        Some(NetError::InvalidContentHash)
    } else if !is_plausible_time(created_at_us, now_us) {
        Some(NetError::TimestampSkew)
    } else {
        None
    }
}

/// The text of a content that a control frame can carry, and its kind.
pub open spec fn portable(payload: PayloadView) -> Result<(u32, Seq<char>), NetError> {
    match payload {
        PayloadView::Text(s) => Ok((0u32, s)),
        PayloadView::Html(s) => Ok((1u32, s)),
        PayloadView::Rtf(s) => Ok((2u32, s)),
        PayloadView::ImagePng(_) => Err(NetError::ImageNeedsStream),
        PayloadView::FileBundleDir(_, _) => Err(NetError::LocalPayload),
        PayloadView::FileList(_, _, _) => Err(NetError::LocalPayload),
    }
}

/// The content of a kind with a text.
pub open spec fn payload_of(kind: u32, s: Seq<char>) -> Option<PayloadView> {
    if kind == 0 {
        Some(PayloadView::Text(s))
    } else if kind == 1 {
        Some(PayloadView::Html(s))
    } else if kind == 2 {
        Some(PayloadView::Rtf(s))
    } else {
        None
    }
}

/// The largest content of a control frame under a size limit.
pub open spec fn portable_limit(max_item_bytes: u64) -> int {
    least(max_item_bytes as int, MAX_PORTABLE_PAYLOAD_BYTES as int)
}

/// The size of a content is what it is declared to be, and within the limits.
pub open spec fn is_portable_size(actual: nat, declared: u64, max_item_bytes: u64) -> bool {
    0 < actual && actual == declared && actual <= portable_limit(max_item_bytes)
}

/// A name of a top-level entry that could leave its directory or upset a terminal.
pub open spec fn is_unsafe_name(s: Seq<char>) -> bool {
    ||| s.len() == 0
    ||| encode_utf8(s).len() > MAX_TOP_LEVEL_NAME_BYTES
    ||| s == "."@
    ||| s == ".."@
    ||| exists|i: int|
        0 <= i < s.len() && (#[trigger] s[i] == '/' || s[i] == '\\' || text::is_control_char(s[i]))
}

/// Entry `i` differs from an earlier one in the case of letters at most.
pub open spec fn is_repeated(names: Seq<Seq<char>>, i: int) -> bool {
    exists|j: int|
        0 <= j < i && text::lowered(#[trigger] names[j]) == text::lowered(names[i])
}

/// What is wrong with the names from `i` on, if anything.
pub open spec fn names_error_from(names: Seq<Seq<char>>, i: int) -> Option<NetError>
    decreases names.len() - i,
{
    if i >= names.len() {
        None
    } else if is_unsafe_name(names[i]) {
        Some(NetError::UnsafeTopLevelName)
    } else if is_repeated(names, i) {
        Some(NetError::DuplicateTopLevelName)
    } else {
        names_error_from(names, i + 1)
    }
}

/// What is wrong with the names of top-level entries, if anything.
pub open spec fn names_error(names: Seq<Seq<char>>) -> Option<NetError> {
    if names.len() == 0 || names.len() > MAX_TOP_LEVEL_NAMES {
        Some(NetError::TopLevelCount)
    } else {
        names_error_from(names, 0)
    }
}

/// What is wrong with an item, if anything.
pub open spec fn item_error(item: ItemView, max_item_bytes: u64, now_us: u64) -> Option<NetError> {
    match identification_error(
        item.id,
        item.source_device_id,
        item.content_hash,
        item.created_at_us,
        now_us,
    ) {
        Some(e) => Some(e),
        None => match portable(item.payload) {
            Err(e) => Some(e),
            Ok((_, s)) => if is_portable_size(
                encode_utf8(s).len(),
                item.size_bytes,
                max_item_bytes,
            ) {
                None
            } else {
                Some(NetError::PayloadSize)
            },
        },
    }
}

/// What is wrong with the start of a file stream, if anything.
pub open spec fn file_start_error(meta: FileStartView, max_item_bytes: u64, now_us: u64) -> Option<
    NetError,
> {
    match identification_error(
        meta.item_id,
        meta.source_device_id,
        meta.content_hash,
        meta.created_at_us,
        now_us,
    ) {
        Some(e) => Some(e),
        None => if meta.size_bytes == 0 || meta.size_bytes > max_item_bytes {
            Some(NetError::FileStreamSize)
        } else if meta.chunk_count != rounded_up(
            meta.size_bytes as int,
            RAW_PAYLOAD_PLAIN_BYTES as int,
        ) {
            Some(NetError::FileChunkCount)
        } else {
            names_error(meta.top_level_names)
        },
    }
}

/// What is wrong with the start of an image stream, if anything.
pub open spec fn image_start_error(
    meta: ImageStartView,
    max_item_bytes: u64,
    now_us: u64,
) -> Option<NetError> {
    match identification_error(
        meta.item_id,
        meta.source_device_id,
        meta.content_hash,
        meta.created_at_us,
        now_us,
    ) {
        Some(e) => Some(e),
        None => if meta.size_bytes == 0 || meta.size_bytes > max_item_bytes {
            Some(NetError::ImageStreamSize)
        } else if meta.size_bytes > MAX_IMAGE_SOURCE_BYTES {
            Some(NetError::ImageDecodeLimit)
        } else if meta.chunk_count != rounded_up(
            meta.size_bytes as int,
            RAW_PAYLOAD_PLAIN_BYTES as int,
        ) {
            Some(NetError::ImageChunkCount)
        } else {
            None
        },
    }
}

/// What is wrong with the end of a stream, if anything.
pub open spec fn end_error(end: StreamEndView) -> Option<NetError> {
    if !is_identifier(end.item_id) {
        Some(NetError::InvalidStreamEndItemId)
    } else if end.chunk_count == 0 {
        Some(NetError::StreamEndEmpty)
    } else {
        None
    }
}

/// What is wrong with a control body, if anything.
pub open spec fn body_error(body: WireBodyView, max_item_bytes: u64, now_us: u64) -> Option<
    NetError,
> {
    match body {
        WireBodyView::Item(item) => item_error(item, max_item_bytes, now_us),
        WireBodyView::FileStart(meta) => file_start_error(meta, max_item_bytes, now_us),
        WireBodyView::ImageStart(meta) => image_start_error(meta, max_item_bytes, now_us),
        WireBodyView::End(end) => end_error(end),
    }
}

/// The device that a body claims to come from; the end of a stream claims none.
pub open spec fn body_source(body: WireBodyView) -> Option<Seq<char>> {
    match body {
        WireBodyView::Item(item) => Some(item.source_device_id),
        WireBodyView::FileStart(meta) => Some(meta.source_device_id),
        WireBodyView::ImageStart(meta) => Some(meta.source_device_id),
        WireBodyView::End(_) => None,
    }
}

/// The encoding of a body.
pub open spec fn plain_body(body: WireBodyView) -> Seq<u8> {
    match body {
        WireBodyView::Item(item) => {
            let content = portable(item.payload)->Ok_0;
            codec::item_bytes(
                0,
                item.id,
                item.content_hash,
                item.created_at_us,
                item.source_device_id,
                item.size_bytes,
                content.0,
                content.1,
            )
        },
        WireBodyView::FileStart(meta) => codec::file_start_bytes(
            1,
            meta.item_id,
            meta.content_hash,
            meta.created_at_us,
            meta.source_device_id,
            meta.size_bytes,
            meta.chunk_count,
            meta.top_level_names,
        ),
        WireBodyView::ImageStart(meta) => codec::image_start_bytes(
            2,
            meta.item_id,
            meta.content_hash,
            meta.created_at_us,
            meta.source_device_id,
            meta.size_bytes,
            meta.chunk_count,
        ),
        WireBodyView::End(end) => codec::stream_end_bytes(
            3,
            end.item_id,
            end.chunk_count,
            end.digest_sha256,
        ),
    }
}

/// The body that an encoding holds.
pub open spec fn body_in(plain: Seq<u8>) -> Option<WireBodyView> {
    match codec::variant_of(plain) {
        None => None,
        Some(variant) => if variant == 0 {
            match codec::item_of(plain) {
                None => None,
                Some(f) => match payload_of(f.6, f.7) {
                    None => None,
                    Some(payload) => Some(
                        WireBodyView::Item(
                            ItemView {
                                id: f.1,
                                content_hash: f.2,
                                created_at_us: f.3,
                                source_device_id: f.4,
                                size_bytes: f.5,
                                payload,
                            },
                        ),
                    ),
                },
            }
        } else if variant == 1 {
            match codec::file_start_of(plain) {
                None => None,
                Some(f) => Some(
                    WireBodyView::FileStart(
                        FileStartView {
                            item_id: f.1,
                            content_hash: f.2,
                            created_at_us: f.3,
                            source_device_id: f.4,
                            size_bytes: f.5,
                            chunk_count: f.6,
                            top_level_names: f.7,
                        },
                    ),
                ),
            }
        } else if variant == 2 {
            match codec::image_start_of(plain) {
                None => None,
                Some(f) => Some(
                    WireBodyView::ImageStart(
                        ImageStartView {
                            item_id: f.1,
                            content_hash: f.2,
                            created_at_us: f.3,
                            source_device_id: f.4,
                            size_bytes: f.5,
                            chunk_count: f.6,
                        },
                    ),
                ),
            }
        } else if variant == 3 {
            match codec::stream_end_of(plain) {
                None => None,
                Some(f) => Some(
                    WireBodyView::End(
                        StreamEndView { item_id: f.1, chunk_count: f.2, digest_sha256: f.3 },
                    ),
                ),
            }
        } else {
            None
        },
    }
}

/// The longest control frame under a size limit, without its length prefix.
pub open spec fn control_limit(max_item_bytes: u64) -> int {
    portable_limit(max_item_bytes) + CONTROL_FRAME_OVERHEAD_BYTES
}

/// The longest chunk under a size limit.
pub open spec fn raw_limit(max_item_bytes: u64) -> int {
    least(max_item_bytes as int, RAW_PAYLOAD_PLAIN_BYTES as int)
}

/// The header of a control frame: version, flags, session, number.
pub open spec fn control_header(session_id: Seq<u8>, sequence: u64) -> Seq<u8> {
    seq![WIRE_VERSION, ENCRYPTED_FLAG] + session_id + bytes::be64(sequence)
}

/// The header of a raw frame: version, flags, session, transfer, chunk index.
pub open spec fn raw_header(session_id: Seq<u8>, transfer: Seq<u8>, chunk_index: u64) -> Seq<u8> {
    seq![WIRE_VERSION, ENCRYPTED_FLAG] + session_id + transfer + bytes::be64(chunk_index)
}

/// A session after one more control frame was sent.
pub open spec fn after_send(session: SessionView) -> SessionView {
    SessionView {
        next_send_control_sequence: (session.next_send_control_sequence + 1) as u64,
        ..session
    }
}

/// A session after one more control frame was received.
pub open spec fn after_receive(session: SessionView) -> SessionView {
    SessionView {
        expected_receive_control_sequence: (session.expected_receive_control_sequence + 1) as u64,
        ..session
    }
}

/// The control frame for a body: length prefix, header, nonce, sealed encoding.
pub open spec fn control_frame(body: WireBodyView, session: SessionView, nonce: Seq<u8>) -> Seq<
    u8,
> {
    let plain = plain_body(body);
    let header = control_header(session.session_id, session.next_send_control_sequence);
    let len = CONTROL_HEADER_BYTES + RAW_NONCE_BYTES + plain.len() + AEAD_TAG_BYTES;
    bytes::be32(len as u32) + header + nonce + primitives::gcm_siv_sealed(
        session.send_control_key,
        nonce,
        header,
        plain,
    )
}

/// The most bytes that the encoding of a body takes.
pub open spec fn body_bound(body: WireBodyView) -> nat {
    match body {
        WireBodyView::Item(item) => codec::item_bound(
            item.id,
            item.content_hash,
            item.source_device_id,
            portable(item.payload)->Ok_0.1,
        ),
        WireBodyView::FileStart(meta) => codec::file_start_bound(
            meta.item_id,
            meta.content_hash,
            meta.source_device_id,
            meta.top_level_names,
        ),
        WireBodyView::ImageStart(meta) => codec::image_start_bound(
            meta.item_id,
            meta.content_hash,
            meta.source_device_id,
        ),
        WireBodyView::End(end) => codec::stream_end_bound(end.item_id),
    }
}

/// Why a body is not sent: it is not valid, or the session's numbers are used
/// up. A valid body always fits a control frame.
pub open spec fn send_error(
    body: WireBodyView,
    max_item_bytes: u64,
    now_us: u64,
    session: SessionView,
) -> Option<NetError> {
    match body_error(body, max_item_bytes, now_us) {
        Some(e) => Some(e),
        None => if session.next_send_control_sequence == u64::MAX {
            Some(NetError::SendSequenceExhausted)
        } else {
            None
        },
    }
}

/// The encoding sealed in a control frame, if it opens under a key.
pub open spec fn sealed_in(frame: Seq<u8>, key: Seq<u8>) -> Option<Seq<u8>> {
    primitives::gcm_siv_opened(key, frame.subrange(26, 38), frame.take(26), frame.skip(38))
}

/// A control frame, without its length prefix, opens under a key and holds a body.
pub open spec fn carries(frame: Seq<u8>, key: Seq<u8>, body: WireBodyView) -> bool {
    match sealed_in(frame, key) {
        Some(plain) => {
            &&& 0 < plain.len()
            &&& frame.len() == CONTROL_HEADER_BYTES + RAW_NONCE_BYTES + plain.len() + AEAD_TAG_BYTES
            &&& body_in(plain) == Some(body)
        },
        None => false,
    }
}

/// What a receiver makes of a control frame: the body and the session after
/// it, or why it is refused.
pub open spec fn received(
    frame: Seq<u8>,
    max_item_bytes: u64,
    now_us: u64,
    session: SessionView,
) -> Result<WireBodyView, NetError> {
    let limit = control_limit(max_item_bytes);
    if frame.len() > limit || frame.len() <= CONTROL_HEADER_BYTES + RAW_NONCE_BYTES
        + AEAD_TAG_BYTES {
        Err(NetError::InvalidControlFrameSize)
    } else if frame[0] != WIRE_VERSION {
        Err(NetError::UnsupportedWireVersion)
    } else if frame[1] != ENCRYPTED_FLAG {
        Err(NetError::UnencryptedControl)
    } else if frame.subrange(2, 18) != session.session_id {
        Err(NetError::ControlSessionMismatch)
    } else if bytes::number64(frame.subrange(18, 26))
        != session.expected_receive_control_sequence {
        Err(NetError::ControlSequenceMismatch)
    } else {
        match sealed_in(frame, session.receive_control_key) {
            None => Err(NetError::DecryptFailed),
            Some(plain) => if plain.len() == 0 || plain.len() > limit {
                Err(NetError::InvalidDecodedControlSize)
            } else {
                match body_in(plain) {
                    None => Err(NetError::MalformedControlBody),
                    Some(body) => match body_error(body, max_item_bytes, now_us) {
                        Some(e) => Err(e),
                        None => if body_source(body) is Some && uuid_text::uuid_bytes(
                            body_source(body)->Some_0,
                        ) != Some(session.peer_device_id) {
                            Err(NetError::SourceMismatch)
                        } else if session.expected_receive_control_sequence == u64::MAX {
                            Err(NetError::ReceiveSequenceExhausted)
                        } else {
                            Ok(body)
                        },
                    },
                }
            },
        }
    }
}

/// The raw frame for a chunk: header, nonce, sealed chunk.
pub open spec fn raw_frame(
    session: SessionView,
    transfer: Seq<u8>,
    chunk_index: u64,
    nonce: Seq<u8>,
    plain: Seq<u8>,
) -> Seq<u8> {
    let header = raw_header(session.session_id, transfer, chunk_index);
    header + nonce + primitives::chacha_sealed(session.send_raw_key, nonce, header, plain)
}

/// The chunk sealed in a raw frame, if it opens under a key.
pub open spec fn raw_sealed_in(frame: Seq<u8>, key: Seq<u8>) -> Option<Seq<u8>> {
    primitives::chacha_opened(key, frame.subrange(42, 54), frame.take(42), frame.skip(54))
}

/// What a receiver makes of a raw frame: the chunk, or why it is refused.
pub open spec fn raw_received(
    frame: Seq<u8>,
    max_item_bytes: u64,
    session: SessionView,
    transfer_id: Seq<char>,
    chunk_index: u64,
) -> Result<Seq<u8>, NetError> {
    if frame.len() <= RAW_HEADER_BYTES + RAW_NONCE_BYTES + AEAD_TAG_BYTES {
        Err(NetError::RawFrameTooShort)
    } else if frame[0] != WIRE_VERSION {
        Err(NetError::UnsupportedRawVersion)
    } else if frame[1] != ENCRYPTED_FLAG {
        Err(NetError::UnencryptedRaw)
    } else if frame.subrange(2, 18) != session.session_id {
        Err(NetError::RawSessionMismatch)
    } else if !is_identifier(transfer_id) {
        Err(NetError::InvalidExpectedTransferId)
    } else if uuid_text::uuid_bytes(transfer_id) != Some(frame.subrange(18, 34)) {
        Err(NetError::RawTransferMismatch)
    } else if bytes::number64(frame.subrange(34, 42)) != chunk_index {
        Err(NetError::RawChunkMismatch)
    } else {
        match raw_sealed_in(frame, session.receive_raw_key) {
            None => Err(NetError::DecryptRawFailed),
            Some(plain) => if plain.len() == 0 || plain.len() > raw_limit(max_item_bytes) {
                Err(NetError::InvalidDecodedRawSize)
            } else {
                Ok(plain)
            },
        }
    }
}

/// The longest control frame under the configured limit.
pub fn control_frame_limit(settings: &Settings) -> (limit: usize)
    ensures
        limit == control_limit(settings@.max_item_bytes),
{
    let portable: u64 = if settings.limits.max_item_bytes <= MAX_PORTABLE_PAYLOAD_BYTES {
        settings.limits.max_item_bytes
    } else {
        MAX_PORTABLE_PAYLOAD_BYTES
    };
    (portable + CONTROL_FRAME_OVERHEAD_BYTES) as usize
}

/// The longest chunk under the configured limit.
pub fn raw_plain_limit(settings: &Settings) -> (limit: usize)
    ensures
        limit == raw_limit(settings@.max_item_bytes),
{
    if settings.limits.max_item_bytes <= RAW_PAYLOAD_PLAIN_BYTES {
        settings.limits.max_item_bytes as usize
    } else {
        RAW_PAYLOAD_PLAIN_BYTES as usize
    }
}

/// The longest raw frame under the configured limit.
pub fn raw_frame_limit(settings: &Settings) -> (limit: usize)
    ensures
        limit == RAW_HEADER_BYTES + RAW_NONCE_BYTES + raw_limit(settings@.max_item_bytes)
            + AEAD_TAG_BYTES,
{
    RAW_HEADER_BYTES + RAW_NONCE_BYTES + raw_plain_limit(settings) + AEAD_TAG_BYTES
}

/// Reads a text that names an item or a device.
pub fn parse_identifier(value: &str) -> (id: Option<[u8; 16]>)
    ensures
        match id {
            Some(b) => is_identifier(value@) && uuid_text::uuid_bytes(value@) == Some(b@),
            None => !is_identifier(value@),
        },
{
    match parse_uuid_text(value) {
        Some(id) => if is_nil_uuid(&id) {
            None
        } else {
            Some(id)
        },
        None => None,
    }
}

fn is_digest(value: &str) -> (digest: bool)
    ensures
        digest == is_digest_text(value@),
{
    let chars = chars_of(value);
    if chars.len() != 64 {
        return false;
    }
    let mut i: usize = 0;
    while i < chars.len()
        invariant
            i <= chars.len(),
            chars@ == value@,
            forall|j: int| 0 <= j < i ==> bytes::hex_value(#[trigger] chars@[j]) is Some,
        decreases chars.len() - i,
    {
        let c = chars[i];
        if !(('0' <= c && c <= '9') || ('a' <= c && c <= 'f') || ('A' <= c && c <= 'F')) {
            assert(bytes::hex_value(value@[i as int]) is None);
            return false;
        }
        i = i + 1;
    }
    true
}

/// Checks what identifies a content.
pub fn validate_identifier_fields(
    item_id: &str,
    source_device_id: &str,
    content_hash: &str,
    created_at_us: u64,
    now_us: u64,
) -> (result: Result<(), NetError>)
    ensures
        match result {
            Ok(_) => identification_error(
                item_id@,
                source_device_id@,
                content_hash@,
                created_at_us,
                now_us,
            ) is None,
            Err(e) => identification_error(
                item_id@,
                source_device_id@,
                content_hash@,
                created_at_us,
                now_us,
            ) == Some(e),
        },
{
    if parse_identifier(item_id).is_none() {
        return Err(NetError::InvalidItemId);
    }
    if parse_identifier(source_device_id).is_none() {
        return Err(NetError::InvalidSourceDeviceId);
    }
    if !is_digest(content_hash) {
        return Err(NetError::InvalidContentHash);
    }
    let latest_allowed: u64 = now_us.saturating_add(MAX_FUTURE_CLOCK_SKEW_US);
    if created_at_us == 0 || created_at_us > latest_allowed {
        return Err(NetError::TimestampSkew);
    }
    Ok(())
}

/// Checks the size of a content against what was declared and against the limits.
pub fn validate_payload_size(actual_size: u64, declared_size: u64, settings: &Settings) -> (result:
    Result<(), NetError>)
    ensures
        match result {
            Ok(_) => is_portable_size(
                actual_size as nat,
                declared_size,
                settings@.max_item_bytes,
            ),
            Err(e) => e == NetError::PayloadSize && !is_portable_size(
                actual_size as nat,
                declared_size,
                settings@.max_item_bytes,
            ),
        },
{
    let hard_limit: u64 = if settings.limits.max_item_bytes <= MAX_PORTABLE_PAYLOAD_BYTES {
        settings.limits.max_item_bytes
    } else {
        MAX_PORTABLE_PAYLOAD_BYTES
    };
    if actual_size == 0 || actual_size != declared_size || actual_size > hard_limit {
        return Err(NetError::PayloadSize);
    }
    Ok(())
}

fn is_unsafe(name: &str) -> (unsafe_name: bool)
    ensures
        unsafe_name == is_unsafe_name(name@),
{
    if name.is_empty() || byte_len(name) > MAX_TOP_LEVEL_NAME_BYTES || same_text(name, ".")
        || same_text(name, "..") {
        return true;
    }
    let chars = chars_of(name);
    let mut i: usize = 0;
    while i < chars.len()
        invariant
            i <= chars.len(),
            chars@ == name@,
            forall|j: int|
                0 <= j < i ==> !(#[trigger] chars@[j] == '/' || chars@[j] == '\\'
                    || text::is_control_char(chars@[j])),
        decreases chars.len() - i,
    {
        if chars[i] == '/' || chars[i] == '\\' || is_control(chars[i]) {
            assert(name@[i as int] == chars@[i as int]);
            return true;
        }
        i = i + 1;
    }
    false
}

/// Checks the names of the top-level entries of a file stream.
pub fn validate_top_level_names(names: &Vec<String>) -> (result: Result<(), NetError>)
    ensures
        match result {
            Ok(_) => names_error(protocol::texts(names@)) is None,
            Err(e) => names_error(protocol::texts(names@)) == Some(e),
        },
{
    if names.len() == 0 || names.len() > MAX_TOP_LEVEL_NAMES {
        return Err(NetError::TopLevelCount);
    }
    let ghost all = protocol::texts(names@);
    let mut seen: Vec<String> = Vec::new();
    let mut i: usize = 0;
    while i < names.len()
        invariant
            i <= names.len(),
            seen.len() == i,
            all == protocol::texts(names@),
            0 < all.len() <= MAX_TOP_LEVEL_NAMES,
            forall|j: int| 0 <= j < i ==> seen@[j]@ == text::lowered(#[trigger] all[j]),
            names_error(all) == names_error_from(all, i as int),
        decreases names.len() - i,
    {
        assert(all[i as int] == names@[i as int]@);
        if is_unsafe(&names[i]) {
            return Err(NetError::UnsafeTopLevelName);
        }
        let lowered = lowercase(&names[i]);
        let mut j: usize = 0;
        while j < seen.len()
            invariant
                j <= seen.len() == i < all.len(),
                all == protocol::texts(names@),
                0 < all.len() <= MAX_TOP_LEVEL_NAMES,
                forall|k: int|
                    0 <= k < i ==> seen@[k]@ == text::lowered(#[trigger] all[k]),
                names_error(all) == names_error_from(all, i as int),
                lowered@ == text::lowered(all[i as int]),
                !is_unsafe_name(all[i as int]),
                forall|k: int|
                    0 <= k < j ==> text::lowered(#[trigger] all[k]) != lowered@,
            decreases seen.len() - j,
        {
            if same_text(&seen[j], &lowered) {
                assert(text::lowered(all[j as int]) == lowered@);
                assert(is_repeated(all, i as int));
                return Err(NetError::DuplicateTopLevelName);
            }
            assert(text::lowered(all[j as int]) != lowered@);
            j = j + 1;
        }
        assert(!is_repeated(all, i as int));
        seen.push(lowered);
        i = i + 1;
    }
    Ok(())
}

/// How many chunks a content of so many bytes is announced with.
pub fn chunks_for(size_bytes: u64) -> (count: u64)
    ensures
        count == rounded_up(size_bytes as int, RAW_PAYLOAD_PLAIN_BYTES as int),
{
    let whole: u64 = size_bytes / RAW_PAYLOAD_PLAIN_BYTES;
    if size_bytes % RAW_PAYLOAD_PLAIN_BYTES == 0 {
        whole
    } else {
        whole + 1
    }
}

impl FileStreamStart {
    /// Checks the start of a file stream.
    pub fn validate(&self, settings: &Settings, now_us: u64) -> (result: Result<(), NetError>)
        ensures
            match result {
                Ok(_) => file_start_error(self@, settings@.max_item_bytes, now_us) is None,
                Err(e) => file_start_error(self@, settings@.max_item_bytes, now_us) == Some(e),
            },
    {
        if let Err(e) = validate_identifier_fields(
            &self.item_id,
            &self.source_device_id,
            &self.content_hash,
            self.created_at_us,
            now_us,
        ) {
            return Err(e);
        }
        if self.size_bytes == 0 || self.size_bytes > settings.limits.max_item_bytes {
            return Err(NetError::FileStreamSize);
        }
        if self.chunk_count != chunks_for(self.size_bytes) {
            return Err(NetError::FileChunkCount);
        }
        validate_top_level_names(&self.top_level_names)
    }
}

impl ImageStreamStart {
    /// Checks the start of an image stream.
    pub fn validate(&self, settings: &Settings, now_us: u64) -> (result: Result<(), NetError>)
        ensures
            match result {
                Ok(_) => image_start_error(self@, settings@.max_item_bytes, now_us) is None,
                Err(e) => image_start_error(self@, settings@.max_item_bytes, now_us) == Some(e),
            },
    {
        if let Err(e) = validate_identifier_fields(
            &self.item_id,
            &self.source_device_id,
            &self.content_hash,
            self.created_at_us,
            now_us,
        ) {
            return Err(e);
        }
        if self.size_bytes == 0 || self.size_bytes > settings.limits.max_item_bytes {
            return Err(NetError::ImageStreamSize);
        }
        if self.size_bytes > MAX_IMAGE_SOURCE_BYTES {
            return Err(NetError::ImageDecodeLimit);
        }
        if self.chunk_count != chunks_for(self.size_bytes) {
            return Err(NetError::ImageChunkCount);
        }
        Ok(())
    }
}

impl PayloadStreamEnd {
    /// Checks the end of a stream.
    pub fn validate(&self) -> (result: Result<(), NetError>)
        ensures
            match result {
                Ok(_) => end_error(self@) is None,
                Err(e) => end_error(self@) == Some(e),
            },
    {
        if parse_identifier(&self.item_id).is_none() {
            return Err(NetError::InvalidStreamEndItemId);
        }
        if self.chunk_count == 0 {
            return Err(NetError::StreamEndEmpty);
        }
        Ok(())
    }
}

/// Checks an item that a control frame is to carry.
fn validate_item(item: &ClipboardItem, settings: &Settings, now_us: u64) -> (result: Result<
    (),
    NetError,
>)
    ensures
        match result {
            Ok(_) => item_error(item@, settings@.max_item_bytes, now_us) is None,
            Err(e) => item_error(item@, settings@.max_item_bytes, now_us) == Some(e),
        },
{
    if let Err(e) = validate_identifier_fields(
        &item.id,
        &item.source_device_id,
        &item.content_hash,
        item.created_at_us,
        now_us,
    ) {
        return Err(e);
    }
    let actual_size: u64 = match &item.payload {
        ClipboardPayload::Text { text } => byte_len(text) as u64,
        ClipboardPayload::Html { html } => byte_len(html) as u64,
        ClipboardPayload::Rtf { rtf } => byte_len(rtf) as u64,
        ClipboardPayload::ImagePng { .. } => return Err(NetError::ImageNeedsStream),
        ClipboardPayload::FileBundleDir { .. } => return Err(NetError::LocalPayload),
        ClipboardPayload::FileList { .. } => return Err(NetError::LocalPayload),
    };
    validate_payload_size(actual_size, item.size_bytes, settings)
}

/// Encodes a body that was checked.
fn plain_of_body(body: &WireBody, limit: u64) -> (plain: Option<Vec<u8>>)
    requires
        body@ matches WireBodyView::Item(item) ==> portable(item.payload) is Ok,
        body_bound(body@) <= limit,
    ensures
        match plain {
            Some(p) => {
                &&& p@ == plain_body(body@)
                &&& 0 < p@.len() <= body_bound(body@)
                &&& body_in(p@) == Some(body@)
            },
            None => false,
        },
{
    match body {
        WireBody::ClipboardItem(item) => {
            let (kind, content): (u32, &String) = match &item.payload {
                ClipboardPayload::Text { text } => (0u32, text),
                ClipboardPayload::Html { html } => (1u32, html),
                ClipboardPayload::Rtf { rtf } => (2u32, rtf),
                _ => return None,
            };
            encode_item(
                0,
                &item.id,
                &item.content_hash,
                item.created_at_us,
                &item.source_device_id,
                item.size_bytes,
                kind,
                content,
                limit,
            )
        },
        WireBody::FileStreamRawStart(meta) => encode_file_start(
            1,
            &meta.item_id,
            &meta.content_hash,
            meta.created_at_us,
            &meta.source_device_id,
            meta.size_bytes,
            meta.chunk_count,
            &meta.top_level_names,
            limit,
        ),
        WireBody::ImageStreamRawStart(meta) => encode_image_start(
            2,
            &meta.item_id,
            &meta.content_hash,
            meta.created_at_us,
            &meta.source_device_id,
            meta.size_bytes,
            meta.chunk_count,
            limit,
        ),
        WireBody::PayloadStreamEnd(end) => encode_stream_end(
            3,
            &end.item_id,
            end.chunk_count,
            &end.digest_sha256,
            limit,
        ),
    }
}

/// Checks a body.
fn validate_body(body: &WireBody, settings: &Settings, now_us: u64) -> (result: Result<
    (),
    NetError,
>)
    ensures
        match result {
            Ok(_) => body_error(body@, settings@.max_item_bytes, now_us) is None,
            Err(e) => body_error(body@, settings@.max_item_bytes, now_us) == Some(e),
        },
{
    match body {
        WireBody::ClipboardItem(item) => validate_item(item, settings, now_us),
        WireBody::FileStreamRawStart(meta) => meta.validate(settings, now_us),
        WireBody::ImageStreamRawStart(meta) => meta.validate(settings, now_us),
        WireBody::PayloadStreamEnd(end) => end.validate(),
    }
}

fn control_header_bytes(session_id: &[u8; 16], sequence: u64) -> (header: Vec<u8>)
    ensures
        header@ == control_header(session_id@, sequence),
        header@.len() == CONTROL_HEADER_BYTES,
{
    let mut header: Vec<u8> = Vec::new();
    header.push(WIRE_VERSION);
    header.push(ENCRYPTED_FLAG);
    push_all(&mut header, session_id);
    push_be64(&mut header, sequence);
    assert(header@ =~= control_header(session_id@, sequence));
    header
}

fn raw_header_bytes(session_id: &[u8; 16], transfer: &[u8; 16], chunk_index: u64) -> (header: Vec<
    u8,
>)
    ensures
        header@ == raw_header(session_id@, transfer@, chunk_index),
        header@.len() == RAW_HEADER_BYTES,
{
    let mut header: Vec<u8> = Vec::new();
    header.push(WIRE_VERSION);
    header.push(ENCRYPTED_FLAG);
    push_all(&mut header, session_id);
    push_all(&mut header, transfer);
    push_be64(&mut header, chunk_index);
    assert(header@ =~= raw_header(session_id@, transfer@, chunk_index));
    header
}

/// Builds the control frame for a body under a given nonce, with its length
/// prefix, and counts it. What is refused is not counted.
pub fn encode_wire_body_with(
    body: &WireBody,
    settings: &Settings,
    session: &mut Session,
    now_us: u64,
    nonce: &[u8; 12],
) -> (result: Result<Vec<u8>, NetError>)
    ensures
        match result {
            Ok(frame) => {
                &&& send_error(body@, settings@.max_item_bytes, now_us, old(session)@) is None
                &&& frame@ == control_frame(body@, old(session)@, nonce@)
                &&& final(session)@ == after_send(old(session)@)
                &&& frame@.skip(4).len() <= control_limit(settings@.max_item_bytes)
                &&& carries(frame@.skip(4), old(session)@.send_control_key, body@)
            },
            Err(e) => {
                &&& send_error(body@, settings@.max_item_bytes, now_us, old(session)@) == Some(e)
                &&& final(session)@ == old(session)@
            },
        },
{
    if let Err(e) = validate_body(body, settings, now_us) {
        return Err(e);
    }
    let limit: usize = control_frame_limit(settings);
    proof {
        valid_body_fits(body@, settings@.max_item_bytes, now_us);
    }
    let plain = match plain_of_body(body, limit as u64) {
        Some(plain) => plain,
        None => return Err(NetError::ControlBodyTooLarge),
    };
    let header = control_header_bytes(&session.session_id, session.next_send_control_sequence);
    let sealed = match encrypt_bytes_with(&plain, &header, &session.send_control_key, nonce) {
        Ok(sealed) => sealed,
        Err(e) => return Err(e),
    };
    let frame_len: usize = CONTROL_HEADER_BYTES + RAW_NONCE_BYTES + sealed.len();
    if frame_len > limit {
        return Err(NetError::ControlFrameTooLarge);
    }
    let mut frame: Vec<u8> = Vec::new();
    push_be32(&mut frame, frame_len as u32);
    push_all(&mut frame, &header);
    push_all(&mut frame, nonce);
    push_all(&mut frame, &sealed);
    proof {
        assert(frame@ =~= control_frame(body@, session@, nonce@));
        let rest = frame@.skip(4);
        assert(rest.take(26) =~= header@);
        assert(rest.subrange(26, 38) =~= nonce@);
        assert(rest.skip(38) =~= sealed@);
    }
    match session.advance_send_control_sequence() {
        Ok(_) => Ok(frame),
        Err(e) => Err(e),
    }
}

/// Builds the control frame for a body under a random nonce, with its length
/// prefix, and counts it. What is refused is not counted.
pub fn encode_wire_body(
    body: &WireBody,
    settings: &Settings,
    session: &mut Session,
    now_us: u64,
) -> (result: Result<Vec<u8>, NetError>)
    ensures
        match result {
            Ok(frame) => {
                &&& send_error(body@, settings@.max_item_bytes, now_us, old(session)@) is None
                &&& exists|nonce: Seq<u8>|
                    nonce.len() == RAW_NONCE_BYTES && frame@ == #[trigger] control_frame(
                        body@,
                        old(session)@,
                        nonce,
                    )
                &&& final(session)@ == after_send(old(session)@)
                &&& frame@.skip(4).len() <= control_limit(settings@.max_item_bytes)
                &&& carries(frame@.skip(4), old(session)@.send_control_key, body@)
            },
            Err(e) => {
                &&& send_error(body@, settings@.max_item_bytes, now_us, old(session)@) == Some(e)
                &&& final(session)@ == old(session)@
            },
        },
{
    let nonce = random_nonce12();
    assert(nonce@.len() == RAW_NONCE_BYTES);
    encode_wire_body_with(body, settings, session, now_us, &nonce)
}

/// Builds the control frame for an item, as `encode_wire_body` does.
pub fn encode_wire_message(
    item: &ClipboardItem,
    settings: &Settings,
    session: &mut Session,
    now_us: u64,
) -> (result: Result<Vec<u8>, NetError>)
    ensures
        ({
            let body = WireBodyView::Item(item@);
            match result {
                Ok(frame) => {
                    &&& send_error(body, settings@.max_item_bytes, now_us, old(session)@) is None
                    &&& exists|nonce: Seq<u8>|
                        nonce.len() == RAW_NONCE_BYTES && frame@ == #[trigger] control_frame(
                            body,
                            old(session)@,
                            nonce,
                        )
                    &&& final(session)@ == after_send(old(session)@)
                    &&& frame@.skip(4).len() <= control_limit(settings@.max_item_bytes)
                    &&& carries(frame@.skip(4), old(session)@.send_control_key, body)
                },
                Err(e) => {
                    &&& send_error(body, settings@.max_item_bytes, now_us, old(session)@) == Some(e)
                    &&& final(session)@ == old(session)@
                },
            }
        }),
{
    let body = WireBody::ClipboardItem(item.clone());
    encode_wire_body(&body, settings, session, now_us)
}

/// Reads the body in an encoding.
fn body_of_plain(plain: &[u8]) -> (body: Option<WireBody>)
    ensures
        match body {
            Some(b) => body_in(plain@) == Some(b@),
            None => body_in(plain@) is None,
        },
{
    let variant: u32 = match decode_variant(plain) {
        Some(variant) => variant,
        None => return None,
    };
    if variant == 0 {
        match decode_item(plain) {
            None => None,
            Some(f) => {
                let payload = if f.6 == 0 {
                    ClipboardPayload::Text { text: f.7 }
                } else if f.6 == 1 {
                    ClipboardPayload::Html { html: f.7 }
                } else if f.6 == 2 {
                    ClipboardPayload::Rtf { rtf: f.7 }
                } else {
                    return None;
                };
                Some(
                    WireBody::ClipboardItem(
                        ClipboardItem {
                            id: f.1,
                            content_hash: f.2,
                            created_at_us: f.3,
                            source_device_id: f.4,
                            size_bytes: f.5,
                            payload,
                        },
                    ),
                )
            },
        }
    } else if variant == 1 {
        match decode_file_start(plain) {
            None => None,
            Some(f) => Some(
                WireBody::FileStreamRawStart(
                    FileStreamStart {
                        item_id: f.1,
                        content_hash: f.2,
                        created_at_us: f.3,
                        source_device_id: f.4,
                        size_bytes: f.5,
                        chunk_count: f.6,
                        top_level_names: f.7,
                    },
                ),
            ),
        }
    } else if variant == 2 {
        match decode_image_start(plain) {
            None => None,
            Some(f) => Some(
                WireBody::ImageStreamRawStart(
                    ImageStreamStart {
                        item_id: f.1,
                        content_hash: f.2,
                        created_at_us: f.3,
                        source_device_id: f.4,
                        size_bytes: f.5,
                        chunk_count: f.6,
                    },
                ),
            ),
        }
    } else if variant == 3 {
        match decode_stream_end(plain) {
            None => None,
            Some(f) => Some(
                WireBody::PayloadStreamEnd(
                    PayloadStreamEnd { item_id: f.1, chunk_count: f.2, digest_sha256: f.3 },
                ),
            ),
        }
    } else {
        None
    }
}

/// Opens a control frame, without its length prefix, checks its body and counts
/// it. What is refused is not counted.
pub fn decode_wire_body_bytes(
    frame: &[u8],
    settings: &Settings,
    session: &mut Session,
    now_us: u64,
) -> (result: Result<WireBody, NetError>)
    ensures
        match result {
            Ok(body) => {
                &&& received(frame@, settings@.max_item_bytes, now_us, old(session)@) == Ok::<
                    _,
                    NetError,
                >(body@)
                &&& final(session)@ == after_receive(old(session)@)
            },
            Err(e) => {
                &&& received(frame@, settings@.max_item_bytes, now_us, old(session)@) == Err::<
                    WireBodyView,
                    _,
                >(e)
                &&& final(session)@ == old(session)@
            },
        },
{
    let limit: usize = control_frame_limit(settings);
    if frame.len() > limit || frame.len() <= CONTROL_HEADER_BYTES + RAW_NONCE_BYTES
        + AEAD_TAG_BYTES {
        return Err(NetError::InvalidControlFrameSize);
    }
    if frame[0] != WIRE_VERSION {
        return Err(NetError::UnsupportedWireVersion);
    }
    if frame[1] != ENCRYPTED_FLAG {
        return Err(NetError::UnencryptedControl);
    }
    let session_id = copy_range(frame, 2, 18);
    if !same_bytes(&session_id, &session.session_id) {
        return Err(NetError::ControlSessionMismatch);
    }
    let sequence: u64 = read_be64(frame, 18);
    if sequence != session.expected_receive_control_sequence {
        return Err(NetError::ControlSequenceMismatch);
    }
    let nonce: [u8; 12] = copy_array(frame, CONTROL_HEADER_BYTES);
    let sealed = copy_range(frame, CONTROL_HEADER_BYTES + RAW_NONCE_BYTES, frame.len());
    let header = copy_range(frame, 0, CONTROL_HEADER_BYTES);
    proof {
        assert(header@ =~= frame@.take(26));
        assert(sealed@ =~= frame@.skip(38));
    }
    let plain = match decrypt_bytes(&nonce, &sealed, &header, &session.receive_control_key) {
        Ok(plain) => plain,
        Err(e) => return Err(e),
    };
    if plain.len() == 0 || plain.len() > limit {
        return Err(NetError::InvalidDecodedControlSize);
    }
    let body = match body_of_plain(&plain) {
        Some(body) => body,
        None => return Err(NetError::MalformedControlBody),
    };
    if let Err(e) = validate_body(&body, settings, now_us) {
        return Err(e);
    }
    let source_fits = match &body {
        WireBody::ClipboardItem(item) => session.source_matches_peer(&item.source_device_id),
        WireBody::FileStreamRawStart(meta) => session.source_matches_peer(&meta.source_device_id),
        WireBody::ImageStreamRawStart(meta) => session.source_matches_peer(&meta.source_device_id),
        WireBody::PayloadStreamEnd(_) => true,
    };
    if !source_fits {
        return Err(NetError::SourceMismatch);
    }
    match session.advance_receive_control_sequence() {
        Ok(_) => Ok(body),
        Err(e) => Err(e),
    }
}

/// Builds the raw frame for a chunk under a given nonce.
pub fn encode_raw_payload_frame_with(
    settings: &Settings,
    session: &Session,
    transfer_id: &str,
    chunk_index: u64,
    plain: &[u8],
    nonce: &[u8; 12],
) -> (result: Result<Vec<u8>, NetError>)
    ensures
        match result {
            Ok(frame) => {
                &&& 0 < plain@.len() <= raw_limit(settings@.max_item_bytes)
                &&& is_identifier(transfer_id@)
                &&& frame@ == raw_frame(
                    session@,
                    uuid_text::uuid_bytes(transfer_id@)->Some_0,
                    chunk_index,
                    nonce@,
                    plain@,
                )
                &&& raw_sealed_in(frame@, session@.send_raw_key) == Some(plain@)
                &&& frame@.len() == RAW_HEADER_BYTES + RAW_NONCE_BYTES + plain@.len()
                    + AEAD_TAG_BYTES
            },
            Err(e) => if plain@.len() == 0 || plain@.len() > raw_limit(settings@.max_item_bytes) {
                e == NetError::InvalidRawPayloadSize
            } else {
                !is_identifier(transfer_id@) && e == NetError::InvalidRawTransferId
            },
        },
{
    if plain.len() == 0 || plain.len() > raw_plain_limit(settings) {
        return Err(NetError::InvalidRawPayloadSize);
    }
    let transfer = match parse_identifier(transfer_id) {
        Some(transfer) => transfer,
        None => return Err(NetError::InvalidRawTransferId),
    };
    let header = raw_header_bytes(&session.session_id, &transfer, chunk_index);
    let sealed = match encrypt_raw_payload_bytes_with(
        plain,
        &header,
        &session.send_raw_key,
        nonce,
    ) {
        Ok(sealed) => sealed,
        Err(e) => return Err(e),
    };
    let mut frame: Vec<u8> = Vec::new();
    push_all(&mut frame, &header);
    push_all(&mut frame, nonce);
    push_all(&mut frame, &sealed);
    proof {
        assert(frame@.take(42) =~= header@);
        assert(frame@.subrange(42, 54) =~= nonce@);
        assert(frame@.skip(54) =~= sealed@);
    }
    Ok(frame)
}

/// Builds the raw frame for a chunk under a random nonce.
pub fn encode_raw_payload_frame(
    settings: &Settings,
    session: &Session,
    transfer_id: &str,
    chunk_index: u64,
    plain: &[u8],
) -> (result: Result<Vec<u8>, NetError>)
    ensures
        match result {
            Ok(frame) => {
                &&& 0 < plain@.len() <= raw_limit(settings@.max_item_bytes)
                &&& is_identifier(transfer_id@)
                &&& exists|nonce: Seq<u8>|
                    nonce.len() == RAW_NONCE_BYTES && frame@ == #[trigger] raw_frame(
                        session@,
                        uuid_text::uuid_bytes(transfer_id@)->Some_0,
                        chunk_index,
                        nonce,
                        plain@,
                    )
                &&& raw_sealed_in(frame@, session@.send_raw_key) == Some(plain@)
                &&& frame@.len() == RAW_HEADER_BYTES + RAW_NONCE_BYTES + plain@.len()
                    + AEAD_TAG_BYTES
            },
            Err(e) => if plain@.len() == 0 || plain@.len() > raw_limit(settings@.max_item_bytes) {
                e == NetError::InvalidRawPayloadSize
            } else {
                !is_identifier(transfer_id@) && e == NetError::InvalidRawTransferId
            },
        },
{
    let nonce = random_nonce12();
    assert(nonce@.len() == RAW_NONCE_BYTES);
    encode_raw_payload_frame_with(settings, session, transfer_id, chunk_index, plain, &nonce)
}

/// Opens the raw frame of a chunk.
pub fn decode_raw_payload_frame(
    frame: &[u8],
    settings: &Settings,
    session: &Session,
    expected_transfer_id: &str,
    expected_chunk_index: u64,
) -> (result: Result<Vec<u8>, NetError>)
    ensures
        match result {
            Ok(plain) => raw_received(
                frame@,
                settings@.max_item_bytes,
                session@,
                expected_transfer_id@,
                expected_chunk_index,
            ) == Ok::<_, NetError>(plain@),
            Err(e) => raw_received(
                frame@,
                settings@.max_item_bytes,
                session@,
                expected_transfer_id@,
                expected_chunk_index,
            ) == Err::<Seq<u8>, _>(e),
        },
{
    if frame.len() <= RAW_HEADER_BYTES + RAW_NONCE_BYTES + AEAD_TAG_BYTES {
        return Err(NetError::RawFrameTooShort);
    }
    if frame[0] != WIRE_VERSION {
        return Err(NetError::UnsupportedRawVersion);
    }
    if frame[1] != ENCRYPTED_FLAG {
        return Err(NetError::UnencryptedRaw);
    }
    let session_id = copy_range(frame, 2, 18);
    if !same_bytes(&session_id, &session.session_id) {
        return Err(NetError::RawSessionMismatch);
    }
    let transfer = match parse_identifier(expected_transfer_id) {
        Some(transfer) => transfer,
        None => return Err(NetError::InvalidExpectedTransferId),
    };
    let found = copy_range(frame, 18, 34);
    if !same_bytes(&found, &transfer) {
        return Err(NetError::RawTransferMismatch);
    }
    let chunk_index: u64 = read_be64(frame, 34);
    if chunk_index != expected_chunk_index {
        return Err(NetError::RawChunkMismatch);
    }
    let nonce: [u8; 12] = copy_array(frame, RAW_HEADER_BYTES);
    let sealed = copy_range(frame, RAW_HEADER_BYTES + RAW_NONCE_BYTES, frame.len());
    let header = copy_range(frame, 0, RAW_HEADER_BYTES);
    proof {
        assert(header@ =~= frame@.take(42));
        assert(sealed@ =~= frame@.skip(54));
    }
    let plain = match decrypt_raw_payload_bytes(&nonce, &sealed, &header, &session.receive_raw_key) {
        Ok(plain) => plain,
        Err(e) => return Err(e),
    };
    if plain.len() == 0 || plain.len() > raw_plain_limit(settings) {
        return Err(NetError::InvalidDecodedRawSize);
    }
    Ok(plain)
}

/// Reads the length prefix of a frame: what follows must not be empty nor
/// longer than the limit.
pub fn frame_length(prefix: &[u8; 4], max_frame_bytes: usize) -> (result: Result<usize, NetError>)
    ensures
        match result {
            Ok(len) => len == bytes::number32(prefix@) && 0 < len <= max_frame_bytes,
            Err(e) => e == NetError::InvalidFrameLength && (bytes::number32(prefix@) == 0
                || bytes::number32(prefix@) > max_frame_bytes),
        },
{
    let len: u32 = crate::bytes::read_be32(prefix, 0);
    assert(prefix@.subrange(0, 4) =~= prefix@);
    if len == 0 || len as usize > max_frame_bytes {
        return Err(NetError::InvalidFrameLength);
    }
    Ok(len as usize)
}

/// Puts the length prefix before a raw frame.
pub fn length_prefixed(frame: &[u8], max_frame_bytes: usize) -> (result: Result<Vec<u8>, NetError>)
    ensures
        match result {
            Ok(out) => {
                &&& 0 < frame@.len() <= max_frame_bytes
                &&& frame@.len() <= u32::MAX
                &&& out@ == bytes::be32(frame@.len() as u32) + frame@
            },
            Err(e) => e == NetError::FrameTooLarge && (frame@.len() == 0 || frame@.len()
                > max_frame_bytes || frame@.len() > u32::MAX),
        },
{
    if frame.len() == 0 || frame.len() > max_frame_bytes || frame.len() > 0xffff_ffff {
        return Err(NetError::FrameTooLarge);
    }
    let mut out: Vec<u8> = Vec::new();
    push_be32(&mut out, frame.len() as u32);
    push_all(&mut out, frame);
    Ok(out)
}

proof fn identification_is_short(
    item_id: Seq<char>,
    source: Seq<char>,
    content_hash: Seq<char>,
    created_at_us: u64,
    now_us: u64,
)
    requires
        identification_error(item_id, source, content_hash, created_at_us, now_us) is None,
    ensures
        encode_utf8(item_id).len() <= 45,
        encode_utf8(source).len() <= 45,
        encode_utf8(content_hash).len() == 64,
{
    uuid_text::uuid_text_is_short_ascii(item_id);
    uuid_text::uuid_text_is_short_ascii(source);
    assert(is_ascii_chars(content_hash)) by {
        assert forall|i: int| 0 <= i < content_hash.len() implies '\0' <= #[trigger] content_hash[i]
            <= '\u{7f}' by {
            assert(bytes::hex_value(content_hash[i]) is Some);
        }
    }
    is_ascii_chars_encode_utf8(item_id);
    is_ascii_chars_encode_utf8(source);
    is_ascii_chars_encode_utf8(content_hash);
}

proof fn safe_names_are_short(names: Seq<Seq<char>>, i: int)
    requires
        0 <= i <= names.len(),
        names_error_from(names, i) is None,
    ensures
        forall|j: int| i <= j < names.len() ==> !is_unsafe_name(#[trigger] names[j]),
    decreases names.len() - i,
{
    if i < names.len() {
        safe_names_are_short(names, i + 1);
    }
}

proof fn names_bound(names: Seq<Seq<char>>)
    requires
        forall|j: int| 0 <= j < names.len() ==> !is_unsafe_name(#[trigger] names[j]),
    ensures
        codec::texts_bound(names) <= 264 * names.len(),
    decreases names.len(),
{
    if names.len() > 0 {
        assert(forall|j: int| 0 <= j < names.len() - 1 ==> names.drop_last()[j] == names[j]);
        names_bound(names.drop_last());
        assert(!is_unsafe_name(names.last()));
    }
}

/// The encoding of a valid body fits a control frame, with header, nonce and tag.
pub proof fn valid_body_fits(body: WireBodyView, max_item_bytes: u64, now_us: u64)
    requires
        body_error(body, max_item_bytes, now_us) is None,
    ensures
        CONTROL_HEADER_BYTES + RAW_NONCE_BYTES + body_bound(body) + AEAD_TAG_BYTES <= control_limit(
            max_item_bytes,
        ),
{
    match body {
        WireBodyView::Item(item) => {
            identification_is_short(
                item.id,
                item.source_device_id,
                item.content_hash,
                item.created_at_us,
                now_us,
            );
        },
        WireBodyView::FileStart(meta) => {
            identification_is_short(
                meta.item_id,
                meta.source_device_id,
                meta.content_hash,
                meta.created_at_us,
                now_us,
            );
            safe_names_are_short(meta.top_level_names, 0);
            names_bound(meta.top_level_names);
        },
        WireBodyView::ImageStart(meta) => {
            identification_is_short(
                meta.item_id,
                meta.source_device_id,
                meta.content_hash,
                meta.created_at_us,
                now_us,
            );
        },
        WireBodyView::End(end) => {
            uuid_text::uuid_text_is_short_ascii(end.item_id);
            is_ascii_chars_encode_utf8(end.item_id);
        },
    }
}

/// A control frame that one side builds is read back by the other side as the
/// same body, and the two sessions stay in step.
///
/// `frame` is the frame without its length prefix, as the sender built it: it
/// opens under the sender's key as the body.
pub proof fn control_frame_is_read_back(
    body: WireBodyView,
    nonce: Seq<u8>,
    sender: SessionView,
    receiver: SessionView,
    max_item_bytes: u64,
    now_us: u64,
)
    requires
        sender.session_id.len() == 16,
        nonce.len() == RAW_NONCE_BYTES,
        handshake::are_mirrored(sender, receiver),
        carries(control_frame(body, sender, nonce).skip(4), sender.send_control_key, body),
        control_frame(body, sender, nonce).skip(4).len() <= control_limit(max_item_bytes),
        body_error(body, max_item_bytes, now_us) is None,
        body_source(body) is Some ==> uuid_text::uuid_bytes(body_source(body)->Some_0) == Some(
            sender.local_device_id,
        ),
        sender.next_send_control_sequence < u64::MAX,
    ensures
        received(
            control_frame(body, sender, nonce).skip(4),
            max_item_bytes,
            now_us,
            receiver,
        ) == Ok::<_, NetError>(body),
        handshake::are_mirrored(after_send(sender), after_receive(receiver)),
{
    let frame = control_frame(body, sender, nonce).skip(4);
    let plain = plain_body(body);
    let len = CONTROL_HEADER_BYTES + RAW_NONCE_BYTES + plain.len() + AEAD_TAG_BYTES;
    bytes::be32_is_read_back(len as u32);
    bytes::be64_is_read_back(sender.next_send_control_sequence);
    let header = control_header(sender.session_id, sender.next_send_control_sequence);
    assert(frame.take(26) =~= header);
    assert(frame.subrange(2, 18) =~= sender.session_id);
    assert(frame.subrange(18, 26) =~= bytes::be64(sender.next_send_control_sequence));
    assert(frame[0] == header[0]);
    assert(frame[1] == header[1]);
}

/// A control frame that was accepted is refused when it comes again.
pub proof fn control_frame_is_not_accepted_twice(
    frame: Seq<u8>,
    max_item_bytes: u64,
    now_us: u64,
    later_us: u64,
    session: SessionView,
)
    requires
        received(frame, max_item_bytes, now_us, session) is Ok,
    ensures
        received(frame, max_item_bytes, later_us, after_receive(session)) == Err::<
            WireBodyView,
            _,
        >(NetError::ControlSequenceMismatch),
{
}

/// A control frame that one session accepts is refused by every session with
/// another identifier.
pub proof fn control_frame_is_bound_to_its_session(
    frame: Seq<u8>,
    max_item_bytes: u64,
    now_us: u64,
    session: SessionView,
    other: SessionView,
)
    requires
        received(frame, max_item_bytes, now_us, session) is Ok,
        other.session_id != session.session_id,
    ensures
        received(frame, max_item_bytes, now_us, other) == Err::<WireBodyView, _>(
            NetError::ControlSessionMismatch,
        ),
{
}

/// Whatever a control frame delivers is valid, portable and comes from the
/// authenticated peer: no path of another machine gets through.
pub proof fn received_bodies_are_valid(
    frame: Seq<u8>,
    max_item_bytes: u64,
    now_us: u64,
    session: SessionView,
)
    requires
        received(frame, max_item_bytes, now_us, session) is Ok,
    ensures
        ({
            let body = received(frame, max_item_bytes, now_us, session)->Ok_0;
            &&& body_error(body, max_item_bytes, now_us) is None
            &&& body_source(body) is Some ==> uuid_text::uuid_bytes(body_source(body)->Some_0)
                == Some(session.peer_device_id)
            &&& body matches WireBodyView::Item(item) ==> portable(item.payload) is Ok
        }),
{
}

/// A raw frame that one side builds is read back by the other side as the same
/// chunk, and as no other chunk and for no other transfer.
pub proof fn raw_frame_is_read_back(
    frame: Seq<u8>,
    nonce: Seq<u8>,
    sender: SessionView,
    receiver: SessionView,
    transfer_id: Seq<char>,
    chunk_index: u64,
    plain: Seq<u8>,
    max_item_bytes: u64,
)
    requires
        sender.session_id.len() == 16,
        nonce.len() == RAW_NONCE_BYTES,
        handshake::are_mirrored(sender, receiver),
        is_identifier(transfer_id),
        frame == raw_frame(
            sender,
            uuid_text::uuid_bytes(transfer_id)->Some_0,
            chunk_index,
            nonce,
            plain,
        ),
        frame.len() == RAW_HEADER_BYTES + RAW_NONCE_BYTES + plain.len() + AEAD_TAG_BYTES,
        raw_sealed_in(frame, sender.send_raw_key) == Some(plain),
        0 < plain.len() <= raw_limit(max_item_bytes),
    ensures
        raw_received(frame, max_item_bytes, receiver, transfer_id, chunk_index) == Ok::<
            _,
            NetError,
        >(plain),
        forall|other: u64|
            other != chunk_index ==> #[trigger] raw_received(
                frame,
                max_item_bytes,
                receiver,
                transfer_id,
                other,
            ) == Err::<Seq<u8>, _>(NetError::RawChunkMismatch),
        forall|other: Seq<char>|
            is_identifier(other) && uuid_text::uuid_bytes(other) != uuid_text::uuid_bytes(
                transfer_id,
            ) ==> #[trigger] raw_received(frame, max_item_bytes, receiver, other, chunk_index)
                == Err::<Seq<u8>, _>(NetError::RawTransferMismatch),
{
    let transfer = uuid_text::uuid_bytes(transfer_id)->Some_0;
    let header = raw_header(sender.session_id, transfer, chunk_index);
    bytes::be64_is_read_back(chunk_index);
    assert(transfer.len() == 16);
    assert(frame.take(42) =~= header);
    assert(frame[0] == header[0]);
    assert(frame[1] == header[1]);
    assert(frame.subrange(2, 18) =~= sender.session_id);
    assert(frame.subrange(18, 34) =~= transfer);
    assert(frame.subrange(34, 42) =~= bytes::be64(chunk_index));
}

/// Names that differ in the case of ASCII letters alone never travel together.
pub proof fn names_differ_in_more_than_case(names: Seq<Seq<char>>, i: int, j: int)
    requires
        0 <= i < j < names.len(),
        text::is_ascii_text(names[i]),
        text::ascii_lowered(names[i]) == text::ascii_lowered(names[j]),
    ensures
        names_error(names) is Some,
{
    text::case_of_ascii_does_not_matter(names[i], names[j]);
    assert(is_repeated(names, j));
    repeated_names_are_refused(names, 0, j);
}

proof fn repeated_names_are_refused(names: Seq<Seq<char>>, k: int, j: int)
    requires
        0 <= k <= j < names.len(),
        is_repeated(names, j),
    ensures
        names_error_from(names, k) is Some,
    decreases j - k,
{
    if k < j {
        repeated_names_are_refused(names, k + 1, j);
    }
}

/// A text is a digest exactly if it is 64 hexadecimal digits, in either case.
pub proof fn digests_are_64_digits(s: Seq<char>)
    ensures
        is_digest_text(s) <==> s.len() == 64 && forall|i: int|
            0 <= i < s.len() ==> '0' <= #[trigger] s[i] <= '9' || 'a' <= s[i] <= 'f' || 'A' <= s[i]
                <= 'F',
{
    if is_digest_text(s) {
        assert forall|i: int| 0 <= i < s.len() implies '0' <= #[trigger] s[i] <= '9' || 'a' <= s[i]
            <= 'f' || 'A' <= s[i] <= 'F' by {
            assert(bytes::hex_value(s[i]) is Some);
        }
    }
}

/// A content is identified by two identifiers that are not zero, a digest of 64 hexadecimal
/// digits and a time that is set and no more than five minutes ahead, and by nothing else.
pub proof fn contents_are_identified(
    item_id: Seq<u8>,
    source: Seq<u8>,
    content_hash: Seq<char>,
    created_at_us: u64,
    now_us: u64,
)
    requires
        item_id.len() == 16,
        source.len() == 16,
        exists|i: int| 0 <= i < 16 && #[trigger] item_id[i] != 0,
        exists|i: int| 0 <= i < 16 && #[trigger] source[i] != 0,
    ensures
        ({
            let found = identification_error(
                uuid_text::hyphenated(item_id),
                uuid_text::hyphenated(source),
                content_hash,
                created_at_us,
                now_us,
            );
            &&& !is_digest_text(content_hash) ==> found == Some(NetError::InvalidContentHash)
            &&& is_digest_text(content_hash) && (created_at_us == 0 || created_at_us > now_us
                + 300_000_000) ==> found == Some(NetError::TimestampSkew)
            &&& is_digest_text(content_hash) && 0 < created_at_us <= now_us + 300_000_000
                ==> found is None
        }),
{
    uuid_text::hyphenated_is_read_back(item_id);
    uuid_text::hyphenated_is_read_back(source);
}

/// A text of any kind travels in one frame if it is not empty, is as long as it says, and
/// takes no more than 8 MiB and no more than the limit. Nothing else about it matters: neither
/// what it says nor who sent it.
pub proof fn texts_within_the_limits_travel(item: ItemView, max_item_bytes: u64, now_us: u64)
    requires
        identification_error(
            item.id,
            item.source_device_id,
            item.content_hash,
            item.created_at_us,
            now_us,
        ) is None,
    ensures
        ({
            let size = match item.payload {
                PayloadView::Text(s) => encode_utf8(s).len(),
                PayloadView::Html(s) => encode_utf8(s).len(),
                PayloadView::Rtf(s) => encode_utf8(s).len(),
                _ => 0,
            };
            let found = item_error(item, max_item_bytes, now_us);
            &&& item.payload is Text || item.payload is Html || item.payload is Rtf ==> (
            found is None <==> 1 <= size <= 8_388_608 && size <= max_item_bytes && size
                == item.size_bytes) && (found is Some ==> found == Some(NetError::PayloadSize))
            &&& item.payload is ImagePng ==> found == Some(NetError::ImageNeedsStream)
            &&& item.payload is FileBundleDir || item.payload is FileList ==> found == Some(
                NetError::LocalPayload,
            )
        }),
{
}

/// Files of any size up to the limit are streamed, announced with one chunk for every MiB, the
/// last one counted whole.
pub proof fn files_within_the_limit_are_streamed(meta: FileStartView, max_item_bytes: u64, now_us: u64)
    requires
        identification_error(
            meta.item_id,
            meta.source_device_id,
            meta.content_hash,
            meta.created_at_us,
            now_us,
        ) is None,
        names_error(meta.top_level_names) is None,
        meta.size_bytes <= u64::MAX - 1_048_576,
    ensures
        file_start_error(meta, max_item_bytes, now_us) is None <==> {
            &&& 1 <= meta.size_bytes <= max_item_bytes
            &&& (meta.chunk_count - 1) * 1_048_576 < meta.size_bytes <= meta.chunk_count * 1_048_576
        },
        !(1 <= meta.size_bytes <= max_item_bytes) ==> file_start_error(meta, max_item_bytes, now_us)
            == Some(NetError::FileStreamSize),
{
    chunks_cover(meta.size_bytes as int, meta.chunk_count as int);
}

/// Images of any size up to 80 MiB and up to the limit are streamed, in chunks of one MiB.
pub proof fn images_within_the_limit_are_streamed(meta: ImageStartView, max_item_bytes: u64, now_us: u64)
    requires
        identification_error(
            meta.item_id,
            meta.source_device_id,
            meta.content_hash,
            meta.created_at_us,
            now_us,
        ) is None,
    ensures
        image_start_error(meta, max_item_bytes, now_us) is None <==> {
            &&& 1 <= meta.size_bytes <= max_item_bytes
            &&& meta.size_bytes <= 83_886_080
            &&& (meta.chunk_count - 1) * 1_048_576 < meta.size_bytes <= meta.chunk_count * 1_048_576
        },
        !(1 <= meta.size_bytes <= max_item_bytes) ==> image_start_error(
            meta,
            max_item_bytes,
            now_us,
        ) == Some(NetError::ImageStreamSize),
{
    chunks_cover(meta.size_bytes as int, meta.chunk_count as int);
}

proof fn chunks_cover(size: int, count: int)
    requires
        0 <= size,
    ensures
        count == rounded_up(size, 1_048_576) <==> (count - 1) * 1_048_576 < size <= count
            * 1_048_576,
{
    assert(count == (size + 1_048_575) / 1_048_576 <==> (count - 1) * 1_048_576 < size <= count
        * 1_048_576) by (nonlinear_arith)
        requires
            0 <= size,
    ;
}

proof fn names_error_from_is_none(names: Seq<Seq<char>>, k: int)
    requires
        0 <= k <= names.len(),
    ensures
        names_error_from(names, k) is None <==> forall|i: int|
            k <= i < names.len() ==> !is_unsafe_name(#[trigger] names[i]) && !is_repeated(names, i),
    decreases names.len() - k,
{
    if k < names.len() {
        names_error_from_is_none(names, k + 1);
    }
}

/// From 1 to 256 names travel exactly if each can be created in its directory and no two
/// are the same in lower case.
pub proof fn different_names_travel(names: Seq<Seq<char>>)
    ensures
        names_error(names) is None <==> {
            &&& 1 <= names.len() <= 256
            &&& forall|i: int| 0 <= i < names.len() ==> !is_unsafe_name(#[trigger] names[i])
            &&& forall|i: int, j: int|
                0 <= i < j < names.len() ==> text::lowered(#[trigger] names[i]) != text::lowered(
                    #[trigger] names[j],
                )
        },
        !(1 <= names.len() <= 256) ==> names_error(names) == Some(NetError::TopLevelCount),
{
    if 1 <= names.len() <= 256 {
        names_error_from_is_none(names, 0);
        if names_error(names) is None {
            assert forall|i: int, j: int| 0 <= i < j < names.len() implies text::lowered(
                #[trigger] names[i],
            ) != text::lowered(#[trigger] names[j]) by {
                assert(!is_repeated(names, j));
            }
        }
    }
}

/// A name of 1 to 255 bytes can be created in its directory unless it holds a slash, a
/// backslash or a control character, or stands for another directory. Blanks and dots may
/// stand anywhere in it.
pub proof fn ordinary_names_are_safe(s: Seq<char>)
    ensures
        is_unsafe_name(s) <==> {
            ||| s.len() == 0
            ||| encode_utf8(s).len() > 255
            ||| s.len() == 1 && s[0] == '.'
            ||| s.len() == 2 && s[0] == '.' && s[1] == '.'
            ||| exists|i: int|
                0 <= i < s.len() && (#[trigger] s[i] == '/' || s[i] == '\\' || (s[i] as u32) < 0x20
                    || 0x7f <= s[i] as u32 <= 0x9f)
        },
{
    reveal_strlit(".");
    reveal_strlit("..");
    if s.len() == 1 && s[0] == '.' {
        assert(s =~= "."@);
    }
    if s.len() == 2 && s[0] == '.' && s[1] == '.' {
        assert(s =~= ".."@);
    }
    if exists|i: int|
        0 <= i < s.len() && (#[trigger] s[i] == '/' || s[i] == '\\' || text::is_control_char(s[i])) {
        let i = choose|i: int|
            0 <= i < s.len() && (#[trigger] s[i] == '/' || s[i] == '\\' || text::is_control_char(
                s[i],
            ));
        assert(s[i] == '/' || s[i] == '\\' || (s[i] as u32) < 0x20 || 0x7f <= s[i] as u32 <= 0x9f);
    }
    if exists|i: int|
        0 <= i < s.len() && (#[trigger] s[i] == '/' || s[i] == '\\' || (s[i] as u32) < 0x20 || 0x7f
            <= s[i] as u32 <= 0x9f) {
        let i = choose|i: int|
            0 <= i < s.len() && (#[trigger] s[i] == '/' || s[i] == '\\' || (s[i] as u32) < 0x20
                || 0x7f <= s[i] as u32 <= 0x9f);
        assert(s[i] == '/' || s[i] == '\\' || text::is_control_char(s[i]));
    }
}

/// The end of a stream is accepted for any item and any number of chunks but none.
pub proof fn ends_of_streams_are_accepted(id: Seq<u8>, end: StreamEndView)
    requires
        id.len() == 16,
        exists|i: int| 0 <= i < 16 && #[trigger] id[i] != 0,
        end.item_id == uuid_text::hyphenated(id),
    ensures
        end_error(end) is None <==> end.chunk_count > 0,
{
    uuid_text::hyphenated_is_read_back(id);
}

/// A frame starts with its length in four bytes, most significant first, without these; then
/// come version 5, the flag 1, the session and the number of the frame.
pub proof fn frames_start_with_their_header(body: WireBodyView, session: SessionView, nonce: Seq<u8>)
    requires
        session.session_id.len() == 16,
        nonce.len() == 12,
        plain_body(body).len() <= 0x1000_0000,
    ensures
        ({
            let frame = control_frame(body, session, nonce);
            &&& frame.take(4) == bytes::be32((plain_body(body).len() + 54) as u32)
            &&& frame[4] == 5
            &&& frame[5] == 1
            &&& frame.subrange(6, 22) == session.session_id
            &&& frame.subrange(22, 30) == bytes::be64(session.next_send_control_sequence)
            &&& frame.subrange(30, 42) == nonce
        }),
{
    let frame = control_frame(body, session, nonce);
    bytes::be32_is_read_back((plain_body(body).len() + 54) as u32);
    bytes::be64_is_read_back(session.next_send_control_sequence);
    assert(frame.take(4) =~= bytes::be32((plain_body(body).len() + 54) as u32));
    assert(frame.subrange(6, 22) =~= session.session_id);
    assert(frame.subrange(22, 30) =~= bytes::be64(session.next_send_control_sequence));
    assert(frame.subrange(30, 42) =~= nonce);
}

/// A raw frame starts with version 5 and the flag 1; then come the session, the transfer and
/// the number of the chunk.
pub proof fn raw_frames_start_with_their_header(
    session: SessionView,
    transfer: Seq<u8>,
    chunk_index: u64,
    nonce: Seq<u8>,
    plain: Seq<u8>,
)
    requires
        session.session_id.len() == 16,
        transfer.len() == 16,
        nonce.len() == 12,
    ensures
        ({
            let frame = raw_frame(session, transfer, chunk_index, nonce, plain);
            &&& frame[0] == 5
            &&& frame[1] == 1
            &&& frame.subrange(2, 18) == session.session_id
            &&& frame.subrange(18, 34) == transfer
            &&& frame.subrange(34, 42) == bytes::be64(chunk_index)
            &&& frame.subrange(42, 54) == nonce
        }),
{
    let frame = raw_frame(session, transfer, chunk_index, nonce, plain);
    bytes::be64_is_read_back(chunk_index);
    assert(frame.subrange(2, 18) =~= session.session_id);
    assert(frame.subrange(18, 34) =~= transfer);
    assert(frame.subrange(34, 42) =~= bytes::be64(chunk_index));
    assert(frame.subrange(42, 54) =~= nonce);
}

/// Each frame that is sent or received counts one, and nothing else of a session changes.
pub proof fn sessions_count_frames(session: SessionView)
    requires
        session.next_send_control_sequence < u64::MAX,
        session.expected_receive_control_sequence < u64::MAX,
    ensures
        ({
            let sent = after_send(session);
            &&& sent.next_send_control_sequence == session.next_send_control_sequence + 1
            &&& sent == SessionView {
                next_send_control_sequence: sent.next_send_control_sequence,
                ..session
            }
        }),
        ({
            let got = after_receive(session);
            &&& got.expected_receive_control_sequence == session.expected_receive_control_sequence
                + 1
            &&& got == SessionView {
                expected_receive_control_sequence: got.expected_receive_control_sequence,
                ..session
            }
        }),
{
}

/// A body is encoded under the number of its kind, field by field; a text is plain (0), HTML (1)
/// or RTF (2), and goes as it stands.
pub proof fn bodies_are_encoded_field_by_field(
    item: ItemView,
    files: FileStartView,
    image: ImageStartView,
    end: StreamEndView,
)
    ensures
        item.payload is Text ==> plain_body(WireBodyView::Item(item)) == codec::item_bytes(
            0,
            item.id,
            item.content_hash,
            item.created_at_us,
            item.source_device_id,
            item.size_bytes,
            0,
            item.payload->Text_0,
        ),
        item.payload is Html ==> plain_body(WireBodyView::Item(item)) == codec::item_bytes(
            0,
            item.id,
            item.content_hash,
            item.created_at_us,
            item.source_device_id,
            item.size_bytes,
            1,
            item.payload->Html_0,
        ),
        item.payload is Rtf ==> plain_body(WireBodyView::Item(item)) == codec::item_bytes(
            0,
            item.id,
            item.content_hash,
            item.created_at_us,
            item.source_device_id,
            item.size_bytes,
            2,
            item.payload->Rtf_0,
        ),
        plain_body(WireBodyView::FileStart(files)) == codec::file_start_bytes(
            1,
            files.item_id,
            files.content_hash,
            files.created_at_us,
            files.source_device_id,
            files.size_bytes,
            files.chunk_count,
            files.top_level_names,
        ),
        plain_body(WireBodyView::ImageStart(image)) == codec::image_start_bytes(
            2,
            image.item_id,
            image.content_hash,
            image.created_at_us,
            image.source_device_id,
            image.size_bytes,
            image.chunk_count,
        ),
        plain_body(WireBodyView::End(end)) == codec::stream_end_bytes(
            3,
            end.item_id,
            end.chunk_count,
            end.digest_sha256,
        ),
{
}

/// A body is read as it was encoded: what holds the fields of an item, in their order and under
/// its number, is that item, and so for the other kinds.
pub proof fn bodies_are_read_field_by_field(plain: Seq<u8>, body: WireBodyView)
    requires
        match body {
            WireBodyView::Item(item) => codec::variant_of(plain) == Some(0u32) && ({
                let kind: u32 = if item.payload is Text {
                    0
                } else if item.payload is Html {
                    1
                } else {
                    2
                };
                let content = match item.payload {
                    PayloadView::Text(t) => t,
                    PayloadView::Html(t) => t,
                    PayloadView::Rtf(t) => t,
                    _ => Seq::empty(),
                };
                &&& item.payload is Text || item.payload is Html || item.payload is Rtf
                &&& codec::item_of(plain) == Some(
                    (
                        0u32,
                        item.id,
                        item.content_hash,
                        item.created_at_us,
                        item.source_device_id,
                        item.size_bytes,
                        kind,
                        content,
                    ),
                )
            }),
            WireBodyView::FileStart(meta) => codec::variant_of(plain) == Some(1u32)
                && codec::file_start_of(plain) == Some(
                (
                    1u32,
                    meta.item_id,
                    meta.content_hash,
                    meta.created_at_us,
                    meta.source_device_id,
                    meta.size_bytes,
                    meta.chunk_count,
                    meta.top_level_names,
                ),
            ),
            WireBodyView::ImageStart(meta) => codec::variant_of(plain) == Some(2u32)
                && codec::image_start_of(plain) == Some(
                (
                    2u32,
                    meta.item_id,
                    meta.content_hash,
                    meta.created_at_us,
                    meta.source_device_id,
                    meta.size_bytes,
                    meta.chunk_count,
                ),
            ),
            WireBodyView::End(end) => codec::variant_of(plain) == Some(3u32)
                && codec::stream_end_of(plain) == Some(
                (3u32, end.item_id, end.chunk_count, end.digest_sha256),
            ),
        },
    ensures
        body_in(plain) == Some(body),
{
}

/// A frame is accepted that is within its limits, of version 5, encrypted, of this session and
/// the next in its order, opens under the session's key, and holds a valid body of the peer;
/// the body is then what it holds.
pub proof fn frames_of_the_session_are_accepted(
    frame: Seq<u8>,
    body: WireBodyView,
    max_item_bytes: u64,
    now_us: u64,
    session: SessionView,
)
    requires
        54 < frame.len() <= max_item_bytes + 262_144,
        frame.len() <= 8_388_608 + 262_144,
        frame[0] == 5,
        frame[1] == 1,
        frame.subrange(2, 18) == session.session_id,
        bytes::number64(frame.subrange(18, 26)) == session.expected_receive_control_sequence,
        session.expected_receive_control_sequence < u64::MAX,
        carries(frame, session.receive_control_key, body),
        body_error(body, max_item_bytes, now_us) is None,
        body_source(body) is Some ==> uuid_text::uuid_bytes(body_source(body)->Some_0) == Some(
            session.peer_device_id,
        ),
    ensures
        received(frame, max_item_bytes, now_us, session) == Ok::<_, NetError>(body),
{
}

/// A frame of another version, one that is not encrypted, one of another session and one out of
/// its order are refused, whatever they hold.
pub proof fn other_frames_are_refused(
    frame: Seq<u8>,
    max_item_bytes: u64,
    now_us: u64,
    session: SessionView,
)
    requires
        54 < frame.len() <= max_item_bytes + 262_144,
        frame.len() <= 8_388_608 + 262_144,
        frame[0] != 5 || frame[1] != 1 || frame.subrange(2, 18) != session.session_id
            || bytes::number64(frame.subrange(18, 26))
            != session.expected_receive_control_sequence,
    ensures
        received(frame, max_item_bytes, now_us, session) is Err,
{
}

/// The chunk of a raw frame is accepted if the frame is of version 5, encrypted, of this session,
/// this transfer and in its place, opens under the session's key, and carries no more than one
/// MiB and no more than the limit.
pub proof fn raw_frames_of_the_transfer_are_accepted(
    frame: Seq<u8>,
    plain: Seq<u8>,
    max_item_bytes: u64,
    session: SessionView,
    transfer: Seq<u8>,
    chunk_index: u64,
)
    requires
        frame.len() > 70,
        transfer.len() == 16,
        exists|i: int| 0 <= i < 16 && #[trigger] transfer[i] != 0,
        raw_sealed_in(frame, session.receive_raw_key) == Some(plain),
        0 < plain.len() <= 1_048_576,
        plain.len() <= max_item_bytes,
    ensures
        raw_received(
            frame,
            max_item_bytes,
            session,
            uuid_text::hyphenated(transfer),
            chunk_index,
        ) == Ok::<_, NetError>(plain) <==> {
            &&& frame[0] == 5
            &&& frame[1] == 1
            &&& frame.subrange(2, 18) == session.session_id
            &&& frame.subrange(18, 34) == transfer
            &&& bytes::number64(frame.subrange(34, 42)) == chunk_index
        },
{
    uuid_text::hyphenated_is_read_back(transfer);
}

/// A valid body is sent as long as the session has a number for it; only one that is not valid
/// is refused before.
pub proof fn valid_bodies_are_sent(
    body: WireBodyView,
    max_item_bytes: u64,
    now_us: u64,
    session: SessionView,
)
    ensures
        body_error(body, max_item_bytes, now_us) is None && session.next_send_control_sequence
            < u64::MAX ==> send_error(body, max_item_bytes, now_us, session) is None,
        body_error(body, max_item_bytes, now_us) is Some ==> send_error(
            body,
            max_item_bytes,
            now_us,
            session,
        ) == body_error(body, max_item_bytes, now_us),
        session.next_send_control_sequence == u64::MAX ==> send_error(
            body,
            max_item_bytes,
            now_us,
            session,
        ) is Some,
{
}

} // verus!
