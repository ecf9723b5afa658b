//! Items made of what was copied on this device.

use crate::clipboard::fingerprint;
use crate::clipboard::fingerprint::payload_content_hash;
use crate::clipboard::types::ClipboardError;
use crate::protocol::{ClipboardItem, ClipboardPayload, ItemView, PayloadView};
use crate::settings;
use crate::text::byte_len;
use crate::uuid_text;
use crate::uuid_text::{hyphenated_text, random_uuid};
use vstd::prelude::*;
use vstd::utf8::*;

verus! {

/// The size of a content; that of a received bundle is what its directory takes on disk.
pub open spec fn content_size(payload: PayloadView, bundle_bytes: u64) -> u64 {
    match payload {
        PayloadView::Text(t) => encode_utf8(t).len() as u64,
        PayloadView::ImagePng(b) => b.len() as u64,
        PayloadView::FileBundleDir(_, _) => bundle_bytes,
        PayloadView::FileList(_, _, size_bytes) => size_bytes,
        PayloadView::Html(t) => encode_utf8(t).len() as u64,
        PayloadView::Rtf(t) => encode_utf8(t).len() as u64,
    }
}

pub(crate) fn size_of(payload: &ClipboardPayload, bundle_bytes: u64) -> (size: u64)
    ensures
        size == content_size(payload@, bundle_bytes),
{
    match payload {
        ClipboardPayload::Text { text } => byte_len(text) as u64,
        ClipboardPayload::ImagePng { png_bytes } => png_bytes.len() as u64,
        ClipboardPayload::FileBundleDir { .. } => bundle_bytes,
        ClipboardPayload::FileList { estimated_archive_bytes, .. } => *estimated_archive_bytes,
        ClipboardPayload::Html { html } => byte_len(html) as u64,
        ClipboardPayload::Rtf { rtf } => byte_len(rtf) as u64,
    }
}

/// The item that a content makes, with the hash that it is known by.
pub open spec fn item_of(
    payload: PayloadView,
    device_id: Seq<char>,
    bundle_bytes: u64,
    content_hash: Seq<char>,
    id: Seq<u8>,
    now_us: u64,
) -> ItemView {
    ItemView {
        id: uuid_text::hyphenated(id),
        content_hash,
        created_at_us: now_us,
        source_device_id: device_id,
        size_bytes: content_size(payload, bundle_bytes),
        payload,
    }
}

/// A result is the item of a content with a given identifier: none if the content is
/// empty; for files the hash of their tree decides.
pub open spec fn is_built(
    result: Result<Option<ClipboardItem>, ClipboardError>,
    payload: PayloadView,
    device_id: Seq<char>,
    bundle_bytes: u64,
    tree_hash: Result<String, ClipboardError>,
    id: Seq<u8>,
    now_us: u64,
) -> bool {
    if content_size(payload, bundle_bytes) == 0 {
        result matches Ok(None)
    } else {
        match fingerprint::portable_hash(payload) {
            Some(hash) => result matches Ok(Some(item)) && item@ == item_of(
                payload,
                device_id,
                bundle_bytes,
                hash,
                id,
                now_us,
            ),
            None => match tree_hash {
                Ok(hash) => result matches Ok(Some(item)) && item@ == item_of(
                    payload,
                    device_id,
                    bundle_bytes,
                    hash@,
                    id,
                    now_us,
                ),
                Err(e) => result matches Err(error) && error@ == e@,
            },
        }
    }
}

/// Makes an item with a given identifier of a content.
pub fn build_item_with(
    payload: &ClipboardPayload,
    device_id: &str,
    bundle_bytes: u64,
    tree_hash: Result<String, ClipboardError>,
    id: [u8; 16],
    now_us: u64,
) -> (result: Result<Option<ClipboardItem>, ClipboardError>)
    ensures
        is_built(result, payload@, device_id@, bundle_bytes, tree_hash, id@, now_us),
{
    let size_bytes: u64 = size_of(payload, bundle_bytes);
    if size_bytes == 0 {
        return Ok(None);
    }
    let content_hash = match payload_content_hash(payload) {
        Some(hash) => hash,
        None => match tree_hash {
            Ok(hash) => hash,
            Err(e) => return Err(e),
        },
    };
    Ok(
        Some(
            ClipboardItem {
                id: hyphenated_text(id),
                content_hash,
                created_at_us: now_us,
                source_device_id: device_id.to_owned(),
                size_bytes,
                payload: payload.clone(),
            },
        ),
    )
}

/// Makes an item of a content, with an identifier of its own.
pub fn build_item(
    payload: &ClipboardPayload,
    device_id: &str,
    bundle_bytes: u64,
    tree_hash: Result<String, ClipboardError>,
    now_us: u64,
) -> (result: Result<Option<ClipboardItem>, ClipboardError>)
    ensures
        exists|id: Seq<u8>|
            settings::is_fresh_id(id) && #[trigger] is_built(
                result,
                payload@,
                device_id@,
                bundle_bytes,
                tree_hash,
                id,
                now_us,
            ),
{
    let id = random_uuid();
    assert(settings::is_fresh_id(id@));
    build_item_with(payload, device_id, bundle_bytes, tree_hash, id, now_us)
}

/// The size of a text is that of its bytes in UTF-8, that of an image the number of its bytes,
/// that of files what their archive takes.
pub proof fn sizes_are_those_of_the_bytes(payload: PayloadView, bundle_bytes: u64)
    ensures
        ({
            let size = content_size(payload, bundle_bytes);
            match payload {
                PayloadView::Text(t) => encode_utf8(t).len() <= u64::MAX ==> size == encode_utf8(
                    t,
                ).len(),
                PayloadView::Html(t) => encode_utf8(t).len() <= u64::MAX ==> size == encode_utf8(
                    t,
                ).len(),
                PayloadView::Rtf(t) => encode_utf8(t).len() <= u64::MAX ==> size == encode_utf8(
                    t,
                ).len(),
                PayloadView::ImagePng(b) => b.len() <= u64::MAX ==> size == b.len(),
                PayloadView::FileBundleDir(_, _) => size == bundle_bytes,
                PayloadView::FileList(_, _, n) => size == n,
            }
        }),
{
}

/// An item carries its content as it is, under the device's identifier and at the time of
/// the copy. Every content makes one that is not empty, and for files has a hash.
pub proof fn contents_make_items(
    result: Result<Option<ClipboardItem>, ClipboardError>,
    payload: PayloadView,
    device_id: Seq<char>,
    bundle_bytes: u64,
    tree_hash: Result<String, ClipboardError>,
    id: Seq<u8>,
    now_us: u64,
)
    requires
        is_built(result, payload, device_id, bundle_bytes, tree_hash, id, now_us),
    ensures
        content_size(payload, bundle_bytes) == 0 ==> result is Ok && result->Ok_0 is None,
        content_size(payload, bundle_bytes) > 0 && !(payload is FileBundleDir) && !(
        payload is FileList) ==> result is Ok && result->Ok_0 is Some,
        content_size(payload, bundle_bytes) > 0 && (payload is FileBundleDir || payload is FileList)
            ==> (result is Ok <==> tree_hash is Ok),
        result is Ok && result->Ok_0 is Some ==> ({
            let item = result->Ok_0->Some_0@;
            &&& item.payload == payload
            &&& item.source_device_id == device_id
            &&& item.created_at_us == now_us
            &&& item.id == uuid_text::hyphenated(id)
            &&& item.size_bytes == content_size(payload, bundle_bytes)
            &&& (payload is FileBundleDir || payload is FileList) ==> item.content_hash
                == tree_hash->Ok_0@
        }),
{
}

/// The same content always has the same hash, whoever copied it and whenever; only the hash
/// of files comes from elsewhere.
pub proof fn same_contents_have_the_same_hash(
    a: Result<Option<ClipboardItem>, ClipboardError>,
    b: Result<Option<ClipboardItem>, ClipboardError>,
    payload: PayloadView,
    devices: (Seq<char>, Seq<char>),
    bundle_bytes: u64,
    trees: (Result<String, ClipboardError>, Result<String, ClipboardError>),
    ids: (Seq<u8>, Seq<u8>),
    times: (u64, u64),
)
    requires
        is_built(a, payload, devices.0, bundle_bytes, trees.0, ids.0, times.0),
        is_built(b, payload, devices.1, bundle_bytes, trees.1, ids.1, times.1),
        !(payload is FileBundleDir),
        !(payload is FileList),
        content_size(payload, bundle_bytes) > 0,
    ensures
        a->Ok_0->Some_0@.content_hash == b->Ok_0->Some_0@.content_hash,
        a->Ok_0->Some_0@.content_hash == fingerprint::hash_text(
            match payload {
                PayloadView::Text(t) => encode_utf8(t),
                PayloadView::Html(t) => encode_utf8(t),
                PayloadView::Rtf(t) => encode_utf8(t),
                PayloadView::ImagePng(b) => b,
                _ => Seq::empty(),
            },
        ),
{
}

} // verus!
