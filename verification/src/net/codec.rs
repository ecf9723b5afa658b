//! Control bodies as byte strings.
//!
//! A body is a variant index followed by its fields, in the compact encoding of
//! `bincode`: integers and lengths as varints of one to nine bytes, texts as their
//! length and their UTF-8 bytes.

use crate::protocol;
use bincode::Options;
use vstd::prelude::*;
use vstd::utf8::*;

verus! {

/// The fields of an item body: variant, identifier, content hash, time, source,
/// size, kind of content, content.
pub type ItemFields = (u32, String, String, u64, String, u64, u32, String);

/// The fields of the start of a file stream: variant, identifier, content hash,
/// time, source, size, number of chunks, top-level names.
pub type FileStartFields = (u32, String, String, u64, String, u64, u64, Vec<String>);

/// The fields of the start of an image stream: variant, identifier, content
/// hash, time, source, size, number of chunks.
pub type ImageStartFields = (u32, String, String, u64, String, u64, u64);

/// The fields of the end of a stream: variant, identifier, number of chunks, digest.
pub type StreamEndFields = (u32, String, u64, [u8; 32]);

/// The longest encoding of an integer or of a length.
pub const MAX_VARINT_BYTES: u64 = 9;

/// How many bytes texts take, each with its length.
pub open spec fn texts_bound(v: Seq<Seq<char>>) -> nat
    decreases v.len(),
{
    if v.len() == 0 {
        0
    } else {
        texts_bound(v.drop_last()) + encode_utf8(v.last()).len() + MAX_VARINT_BYTES as nat
    }
}

/// The most bytes that an item body takes.
pub open spec fn item_bound(
    id: Seq<char>,
    content_hash: Seq<char>,
    source: Seq<char>,
    content: Seq<char>,
) -> nat {
    8 * MAX_VARINT_BYTES as nat + encode_utf8(id).len() + encode_utf8(content_hash).len()
        + encode_utf8(source).len() + encode_utf8(content).len()
}

/// The most bytes that the start of a file stream takes.
pub open spec fn file_start_bound(
    id: Seq<char>,
    content_hash: Seq<char>,
    source: Seq<char>,
    names: Seq<Seq<char>>,
) -> nat {
    8 * MAX_VARINT_BYTES as nat + encode_utf8(id).len() + encode_utf8(content_hash).len()
        + encode_utf8(source).len() + texts_bound(names)
}

/// The most bytes that the start of an image stream takes.
pub open spec fn image_start_bound(
    id: Seq<char>,
    content_hash: Seq<char>,
    source: Seq<char>,
) -> nat {
    7 * MAX_VARINT_BYTES as nat + encode_utf8(id).len() + encode_utf8(content_hash).len()
        + encode_utf8(source).len()
}

/// The most bytes that the end of a stream takes.
pub open spec fn stream_end_bound(id: Seq<char>) -> nat {
    3 * MAX_VARINT_BYTES as nat + encode_utf8(id).len() + 32
}

/// The variant index at the start of a body.
pub uninterp spec fn variant_of(b: Seq<u8>) -> Option<u32>;

/// The encoding of an item body.
pub uninterp spec fn item_bytes(
    variant: u32,
    id: Seq<char>,
    content_hash: Seq<char>,
    created_at_us: u64,
    source: Seq<char>,
    size_bytes: u64,
    kind: u32,
    content: Seq<char>,
) -> Seq<u8>;

/// The fields that a byte string holds as an item body.
pub uninterp spec fn item_of(b: Seq<u8>) -> Option<
    (u32, Seq<char>, Seq<char>, u64, Seq<char>, u64, u32, Seq<char>),
>;

/// The encoding of the start of a file stream.
pub uninterp spec fn file_start_bytes(
    variant: u32,
    id: Seq<char>,
    content_hash: Seq<char>,
    created_at_us: u64,
    source: Seq<char>,
    size_bytes: u64,
    chunk_count: u64,
    names: Seq<Seq<char>>,
) -> Seq<u8>;

/// The fields that a byte string holds as the start of a file stream.
pub uninterp spec fn file_start_of(b: Seq<u8>) -> Option<
    (u32, Seq<char>, Seq<char>, u64, Seq<char>, u64, u64, Seq<Seq<char>>),
>;

/// The encoding of the start of an image stream.
pub uninterp spec fn image_start_bytes(
    variant: u32,
    id: Seq<char>,
    content_hash: Seq<char>,
    created_at_us: u64,
    source: Seq<char>,
    size_bytes: u64,
    chunk_count: u64,
) -> Seq<u8>;

/// The fields that a byte string holds as the start of an image stream.
pub uninterp spec fn image_start_of(b: Seq<u8>) -> Option<
    (u32, Seq<char>, Seq<char>, u64, Seq<char>, u64, u64),
>;

/// The encoding of the end of a stream.
pub uninterp spec fn stream_end_bytes(
    variant: u32,
    id: Seq<char>,
    chunk_count: u64,
    digest: Seq<u8>,
) -> Seq<u8>;

/// The fields that a byte string holds as the end of a stream.
pub uninterp spec fn stream_end_of(b: Seq<u8>) -> Option<(u32, Seq<char>, u64, Seq<u8>)>;

/// `bincode::Options::serialize` encodes the fields of an item, unless they take
/// more than `limit` bytes. What it writes can be read back.
#[verifier::external_body]
pub(crate) fn encode_item(
    variant: u32,
    id: &str,
    content_hash: &str,
    created_at_us: u64,
    source: &str,
    size_bytes: u64,
    kind: u32,
    content: &str,
    limit: u64,
) -> (bytes: Option<Vec<u8>>)
    ensures
        match bytes {
            Some(b) => {
                &&& b@ == item_bytes(
                    variant,
                    id@,
                    content_hash@,
                    created_at_us,
                    source@,
                    size_bytes,
                    kind,
                    content@,
                )
                &&& 1 <= b@.len() <= limit
                &&& b@.len() <= item_bound(id@, content_hash@, source@, content@)
                &&& variant_of(b@) == Some(variant)
                &&& item_of(b@) == Some(
                    (
                        variant,
                        id@,
                        content_hash@,
                        created_at_us,
                        source@,
                        size_bytes,
                        kind,
                        content@,
                    ),
                )
            },
            None => limit < item_bytes(
                variant,
                id@,
                content_hash@,
                created_at_us,
                source@,
                size_bytes,
                kind,
                content@,
            ).len() <= item_bound(id@, content_hash@, source@, content@),
        },
{
    let fields = (
        variant, id, content_hash, created_at_us, source, size_bytes, kind, content,
    );
    bincode::DefaultOptions::new().with_limit(limit).serialize(&fields).ok()
}

/// `bincode::Options::deserialize` reads the fields of an item, or refuses the
/// bytes; bytes left over are refused too.
#[verifier::external_body]
pub(crate) fn decode_item(bytes: &[u8]) -> (fields: Option<ItemFields>)
    ensures
        match fields {
            Some(f) => item_of(bytes@) == Some((f.0, f.1@, f.2@, f.3, f.4@, f.5, f.6, f.7@)),
            None => item_of(bytes@) is None,
        },
{
    bincode::DefaultOptions::new().reject_trailing_bytes().deserialize(bytes).ok()
}

/// `bincode::Options::serialize` encodes the fields of the start of a file
/// stream, unless they take more than `limit` bytes. What it writes can be read back.
#[verifier::external_body]
pub(crate) fn encode_file_start(
    variant: u32,
    id: &str,
    content_hash: &str,
    created_at_us: u64,
    source: &str,
    size_bytes: u64,
    chunk_count: u64,
    names: &Vec<String>,
    limit: u64,
) -> (bytes: Option<Vec<u8>>)
    ensures
        match bytes {
            Some(b) => {
                &&& b@ == file_start_bytes(
                    variant,
                    id@,
                    content_hash@,
                    created_at_us,
                    source@,
                    size_bytes,
                    chunk_count,
                    protocol::texts(names@),
                )
                &&& 1 <= b@.len() <= limit
                &&& b@.len() <= file_start_bound(
                    id@,
                    content_hash@,
                    source@,
                    protocol::texts(names@),
                )
                &&& variant_of(b@) == Some(variant)
                &&& file_start_of(b@) == Some(
                    (
                        variant,
                        id@,
                        content_hash@,
                        created_at_us,
                        source@,
                        size_bytes,
                        chunk_count,
                        protocol::texts(names@),
                    ),
                )
            },
            None => limit < file_start_bytes(
                variant,
                id@,
                content_hash@,
                created_at_us,
                source@,
                size_bytes,
                chunk_count,
                protocol::texts(names@),
            ).len() <= file_start_bound(id@, content_hash@, source@, protocol::texts(names@)),
        },
{
    let fields = (
        variant, id, content_hash, created_at_us, source, size_bytes, chunk_count, names,
    );
    bincode::DefaultOptions::new().with_limit(limit).serialize(&fields).ok()
}

/// `bincode::Options::deserialize` reads the fields of the start of a file
/// stream, or refuses the bytes; bytes left over are refused too.
#[verifier::external_body]
pub(crate) fn decode_file_start(bytes: &[u8]) -> (fields: Option<FileStartFields>)
    ensures
        match fields {
            Some(f) => file_start_of(bytes@) == Some(
                (f.0, f.1@, f.2@, f.3, f.4@, f.5, f.6, protocol::texts(f.7@)),
            ),
            None => file_start_of(bytes@) is None,
        },
{
    bincode::DefaultOptions::new().reject_trailing_bytes().deserialize(bytes).ok()
}

/// `bincode::Options::serialize` encodes the fields of the start of an image
/// stream, unless they take more than `limit` bytes. What it writes can be read back.
#[verifier::external_body]
pub(crate) fn encode_image_start(
    variant: u32,
    id: &str,
    content_hash: &str,
    created_at_us: u64,
    source: &str,
    size_bytes: u64,
    chunk_count: u64,
    limit: u64,
) -> (bytes: Option<Vec<u8>>)
    ensures
        match bytes {
            Some(b) => {
                &&& b@ == image_start_bytes(
                    variant,
                    id@,
                    content_hash@,
                    created_at_us,
                    source@,
                    size_bytes,
                    chunk_count,
                )
                &&& 1 <= b@.len() <= limit
                &&& b@.len() <= image_start_bound(id@, content_hash@, source@)
                &&& variant_of(b@) == Some(variant)
                &&& image_start_of(b@) == Some(
                    (
                        variant,
                        id@,
                        content_hash@,
                        created_at_us,
                        source@,
                        size_bytes,
                        chunk_count,
                    ),
                )
            },
            None => limit < image_start_bytes(
                variant,
                id@,
                content_hash@,
                created_at_us,
                source@,
                size_bytes,
                chunk_count,
            ).len() <= image_start_bound(id@, content_hash@, source@),
        },
{
    let fields = (variant, id, content_hash, created_at_us, source, size_bytes, chunk_count);
    bincode::DefaultOptions::new().with_limit(limit).serialize(&fields).ok()
}

/// `bincode::Options::deserialize` reads the fields of the start of an image
/// stream, or refuses the bytes; bytes left over are refused too.
#[verifier::external_body]
pub(crate) fn decode_image_start(bytes: &[u8]) -> (fields: Option<ImageStartFields>)
    ensures
        match fields {
            Some(f) => image_start_of(bytes@) == Some((f.0, f.1@, f.2@, f.3, f.4@, f.5, f.6)),
            None => image_start_of(bytes@) is None,
        },
{
    bincode::DefaultOptions::new().reject_trailing_bytes().deserialize(bytes).ok()
}

/// `bincode::Options::serialize` encodes the fields of the end of a stream,
/// unless they take more than `limit` bytes. What it writes can be read back.
#[verifier::external_body]
pub(crate) fn encode_stream_end(
    variant: u32,
    id: &str,
    chunk_count: u64,
    digest: &[u8; 32],
    limit: u64,
) -> (bytes: Option<Vec<u8>>)
    ensures
        match bytes {
            Some(b) => {
                &&& b@ == stream_end_bytes(variant, id@, chunk_count, digest@)
                &&& 1 <= b@.len() <= limit
                &&& b@.len() <= stream_end_bound(id@)
                &&& variant_of(b@) == Some(variant)
                &&& stream_end_of(b@) == Some((variant, id@, chunk_count, digest@))
            },
            None => limit < stream_end_bytes(
                variant,
                id@,
                chunk_count,
                digest@,
            ).len() <= stream_end_bound(id@),
        },
{
    let fields = (variant, id, chunk_count, digest);
    bincode::DefaultOptions::new().with_limit(limit).serialize(&fields).ok()
}

/// `bincode::Options::deserialize` reads the fields of the end of a stream, or
/// refuses the bytes; bytes left over are refused too.
#[verifier::external_body]
pub(crate) fn decode_stream_end(bytes: &[u8]) -> (fields: Option<StreamEndFields>)
    ensures
        match fields {
            Some(f) => stream_end_of(bytes@) == Some((f.0, f.1@, f.2, f.3@)),
            None => stream_end_of(bytes@) is None,
        },
{
    bincode::DefaultOptions::new().reject_trailing_bytes().deserialize(bytes).ok()
}

/// `bincode::Options::deserialize` reads the variant index at the start of a
/// body, whatever follows it.
#[verifier::external_body]
pub(crate) fn decode_variant(bytes: &[u8]) -> (variant: Option<u32>)
    ensures
        variant == variant_of(bytes@),
{
    bincode::DefaultOptions::new().allow_trailing_bytes().deserialize(bytes).ok()
}

} // verus!
