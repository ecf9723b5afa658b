//! By which hash a content is known.

use crate::bytes;
use crate::bytes::{hex_of, push_all, push_be64};
use crate::clipboard::path_policy::{MAX_ARCHIVE_DEPTH, MAX_ARCHIVE_ENTRIES};
use crate::clipboard::types::{backend, ClipboardError, ErrorView};
use crate::order;
use crate::order::stable_sort;
use crate::primitives;
use crate::primitives::{finish_digest, running_digest, sha256_of, update_digest, RunningDigest};
use crate::protocol;
use crate::protocol::{ClipboardPayload, PayloadView};
use crate::text;
use crate::text::{is_text_before, same_text};
use vstd::prelude::*;
use vstd::utf8::*;

verus! {

/// The hash of a content of bytes, in hexadecimal.
pub open spec fn hash_text(b: Seq<u8>) -> Seq<char> {
    bytes::hex_text(primitives::sha256(b))
}

/// Hashes bytes.
pub fn hex_hash(b: &[u8]) -> (hash: String)
    ensures
        hash@ == hash_text(b@),
{
    hex_of(&sha256_of(b))
}

/// A content that is hashed as it is read.
pub struct ContentHash {
    pub digest: RunningDigest,
}

impl View for ContentHash {
    type V = Seq<u8>;

    /// What was read so far.
    open spec fn view(&self) -> Seq<u8> {
        primitives::taken_bytes(self.digest)
    }
}

impl ContentHash {
    /// A content of which nothing was read yet.
    pub fn new() -> (content: Self)
        ensures
            content@ == Seq::<u8>::empty(),
    {
        ContentHash { digest: running_digest() }
    }

    /// Takes note of the next part of the content.
    pub fn push(&mut self, part: &[u8])
        ensures
            final(self)@ == old(self)@ + part@,
    {
        update_digest(&mut self.digest, part);
    }

    /// The hash of everything that was read.
    pub fn finish(self) -> (hash: String)
        ensures
            hash@ == hash_text(self@),
    {
        hex_of(&finish_digest(self.digest))
    }
}

/// The hash of a content that is not made of files.
pub open spec fn portable_hash(payload: PayloadView) -> Option<Seq<char>> {
    match payload {
        PayloadView::Text(s) => Some(hash_text(encode_utf8(s))),
        PayloadView::ImagePng(b) => Some(hash_text(b)),
        PayloadView::Html(s) => Some(hash_text(encode_utf8(s))),
        PayloadView::Rtf(s) => Some(hash_text(encode_utf8(s))),
        PayloadView::FileBundleDir(_, _) => None,
        PayloadView::FileList(_, _, _) => None,
    }
}

/// Hashes a content. Files have the hash of their tree, which takes reading them:
/// for them there is none here.
pub fn payload_content_hash(payload: &ClipboardPayload) -> (hash: Option<String>)
    ensures
        match hash {
            Some(h) => portable_hash(payload@) == Some(h@),
            None => portable_hash(payload@) is None,
        },
{
    match payload {
        ClipboardPayload::Text { text } => Some(hex_hash(text.as_str().as_bytes())),
        ClipboardPayload::ImagePng { png_bytes } => Some(hex_hash(png_bytes)),
        ClipboardPayload::Html { html } => Some(hex_hash(html.as_str().as_bytes())),
        ClipboardPayload::Rtf { rtf } => Some(hex_hash(rtf.as_str().as_bytes())),
        ClipboardPayload::FileBundleDir { .. } => None,
        ClipboardPayload::FileList { .. } => None,
    }
}

/// A directory or file of a tree.
#[derive(Debug)]
pub struct HashRecord {
    pub is_directory: bool,
    pub path: String,
    pub size_bytes: u64,
    pub content_hash: Option<String>,
}

/// A directory or file of a tree as plain values.
#[verifier::ext_equal]
pub struct RecordView {
    pub is_directory: bool,
    pub path: Seq<char>,
    pub size_bytes: u64,
    pub content_hash: Option<Seq<char>>,
}

impl View for HashRecord {
    type V = RecordView;

    open spec fn view(&self) -> RecordView {
        RecordView {
            is_directory: self.is_directory,
            path: self.path@,
            size_bytes: self.size_bytes,
            content_hash: match self.content_hash {
                Some(h) => Some(h@),
                None => None,
            },
        }
    }
}

/// The record of a directory.
pub open spec fn directory_record(path: Seq<char>) -> RecordView {
    RecordView { is_directory: true, path, size_bytes: 0, content_hash: None }
}

/// The record of a file.
pub open spec fn file_record(path: Seq<char>, size_bytes: u64, hash: Seq<char>) -> RecordView {
    RecordView { is_directory: false, path, size_bytes, content_hash: Some(hash) }
}

/// Records are ordered by path; at one path a directory comes before a file.
pub open spec fn record_before(a: RecordView, b: RecordView) -> bool {
    if a.path != b.path {
        text::text_before(a.path, b.path)
    } else {
        a.is_directory && !b.is_directory
    }
}

/// The order of records.
pub open spec fn by_path() -> spec_fn(RecordView, RecordView) -> bool {
    |a: RecordView, b: RecordView| record_before(a, b)
}

/// A number in eight bytes, the lowest first.
pub open spec fn le64(n: u64) -> Seq<u8> {
    bytes::be64(n).reverse()
}

/// The bytes that stand for a record.
pub open spec fn record_bytes(r: RecordView) -> Seq<u8> {
    encode_utf8(
        if r.is_directory {
            "dir"@
        } else {
            "file"@
        },
    ) + seq![0u8] + encode_utf8(r.path) + seq![0u8] + le64(r.size_bytes) + seq![0u8] + (
    match r.content_hash {
        Some(h) => encode_utf8(h),
        None => Seq::empty(),
    }) + seq![0xffu8]
}

/// The bytes that stand for several records.
pub open spec fn records_bytes(s: Seq<RecordView>) -> Seq<u8>
    decreases s.len(),
{
    if s.len() == 0 {
        Seq::empty()
    } else {
        records_bytes(s.drop_last()) + record_bytes(s.last())
    }
}

/// The hash of a tree of files.
pub open spec fn tree_hash(s: Seq<RecordView>) -> Seq<char> {
    hash_text(records_bytes(order::sorted(s, by_path())))
}

/// Records as plain values.
pub open spec fn record_views(s: Seq<HashRecord>) -> Seq<RecordView> {
    s.map_values(|r: HashRecord| r@)
}

/// A tree of files that is being hashed.
#[derive(Debug)]
pub struct FileTreeHash {
    pub records: Vec<HashRecord>,
}

fn push_le64(out: &mut Vec<u8>, n: u64)
    ensures
        final(out)@ == old(out)@ + le64(n),
{
    let mut be: Vec<u8> = Vec::new();
    push_be64(&mut be, n);
    proof {
        bytes::be64_is_read_back(n);
    }
    let mut i: usize = 8;
    while i > 0
        invariant
            i <= 8,
            be@.len() == 8,
            be@ == bytes::be64(n),
            out@ =~= old(out)@ + le64(n).take(8 - i),
            le64(n).len() == 8,
        decreases i,
    {
        i = i - 1;
        out.push(be[i]);
        assert(le64(n)[7 - i] == be@[i as int]);
        assert(le64(n).take(8 - i) =~= le64(n).take(7 - i).push(be@[i as int]));
    }
    assert(le64(n).take(8) =~= le64(n));
}

fn push_record(out: &mut Vec<u8>, r: &HashRecord)
    ensures
        final(out)@ == old(out)@ + record_bytes(r@),
{
    if r.is_directory {
        push_all(out, "dir".as_bytes());
    } else {
        push_all(out, "file".as_bytes());
    }
    out.push(0);
    push_all(out, r.path.as_str().as_bytes());
    out.push(0);
    push_le64(out, r.size_bytes);
    out.push(0);
    if let Some(h) = &r.content_hash {
        push_all(out, h.as_str().as_bytes());
    }
    out.push(0xff);
    assert(out@ =~= old(out)@ + record_bytes(r@));
}

fn is_record_before(a: &HashRecord, b: &HashRecord) -> (before: bool)
    ensures
        before == record_before(a@, b@),
{
    if !same_text(&a.path, &b.path) {
        is_text_before(&a.path, &b.path)
    } else {
        a.is_directory && !b.is_directory
    }
}

impl FileTreeHash {
    /// A tree without files.
    pub fn new() -> (tree: Self)
        ensures
            tree.records@.len() == 0,
    {
        FileTreeHash { records: Vec::new() }
    }

    /// Adds a directory.
    pub fn push_directory(&mut self, path: &str)
        ensures
            record_views(final(self).records@) == record_views(old(self).records@).push(
                directory_record(path@),
            ),
    {
        self.records.push(
            HashRecord {
                is_directory: true,
                path: path.to_owned(),
                size_bytes: 0,
                content_hash: None,
            },
        );
        assert(record_views(self.records@) =~= record_views(old(self).records@).push(
            directory_record(path@),
        ));
    }

    /// Adds a file whose content was read.
    pub fn push_file(&mut self, path: &str, size_bytes: u64, content: ContentHash)
        ensures
            record_views(final(self).records@) == record_views(old(self).records@).push(
                file_record(path@, size_bytes, hash_text(content@)),
            ),
    {
        let ghost hash = hash_text(content@);
        self.records.push(
            HashRecord {
                is_directory: false,
                path: path.to_owned(),
                size_bytes,
                content_hash: Some(content.finish()),
            },
        );
        assert(record_views(self.records@) =~= record_views(old(self).records@).push(
            file_record(path@, size_bytes, hash),
        ));
    }

    /// The hash of the tree.
    pub fn finalize(self) -> (hash: String)
        ensures
            hash@ == tree_hash(record_views(self.records@)),
    {
        let ghost all = self.records@;
        let mut records = self.records;
        let ghost before = |a: HashRecord, b: HashRecord| record_before(a@, b@);
        let ghost f = |r: HashRecord| r@;
        let is_before = |a: &HashRecord, b: &HashRecord| -> (r: bool)
            ensures
                r == record_before(a@, b@),
            { is_record_before(a, b) };
        stable_sort(&mut records, is_before, Ghost(before));
        proof {
            order::sorted_map(all, f, before, by_path());
            assert(record_views(all) =~= all.map_values(f));
            assert(record_views(records@) =~= records@.map_values(f));
        }
        let ghost views = record_views(records@);
        let mut out: Vec<u8> = Vec::new();
        let mut i: usize = 0;
        assert(records_bytes(views.take(0)) =~= out@);
        while i < records.len()
            invariant
                i <= records.len(),
                views == record_views(records@),
                out@ == records_bytes(views.take(i as int)),
            decreases records.len() - i,
        {
            proof {
                assert(views.take(i + 1).drop_last() =~= views.take(i as int));
                assert(views.take(i + 1).last() == records@[i as int]@);
            }
            push_record(&mut out, &records[i]);
            i = i + 1;
        }
        assert(views.take(i as int) =~= views);
        hex_hash(&out)
    }
}

/// Texts with slashes between them.
pub open spec fn with_slashes(parts: Seq<Seq<char>>) -> Seq<char>
    decreases parts.len(),
{
    if parts.len() == 0 {
        Seq::empty()
    } else if parts.len() == 1 {
        parts[0]
    } else {
        with_slashes(parts.drop_last()) + seq!['/'] + parts.last()
    }
}

/// The path by which a tree knows an entry: its parts with slashes between them.
pub fn normalize_hash_path(parts: &Vec<String>) -> (path: String)
    ensures
        path@ == with_slashes(protocol::texts(parts@)),
{
    let ghost all = protocol::texts(parts@);
    let mut path: String = String::new();
    let mut i: usize = 0;
    assert(path@ =~= with_slashes(all.take(0)));
    while i < parts.len()
        invariant
            i <= parts.len(),
            all == protocol::texts(parts@),
            path@ == with_slashes(all.take(i as int)),
        decreases parts.len() - i,
    {
        proof {
            assert(all.take(i + 1).drop_last() =~= all.take(i as int));
            assert(all.take(i + 1).last() == parts@[i as int]@);
            assert(all.take(i + 1)[0] == all[0]);
        }
        if i > 0 {
            path.push('/');
        }
        path.append(&parts[i]);
        i = i + 1;
        assert(path@ =~= with_slashes(all.take(i as int)));
    }
    assert(all.take(i as int) =~= all);
    path
}

/// Tells whether a further entry of a tree may be read.
pub fn check_hash_traversal(depth: usize, entry_count: usize) -> (result: Result<(), ClipboardError>)
    ensures
        match result {
            Ok(_) => depth <= MAX_ARCHIVE_DEPTH && entry_count < MAX_ARCHIVE_ENTRIES,
            Err(e) => (depth > MAX_ARCHIVE_DEPTH || entry_count >= MAX_ARCHIVE_ENTRIES) && e@
                == ErrorView::Backend("file fingerprint traversal limit exceeded"@),
        },
{
    if depth > MAX_ARCHIVE_DEPTH || entry_count >= MAX_ARCHIVE_ENTRIES {
        return Err(backend("file fingerprint traversal limit exceeded"));
    }
    Ok(())
}

/// No two records have one path and kind.
pub open spec fn distinct_records(s: Seq<RecordView>) -> bool {
    forall|i: int, j: int|
        0 <= i < j < s.len() ==> (#[trigger] s[i]).path != (#[trigger] s[j]).path
            || s[i].is_directory != s[j].is_directory
}

/// The hash of a tree does not depend on the order in which its entries are read:
/// the same entries have the same hash.
pub proof fn tree_hash_ignores_order(a: Seq<RecordView>, b: Seq<RecordView>)
    requires
        a.to_multiset() == b.to_multiset(),
        distinct_records(a),
    ensures
        tree_hash(a) == tree_hash(b),
{
    assert(order::is_ordering(by_path())) by {
        assert forall|x: RecordView, y: RecordView, z: RecordView|
            !#[trigger] by_path()(x, y) && !#[trigger] by_path()(y, z) implies !by_path()(x, z) by {
            text::text_order_is_total(x.path, y.path);
            text::text_order_is_total(y.path, z.path);
            text::text_order_is_total(x.path, z.path);
            if text::text_before(x.path, z.path) {
                if x.path != y.path && y.path != z.path {
                    text::text_order_is_transitive(z.path, y.path, x.path);
                }
            }
        }
        assert forall|x: RecordView, y: RecordView| #[trigger] by_path()(x, y) implies !by_path()(
            y,
            x,
        ) by {
            text::text_order_is_total(x.path, y.path);
        }
    }
    assert forall|x: RecordView, y: RecordView|
        a.contains(x) && a.contains(y) && x != y implies #[trigger] by_path()(x, y) || by_path()(
        y,
        x,
    ) by {
        text::text_order_is_total(x.path, y.path);
        let i = a.index_of(x);
        let j = a.index_of(y);
        if i < j {
            assert(a[i].path != a[j].path || a[i].is_directory != a[j].is_directory);
        } else {
            assert(a[j].path != a[i].path || a[j].is_directory != a[i].is_directory);
        }
    }
    order::sorted_ignores_order(a, b, by_path());
}

/// What stands for a record in the hash of a tree: its kind, its path, its size in eight bytes,
/// lowest first, and for a file the hash of its content, each with a zero behind it and the
/// whole with a byte of ones.
pub proof fn records_are_hashed_in_full(r: RecordView)
    ensures
        r.is_directory && r.content_hash is None ==> record_bytes(r) == encode_utf8("dir"@) + seq![0u8]
            + encode_utf8(r.path) + seq![0u8] + bytes::be64(r.size_bytes).reverse() + seq![0u8]
            + seq![0xffu8],
        !r.is_directory && r.content_hash is Some ==> record_bytes(r) == encode_utf8("file"@)
            + seq![0u8] + encode_utf8(r.path) + seq![0u8] + bytes::be64(r.size_bytes).reverse()
            + seq![0u8] + encode_utf8(r.content_hash->Some_0) + seq![0xffu8],
{
    if r.is_directory && r.content_hash is None {
        assert(record_bytes(r) =~= encode_utf8("dir"@) + seq![0u8] + encode_utf8(r.path) + seq![0u8]
            + bytes::be64(r.size_bytes).reverse() + seq![0u8] + seq![0xffu8]);
    }
}

proof fn reversed_numbers_differ(a: u64, b: u64)
    requires
        le64(a) == le64(b),
    ensures
        a == b,
{
    bytes::be64_is_read_back(a);
    bytes::be64_is_read_back(b);
    assert(bytes::be64(a) =~= bytes::be64(b)) by {
        assert forall|i: int| 0 <= i < 8 implies bytes::be64(a)[i] == bytes::be64(b)[i] by {
            assert(le64(a)[7 - i] == bytes::be64(a)[i]);
            assert(le64(b)[7 - i] == bytes::be64(b)[i]);
        }
    }
}

/// A file that has another content, or another size, stands for something else in the hash of
/// its tree; so does one at another path.
pub proof fn changed_files_have_other_records(
    path: Seq<char>,
    other_path: Seq<char>,
    sizes: (u64, u64),
    hashes: (Seq<char>, Seq<char>),
)
    requires
        encode_utf8(hashes.0).len() == encode_utf8(hashes.1).len(),
        encode_utf8(path).len() == encode_utf8(other_path).len(),
    ensures
        record_bytes(file_record(path, sizes.0, hashes.0)) == record_bytes(
            file_record(other_path, sizes.1, hashes.1),
        ) <==> path == other_path && sizes.0 == sizes.1 && hashes.0 == hashes.1,
        record_bytes(directory_record(path)) == record_bytes(directory_record(other_path)) <==> path
            == other_path,
{
    bytes::be64_is_read_back(sizes.0);
    bytes::be64_is_read_back(sizes.1);
    bytes::be64_is_read_back(0);
    let k = encode_utf8("file"@).len() as int;
    let p = encode_utf8(path).len() as int;
    let h = encode_utf8(hashes.0).len() as int;
    let a = record_bytes(file_record(path, sizes.0, hashes.0));
    let b = record_bytes(file_record(other_path, sizes.1, hashes.1));
    assert(a.subrange(k + 1, k + 1 + p) =~= encode_utf8(path));
    assert(b.subrange(k + 1, k + 1 + p) =~= encode_utf8(other_path));
    assert(a.subrange(k + p + 2, k + p + 10) =~= le64(sizes.0));
    assert(b.subrange(k + p + 2, k + p + 10) =~= le64(sizes.1));
    assert(a.subrange(k + p + 11, k + p + 11 + h) =~= encode_utf8(hashes.0));
    assert(b.subrange(k + p + 11, k + p + 11 + h) =~= encode_utf8(hashes.1));
    encode_utf8_decode_utf8(path);
    encode_utf8_decode_utf8(other_path);
    encode_utf8_decode_utf8(hashes.0);
    encode_utf8_decode_utf8(hashes.1);
    if a == b {
        reversed_numbers_differ(sizes.0, sizes.1);
    }
    let d = encode_utf8("dir"@).len() as int;
    let x = record_bytes(directory_record(path));
    let y = record_bytes(directory_record(other_path));
    assert(x.subrange(d + 1, d + 1 + p) =~= encode_utf8(path));
    assert(y.subrange(d + 1, d + 1 + p) =~= encode_utf8(other_path));
}

proof fn ordered_records_stay(s: Seq<RecordView>)
    requires
        order::is_in_order(s, by_path()),
    ensures
        order::sorted(s, by_path()) == s,
    decreases s.len(),
{
    if s.len() > 0 {
        let front = s.drop_last();
        assert(order::is_in_order(front, by_path())) by {
            assert forall|i: int, j: int| 0 <= i < j < front.len() implies !by_path()(
                #[trigger] front[j],
                #[trigger] front[i],
            ) by {
                assert(!by_path()(s[j], s[i]));
            }
        }
        ordered_records_stay(front);
        if front.len() > 0 {
            assert(!by_path()(s[s.len() - 1], s[s.len() - 2]));
        }
        assert(front.push(s.last()) =~= s);
    }
}

/// The hash of a tree is that of all its records, one after the other, by path, a directory
/// before a file; none is left out.
pub proof fn trees_are_hashed_record_by_record(s: Seq<RecordView>, r: RecordView)
    requires
        order::is_in_order(s.push(r), by_path()),
    ensures
        tree_hash(s.push(r)) == bytes::hex_text(
            primitives::sha256(records_bytes(s) + record_bytes(r)),
        ),
        records_bytes(Seq::empty()) == Seq::<u8>::empty(),
{
    ordered_records_stay(s.push(r));
    assert(s.push(r).drop_last() =~= s);
}

/// Records are ordered by their paths, as texts are; at one path a directory comes first.
pub proof fn records_are_ordered_by_path(a: RecordView, b: RecordView)
    ensures
        text::text_before(a.path, b.path) ==> by_path()(a, b) && !by_path()(b, a),
        a.path == b.path && a.is_directory && !b.is_directory ==> by_path()(a, b) && !by_path()(b, a),
        !by_path()(a, a),
{
    text::text_order_is_total(a.path, b.path);
    text::text_order_is_total(a.path, a.path);
}

/// Texts with slashes between them go on with a slash and the next text.
pub proof fn slashes_stand_between(parts: Seq<Seq<char>>, last: Seq<char>)
    ensures
        with_slashes(seq![last]) == last,
        parts.len() > 0 ==> with_slashes(parts.push(last)) == with_slashes(parts) + seq!['/'] + last,
{
    assert(parts.push(last).drop_last() =~= parts);
}

} // verus!
