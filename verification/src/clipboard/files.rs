//! Files as a content: how large their archive gets, and which archives are unpacked.

use crate::clipboard::fingerprint;
use crate::clipboard::fingerprint::ContentHash;
use crate::clipboard::path_policy;
use crate::clipboard::path_policy::{
    validate_archive_path, validate_top_level_names, EntryKind, MAX_ARCHIVE_DEPTH,
    MAX_ARCHIVE_ENTRIES,
};
use crate::clipboard::types::{backend, check_size, ClipboardError, ErrorView};
use crate::protocol;
use crate::protocol::{clone_texts, ClipboardPayload, PayloadView};
use crate::text;
use crate::text::{byte_len, chars_of, lowercase, same_text, text_of};
use vstd::prelude::*;
use vstd::utf8::*;

verus! {

/// How many bytes a header of an archive keeps for the name.
pub const HEADER_NAME_BYTES: usize = 100;

/// How many bytes end an archive.
pub const ARCHIVE_END_BYTES: u64 = 1024;

/// The names in a path from place `from` on.
pub open spec fn path_names(s: Seq<char>, from: int) -> Seq<Seq<char>>
    decreases s.len() + 1 - from,
{
    if from < 0 || from >= s.len() {
        Seq::empty()
    } else {
        proof {
            path_policy::slash_is_ahead(s, from);
        }
        let end = path_policy::next_slash(s, from);
        let rest = path_names(s, end + 1);
        match path_policy::part_of(s.subrange(from, end), from == 0) {
            Some(path_policy::PathPart::Name(name)) => seq![name] + rest,
            _ => rest,
        }
    }
}

/// What a header holds for a path: its names with slashes between them, and a slash
/// at the end where the path has one.
pub open spec fn header_name(path: Seq<char>) -> Seq<char> {
    let names = fingerprint::with_slashes(path_names(path, 0));
    if path.last() == '/' {
        names.push('/')
    } else {
        names
    }
}

/// Tells whether a header can hold a path: `tar::Header::set_path` succeeds on a new
/// GNU header exactly if the names of a relative path without parent parts, joined by
/// slashes, take no more than the bytes of the name field.
#[verifier::external_body]
pub(crate) fn fits_header(path: &str) -> (fits: bool)
    requires
        path_policy::archive_path_error(path@) is None,
    ensures
        fits == (encode_utf8(header_name(path@)).len() <= HEADER_NAME_BYTES),
{
    tar::Header::new_gnu().set_path(path).is_ok()
}

/// A number of bytes, filled up to whole blocks.
pub open spec fn in_blocks(n: int) -> int {
    if n % 512 == 0 {
        n
    } else {
        n - n % 512 + 512
    }
}

/// How many bytes hold a name that does not fit into a header.
pub open spec fn long_name_bytes(path: Seq<char>) -> int {
    if encode_utf8(header_name(path)).len() <= HEADER_NAME_BYTES {
        0
    } else {
        512 + in_blocks(encode_utf8(path).len() as int + 1)
    }
}

/// How many bytes an entry takes in an archive.
pub open spec fn entry_bytes(path: Seq<char>, content_bytes: u64) -> int {
    512 + in_blocks(content_bytes as int) + long_name_bytes(path)
}

fn checked_blocks(n: u64) -> (bytes: Option<u64>)
    ensures
        match bytes {
            Some(b) => b == in_blocks(n as int),
            None => in_blocks(n as int) > u64::MAX,
        },
{
    if n % 512 == 0 {
        Some(n)
    } else {
        (n - n % 512).checked_add(512)
    }
}

/// Adds the bytes of an entry to a total.
pub fn add_archive_entry_size(total: &mut u64, path: &str, content_bytes: u64) -> (result: Result<
    (),
    ClipboardError,
>)
    requires
        path_policy::archive_path_error(path@) is None,
    ensures
        match result {
            Ok(_) => *final(total) == *old(total) + entry_bytes(path@, content_bytes),
            Err(e) => *old(total) + entry_bytes(path@, content_bytes) > u64::MAX && *final(total)
                == *old(total) && e@ == ErrorView::Backend("archive size overflow"@),
        },
{
    let name_bytes: u64 = if fits_header(path) {
        0
    } else {
        let length: u64 = byte_len(path) as u64 + 1;
        match checked_blocks(length) {
            Some(n) => 512 + n,
            None => return Err(backend("archive size overflow")),
        }
    };
    let content: u64 = match checked_blocks(content_bytes) {
        Some(n) => n,
        None => return Err(backend("archive size overflow")),
    };
    let entry: u64 = match content.checked_add(512 + name_bytes) {
        Some(n) => n,
        None => return Err(backend("archive size overflow")),
    };
    match total.checked_add(entry) {
        Some(n) => {
            *total = n;
            Ok(())
        },
        None => Err(backend("archive size overflow")),
    }
}

/// The size of an archive, while the files that go into it are visited.
pub struct ArchiveEstimate {
    pub total: u64,
    pub entry_count: usize,
    /// The entries that were added: their paths and the sizes of their contents.
    pub entries: Ghost<Seq<(Seq<char>, u64)>>,
}

/// Tells whether one more file may be visited.
pub fn check_archive_traversal(depth: usize, entry_count: usize) -> (result: Result<
    (),
    ClipboardError,
>)
    ensures
        match result {
            Ok(_) => depth <= MAX_ARCHIVE_DEPTH && entry_count < MAX_ARCHIVE_ENTRIES,
            Err(e) => (depth > MAX_ARCHIVE_DEPTH || entry_count >= MAX_ARCHIVE_ENTRIES) && e@
                == ErrorView::Backend("file bundle traversal limit exceeded"@),
        },
{
    if depth > MAX_ARCHIVE_DEPTH || entry_count >= MAX_ARCHIVE_ENTRIES {
        return Err(backend("file bundle traversal limit exceeded"));
    }
    Ok(())
}

/// Tells whether an entry of the file system can be put into an archive.
pub fn check_source_kind(kind: EntryKind) -> (result: Result<(), ClipboardError>)
    ensures
        match result {
            Ok(_) => kind == EntryKind::Directory || kind == EntryKind::File,
            Err(e) => kind != EntryKind::Directory && kind != EntryKind::File && e@
                == ErrorView::Backend("special filesystem entries are not transferred"@),
        },
{
    match kind {
        EntryKind::Directory => Ok(()),
        EntryKind::File => Ok(()),
        _ => Err(backend("special filesystem entries are not transferred")),
    }
}

impl ArchiveEstimate {
    /// The total is the size of an archive of the entries.
    pub open spec fn wf(self) -> bool {
        self.total == archive_sum(self.entries@)
    }

    /// An archive without entries.
    pub fn new() -> (estimate: Self)
        ensures
            estimate.wf(),
            estimate.total == ARCHIVE_END_BYTES,
            estimate.entry_count == 0,
            estimate.entries@.len() == 0,
    {
        ArchiveEstimate { total: ARCHIVE_END_BYTES, entry_count: 0, entries: Ghost(Seq::empty()) }
    }

    /// Adds an entry; only a file has content.
    pub fn add_entry(&mut self, path: &str, kind: EntryKind, file_bytes: u64) -> (result: Result<
        (),
        ClipboardError,
    >)
        requires
            old(self).wf(),
            old(self).entry_count < MAX_ARCHIVE_ENTRIES,
        ensures
            final(self).wf(),
            final(self).entry_count == old(self).entry_count + 1,
            ({
                let content = content_bytes(kind, file_bytes);
                match result {
                    Ok(_) => path_policy::archive_path_error(path@) is None && final(self).entries@
                        == old(self).entries@.push((path@, content)),
                    Err(e) => final(self).entries@ == old(self).entries@ && (
                    if path_policy::archive_path_error(path@) is Some {
                        path_policy::archive_path_error(path@) == Some(e@)
                    } else {
                        old(self).total + entry_bytes(path@, content) > u64::MAX && e@
                            == ErrorView::Backend("archive size overflow"@)
                    }),
                }
            }),
    {
        self.entry_count = self.entry_count + 1;
        if let Err(e) = validate_archive_path(path) {
            return Err(e);
        }
        let content: u64 = if kind == EntryKind::File {
            file_bytes
        } else {
            0
        };
        match add_archive_entry_size(&mut self.total, path, content) {
            Ok(_) => {
                proof {
                    estimates_add_up(self.entries@, path@, kind, file_bytes);
                }
                self.entries = Ghost(self.entries@.push((path@, content)));
                Ok(())
            },
            Err(e) => Err(e),
        }
    }
}

/// The size of the content that an entry has in an archive: only a file has content.
pub open spec fn content_bytes(kind: EntryKind, file_bytes: u64) -> u64 {
    if kind == EntryKind::File {
        file_bytes
    } else {
        0
    }
}

/// An estimate grows by what an entry takes: with one more entry, the size of the archive is
/// the size before and that of the entry.
pub proof fn estimates_add_up(
    entries: Seq<(Seq<char>, u64)>,
    path: Seq<char>,
    kind: EntryKind,
    file_bytes: u64,
)
    ensures
        archive_sum(entries.push((path, content_bytes(kind, file_bytes)))) == archive_sum(entries)
            + entry_bytes(path, content_bytes(kind, file_bytes)),
{
    assert(entries.push((path, content_bytes(kind, file_bytes))).drop_last() =~= entries);
}

/// The path of a file in a directory of the archive.
pub fn join_portable_archive_path(parent: &str, child_name: &str) -> (result: Result<
    String,
    ClipboardError,
>)
    ensures
        match result {
            Ok(path) => path_policy::archive_path_error(child_name@) is None && path@ == parent@
                + seq!['/'] + child_name@,
            Err(e) => path_policy::archive_path_error(child_name@) == Some(e@),
        },
{
    if let Err(e) = validate_archive_path(child_name) {
        return Err(e);
    }
    let mut path: String = parent.to_owned();
    path.push('/');
    path.append(child_name);
    assert(path@ =~= parent@ + seq!['/'] + child_name@);
    Ok(path)
}

/// What is wrong with copied files as a content, if anything.
pub open spec fn file_list_error(
    names: Seq<Seq<char>>,
    size_bytes: u64,
    limit_bytes: u64,
) -> Option<ErrorView> {
    if path_policy::names_error(names) is Some {
        path_policy::names_error(names)
    } else if size_bytes > limit_bytes {
        Some(ErrorView::TooLarge(size_bytes, limit_bytes))
    } else {
        None
    }
}

/// The content that copied files make, given their names and the size of their
/// archive.
pub fn encode_file_bundle_payload(
    paths: Vec<String>,
    top_level_names: Vec<String>,
    size_bytes: u64,
    limit_bytes: u64,
) -> (result: Result<ClipboardPayload, ClipboardError>)
    ensures
        match result {
            Ok(payload) => file_list_error(
                protocol::texts(top_level_names@),
                size_bytes,
                limit_bytes,
            ) is None && payload@ == PayloadView::FileList(
                protocol::texts(paths@),
                protocol::texts(top_level_names@),
                size_bytes,
            ),
            Err(e) => file_list_error(protocol::texts(top_level_names@), size_bytes, limit_bytes)
                == Some(e@),
        },
{
    if let Err(e) = validate_top_level_names(&top_level_names) {
        return Err(e);
    }
    if let Err(e) = check_size(size_bytes, limit_bytes) {
        return Err(e);
    }
    Ok(
        ClipboardPayload::FileList {
            paths,
            top_level_names,
            estimated_archive_bytes: size_bytes,
        },
    )
}

/// A file that is read to exactly the length that it had when it was opened.
pub struct ExactFile {
    pub remaining: u64,
    pub content: ContentHash,
}

impl ExactFile {
    /// A file of a given length.
    pub fn new(expected_bytes: u64) -> (file: Self)
        ensures
            file.remaining == expected_bytes,
            file.content@ == Seq::<u8>::empty(),
    {
        ExactFile { remaining: expected_bytes, content: ContentHash::new() }
    }

    /// How many bytes to read next.
    pub fn next_read(&self, room: usize) -> (limit: usize)
        ensures
            limit as int == if self.remaining < room {
                self.remaining as int
            } else {
                room as int
            },
    {
        if self.remaining < room as u64 {
            self.remaining as usize
        } else {
            room
        }
    }

    /// Takes note of what was read; a file that has become shorter is refused.
    pub fn note_read(&mut self, part: &[u8]) -> (result: Result<(), ClipboardError>)
        ensures
            match result {
                Ok(_) => {
                    &&& part@.len() > 0
                    &&& final(self).content@ == old(self).content@ + part@
                    &&& final(self).remaining as int == if part@.len() <= old(self).remaining {
                        old(self).remaining - part@.len()
                    } else {
                        0
                    }
                },
                Err(e) => part@.len() == 0 && *final(self) == *old(self) && e@
                    == ErrorView::Backend(
                    "clipboard file changed while it was being archived"@,
                ),
            },
    {
        if part.len() == 0 {
            return Err(backend("clipboard file changed while it was being archived"));
        }
        self.remaining = self.remaining.saturating_sub(part.len() as u64);
        self.content.push(part);
        Ok(())
    }

    /// Hands out the content, if all of the file was read.
    pub fn finish(self) -> (result: Result<ContentHash, ClipboardError>)
        ensures
            match result {
                Ok(content) => self.remaining == 0 && content@ == self.content@,
                Err(e) => self.remaining != 0 && e@ == ErrorView::Backend(
                    "clipboard file changed while it was being archived"@,
                ),
            },
    {
        if self.remaining != 0 {
            return Err(backend("clipboard file changed while it was being archived"));
        }
        Ok(self.content)
    }
}

/// The mark of a file in an archive.
pub const FILE_TYPE_FLAG: u8 = 0x30;

/// The mark of a directory in an archive.
pub const DIRECTORY_TYPE_FLAG: u8 = 0x35;

/// What an archive says of an entry beside its path. Nothing of it depends on the machine
/// that the files are on.
#[derive(Debug, Clone, Copy, PartialEq, Eq, Structural)]
pub struct PortableEntry {
    pub type_flag: u8,
    pub mode: u32,
    pub uid: u64,
    pub gid: u64,
    pub mtime: u64,
    pub size_bytes: u64,
}

/// What an archive says of a directory or file; only a file has content.
pub open spec fn portable_of(is_directory: bool, file_bytes: u64) -> PortableEntry {
    PortableEntry {
        type_flag: if is_directory {
            DIRECTORY_TYPE_FLAG
        } else {
            FILE_TYPE_FLAG
        },
        mode: if is_directory {
            0o755
        } else {
            0o644
        },
        uid: 0,
        gid: 0,
        mtime: 0,
        size_bytes: if is_directory {
            0
        } else {
            file_bytes
        },
    }
}

/// What an archive says of a directory or file; only a file has content.
pub fn portable_entry(kind: EntryKind, file_bytes: u64) -> (entry: PortableEntry)
    requires
        kind == EntryKind::Directory || kind == EntryKind::File,
    ensures
        entry == portable_of(kind == EntryKind::Directory, file_bytes),
{
    if kind == EntryKind::Directory {
        PortableEntry {
            type_flag: DIRECTORY_TYPE_FLAG,
            mode: 0o755,
            uid: 0,
            gid: 0,
            mtime: 0,
            size_bytes: 0,
        }
    } else {
        PortableEntry {
            type_flag: FILE_TYPE_FLAG,
            mode: 0o644,
            uid: 0,
            gid: 0,
            mtime: 0,
            size_bytes: file_bytes,
        }
    }
}

/// The permissions of what was unpacked: nobody but its owner may use it.
pub fn extracted_mode(is_directory: bool) -> (mode: u32)
    ensures
        mode == if is_directory {
            0o700u32
        } else {
            0o600u32
        },
{
    if is_directory {
        0o700
    } else {
        0o600
    }
}

/// The bundle directory that a content holds, if it holds one.
pub fn received_bundle(payload: &ClipboardPayload) -> (dir: Option<String>)
    ensures
        match dir {
            Some(d) => payload@ is FileBundleDir && d@ == payload@->FileBundleDir_0,
            None => !(payload@ is FileBundleDir),
        },
{
    match payload {
        ClipboardPayload::FileBundleDir { bundle_dir, .. } => Some(bundle_dir.clone()),
        _ => None,
    }
}

/// All of the first `n` are true, and there are that many.
pub open spec fn all_true(flags: Seq<bool>, n: int) -> bool {
    forall|i: int| 0 <= i < n ==> i < flags.len() && #[trigger] flags[i]
}

/// Tells whether a content was put into the clipboard by this application: it is a
/// list of files, and every one of them lies in the receive directory.
pub fn is_internal_file_payload(payload: &ClipboardPayload, inside: &Vec<bool>) -> (internal: bool)
    ensures
        internal == match payload@ {
            PayloadView::FileList(paths, _, _) => paths.len() > 0 && all_true(
                inside@,
                paths.len() as int,
            ),
            _ => false,
        },
{
    match payload {
        ClipboardPayload::FileList { paths, .. } => {
            if paths.len() == 0 {
                return false;
            }
            let mut i: usize = 0;
            while i < paths.len()
                invariant
                    i <= paths.len(),
                    payload@ is FileList,
                    payload@->FileList_0.len() == paths.len(),
                    all_true(inside@, i as int),
                decreases paths.len() - i,
            {
                if i >= inside.len() || !inside[i] {
                    assert(!all_true(inside@, paths.len() as int)) by {
                        if all_true(inside@, paths.len() as int) {
                            assert(inside@[i as int]);
                        }
                    }
                    return false;
                }
                i = i + 1;
            }
            true
        },
        _ => false,
    }
}

/// Tells whether a received bundle may be put into the clipboard.
pub fn check_bundle_is_managed(is_internal: bool) -> (result: Result<(), ClipboardError>)
    ensures
        match result {
            Ok(_) => is_internal,
            Err(e) => !is_internal && e@ == ErrorView::Backend(
                "file bundle directory is outside the managed receive root"@,
            ),
        },
{
    if !is_internal {
        return Err(backend("file bundle directory is outside the managed receive root"));
    }
    Ok(())
}

/// An archive that is being unpacked.
#[derive(Debug)]
pub struct ArchiveUnpack {
    pub expected: Vec<String>,
    pub observed_top_level: Vec<String>,
    pub observed_paths: Vec<String>,
    pub extracted_bytes: u64,
    pub max_extracted_bytes: u64,
}

/// An archive that is being unpacked, as plain values.
#[verifier::ext_equal]
pub struct UnpackView {
    /// The names that were announced.
    pub expected: Seq<Seq<char>>,
    /// The first names of the entries so far.
    pub observed_top_level: Seq<Seq<char>>,
    /// The paths so far, in lower case.
    pub observed_paths: Seq<Seq<char>>,
    pub extracted_bytes: u64,
    pub max_extracted_bytes: u64,
}

impl View for ArchiveUnpack {
    type V = UnpackView;

    open spec fn view(&self) -> UnpackView {
        UnpackView {
            expected: protocol::texts(self.expected@),
            observed_top_level: protocol::texts(self.observed_top_level@),
            observed_paths: protocol::texts(self.observed_paths@),
            extracted_bytes: self.extracted_bytes,
            max_extracted_bytes: self.max_extracted_bytes,
        }
    }
}

/// The first name of a path.
pub open spec fn top_level_of(path: Seq<char>) -> Seq<char> {
    path.take(path_policy::next_slash(path, 0))
}

/// The sum of two sizes, as large as can be stated.
pub open spec fn capped_sum(a: u64, b: u64) -> u64 {
    if a + b > u64::MAX {
        u64::MAX
    } else {
        (a + b) as u64
    }
}

/// Why an entry of an archive is refused, if it is.
pub open spec fn entry_error(
    v: UnpackView,
    path: Seq<char>,
    kind: EntryKind,
    size_bytes: u64,
) -> Option<ErrorView> {
    if v.observed_paths.len() >= MAX_ARCHIVE_ENTRIES {
        Some(ErrorView::Backend("archive entry count exceeds limit"@))
    } else if path_policy::archive_path_error(path) is Some {
        path_policy::archive_path_error(path)
    } else if v.observed_paths.contains(text::lowered(path)) {
        Some(ErrorView::Backend("archive contains a duplicate path"@))
    } else if !v.expected.contains(top_level_of(path)) {
        Some(ErrorView::Backend("archive contains an undeclared top-level entry"@))
    } else if kind != EntryKind::File && kind != EntryKind::Directory {
        Some(ErrorView::Backend("archive links and special files are not allowed"@))
    } else if capped_sum(v.extracted_bytes, size_bytes) > v.max_extracted_bytes {
        Some(
            ErrorView::TooLarge(capped_sum(v.extracted_bytes, size_bytes), v.max_extracted_bytes),
        )
    } else {
        None
    }
}

/// An archive after an entry was accepted.
pub open spec fn with_entry(v: UnpackView, path: Seq<char>, size_bytes: u64) -> UnpackView {
    UnpackView {
        observed_top_level: v.observed_top_level.push(top_level_of(path)),
        observed_paths: v.observed_paths.push(text::lowered(path)),
        extracted_bytes: capped_sum(v.extracted_bytes, size_bytes),
        ..v
    }
}

/// What holds of every archive while it is unpacked: what came was announced, came
/// once, and is no more than allowed.
pub open spec fn is_sound(v: UnpackView) -> bool {
    &&& path_policy::names_error(v.expected) is None
    &&& v.observed_paths.len() <= MAX_ARCHIVE_ENTRIES
    &&& v.observed_paths.no_duplicates()
    &&& v.extracted_bytes <= v.max_extracted_bytes
    &&& forall|i: int|
        0 <= i < v.observed_top_level.len() ==> v.expected.contains(
            #[trigger] v.observed_top_level[i],
        )
}

/// Every announced name came.
pub open spec fn is_complete(v: UnpackView) -> bool {
    forall|i: int|
        0 <= i < v.expected.len() ==> v.observed_top_level.contains(#[trigger] v.expected[i])
}

fn lists_text(list: &Vec<String>, s: &str) -> (found: bool)
    ensures
        found == protocol::texts(list@).contains(s@),
{
    let ghost all = protocol::texts(list@);
    let mut i: usize = 0;
    while i < list.len()
        invariant
            i <= list.len(),
            all == protocol::texts(list@),
            forall|j: int| 0 <= j < i ==> all[j] != s@,
        decreases list.len() - i,
    {
        assert(all[i as int] == list@[i as int]@);
        if same_text(&list[i], s) {
            return true;
        }
        i = i + 1;
    }
    false
}

fn first_name(path: &str) -> (name: String)
    ensures
        name@ == top_level_of(path@),
{
    let chars = chars_of(path);
    let mut end: usize = 0;
    while end < chars.len() && chars[end] != '/'
        invariant
            end <= chars.len(),
            chars@ == path@,
            path_policy::next_slash(path@, 0) == path_policy::next_slash(path@, end as int),
        decreases chars.len() - end,
    {
        end = end + 1;
    }
    let name = text_of(&chars, 0, end);
    assert(name@ =~= top_level_of(path@));
    name
}

impl ArchiveUnpack {
    /// Starts on an archive with announced names.
    pub fn new(expected_top_level_names: &Vec<String>, max_extracted_bytes: u64) -> (result: Result<
        Self,
        ClipboardError,
    >)
        ensures
            match result {
                Ok(unpack) => path_policy::names_error(protocol::texts(expected_top_level_names@))
                    is None && is_sound(unpack@) && unpack@ == (UnpackView {
                    expected: protocol::texts(expected_top_level_names@),
                    observed_top_level: Seq::empty(),
                    observed_paths: Seq::empty(),
                    extracted_bytes: 0,
                    max_extracted_bytes,
                }),
                Err(e) => path_policy::names_error(protocol::texts(expected_top_level_names@))
                    == Some(e@),
            },
    {
        if let Err(e) = validate_top_level_names(expected_top_level_names) {
            return Err(e);
        }
        let unpack = ArchiveUnpack {
            expected: clone_texts(expected_top_level_names),
            observed_top_level: Vec::new(),
            observed_paths: Vec::new(),
            extracted_bytes: 0,
            max_extracted_bytes,
        };
        assert(unpack@.observed_top_level =~= Seq::empty());
        assert(unpack@.observed_paths =~= Seq::empty());
        Ok(unpack)
    }

    /// Decides whether an entry is unpacked.
    pub fn next_entry(&mut self, path: &str, kind: EntryKind, size_bytes: u64) -> (result: Result<
        (),
        ClipboardError,
    >)
        requires
            is_sound(old(self)@),
        ensures
            is_sound(final(self)@),
            match result {
                Ok(_) => entry_error(old(self)@, path@, kind, size_bytes) is None && final(self)@
                    == with_entry(old(self)@, path@, size_bytes),
                Err(e) => entry_error(old(self)@, path@, kind, size_bytes) == Some(e@)
                    && final(self)@ == old(self)@,
            },
    {
        let ghost before = self@;
        if self.observed_paths.len() >= MAX_ARCHIVE_ENTRIES {
            return Err(backend("archive entry count exceeds limit"));
        }
        if let Err(e) = validate_archive_path(path) {
            return Err(e);
        }
        let normalized = lowercase(path);
        if lists_text(&self.observed_paths, &normalized) {
            return Err(backend("archive contains a duplicate path"));
        }
        let top_level = first_name(path);
        if !lists_text(&self.expected, &top_level) {
            return Err(backend("archive contains an undeclared top-level entry"));
        }
        if kind != EntryKind::File && kind != EntryKind::Directory {
            return Err(backend("archive links and special files are not allowed"));
        }
        let extracted: u64 = self.extracted_bytes.saturating_add(size_bytes);
        if let Err(e) = check_size(extracted, self.max_extracted_bytes) {
            return Err(e);
        }
        self.observed_top_level.push(top_level);
        self.observed_paths.push(normalized);
        self.extracted_bytes = extracted;
        proof {
            let after = with_entry(before, path@, size_bytes);
            assert(self@.observed_top_level =~= after.observed_top_level);
            assert(self@.observed_paths =~= after.observed_paths);
        }
        Ok(())
    }

    /// Tells whether everything that was announced came.
    pub fn finish(&self) -> (result: Result<(), ClipboardError>)
        ensures
            match result {
                Ok(_) => is_complete(self@),
                Err(e) => !is_complete(self@) && e@ == ErrorView::Backend(
                    "archive is missing a declared top-level entry"@,
                ),
            },
    {
        let mut i: usize = 0;
        while i < self.expected.len()
            invariant
                i <= self.expected.len(),
                forall|j: int|
                    0 <= j < i ==> self@.observed_top_level.contains(#[trigger] self@.expected[j]),
            decreases self.expected.len() - i,
        {
            assert(self@.expected[i as int] == self.expected@[i as int]@);
            if !lists_text(&self.observed_top_level, &self.expected[i]) {
                return Err(backend("archive is missing a declared top-level entry"));
            }
            i = i + 1;
        }
        Ok(())
    }
}

/// The content of all entries of an archive, each given by its path and size.
pub open spec fn content_sum(entries: Seq<(Seq<char>, u64)>) -> int
    decreases entries.len(),
{
    if entries.len() == 0 {
        0
    } else {
        content_sum(entries.drop_last()) + entries.last().1
    }
}

/// The size of an archive with given entries.
pub open spec fn archive_sum(entries: Seq<(Seq<char>, u64)>) -> int
    decreases entries.len(),
{
    if entries.len() == 0 {
        ARCHIVE_END_BYTES as int
    } else {
        archive_sum(entries.drop_last()) + entry_bytes(entries.last().0, entries.last().1)
    }
}

/// An archive is larger than all of its content.
pub proof fn archive_covers_its_content(entries: Seq<(Seq<char>, u64)>)
    ensures
        content_sum(entries) < archive_sum(entries),
    decreases entries.len(),
{
    if entries.len() > 0 {
        archive_covers_its_content(entries.drop_last());
    }
}

/// No entry of an archive whose size is within the limit is refused for its size.
pub proof fn archives_within_the_limit_are_unpacked(
    v: UnpackView,
    before: Seq<(Seq<char>, u64)>,
    path: Seq<char>,
    kind: EntryKind,
    size_bytes: u64,
)
    requires
        v.extracted_bytes == content_sum(before),
        archive_sum(before.push((path, size_bytes))) <= v.max_extracted_bytes,
    ensures
        !(entry_error(v, path, kind, size_bytes) matches Some(ErrorView::TooLarge(_, _))) || (
        path_policy::archive_path_error(path) matches Some(ErrorView::TooLarge(_, _))),
        with_entry(v, path, size_bytes).extracted_bytes == content_sum(
            before.push((path, size_bytes)),
        ),
{
    let all = before.push((path, size_bytes));
    archive_covers_its_content(all);
    assert(all.drop_last() =~= before);
}

/// An entry that was accepted is not accepted again, under whatever case its path is
/// written in.
pub proof fn entries_are_unpacked_once(
    v: UnpackView,
    path: Seq<char>,
    again: Seq<char>,
    kind: EntryKind,
    size_bytes: u64,
    size_again: u64,
)
    requires
        entry_error(v, path, kind, size_bytes) is None,
        text::lowered(again) == text::lowered(path),
    ensures
        entry_error(with_entry(v, path, size_bytes), again, kind, size_again) is Some,
{
    let after = with_entry(v, path, size_bytes);
    assert(after.observed_paths.last() == text::lowered(path));
    assert(after.observed_paths.contains(text::lowered(again)));
}

/// Entries of an archive whose paths differ in the case of ASCII letters alone are the same
/// entry: only the first of them is unpacked.
pub proof fn entries_are_unpacked_once_in_any_case(
    v: UnpackView,
    path: Seq<char>,
    again: Seq<char>,
    kind: EntryKind,
    size_bytes: u64,
    size_again: u64,
)
    requires
        text::is_ascii_text(path),
        text::ascii_lowered(again) == text::ascii_lowered(path),
        entry_error(v, path, kind, size_bytes) is None,
    ensures
        entry_error(with_entry(v, path, size_bytes), again, kind, size_again) is Some,
{
    text::case_of_ascii_does_not_matter(path, again);
    entries_are_unpacked_once(v, path, again, kind, size_bytes, size_again);
}

/// Copied files are a content exactly if their names travel together and their archive is
/// within the limit.
pub proof fn files_within_the_limit_are_a_content(
    names: Seq<Seq<char>>,
    size_bytes: u64,
    limit_bytes: u64,
)
    requires
        path_policy::names_error(names) is None,
    ensures
        size_bytes <= limit_bytes ==> file_list_error(names, size_bytes, limit_bytes) is None,
        size_bytes > limit_bytes ==> file_list_error(names, size_bytes, limit_bytes) == Some(
            ErrorView::TooLarge(size_bytes, limit_bytes),
        ),
{
}

/// A file or directory with a portable path is unpacked exactly if it belongs to what was
/// announced, came for the first time, and neither the bytes nor the entries get too many: no
/// more than 20000 entries, and no more bytes than allowed.
pub proof fn announced_entries_are_unpacked(
    v: UnpackView,
    path: Seq<char>,
    kind: EntryKind,
    size_bytes: u64,
)
    requires
        path_policy::archive_path_error(path) is None,
    ensures
        entry_error(v, path, kind, size_bytes) is None <==> {
            &&& v.observed_paths.len() < 20_000
            &&& !v.observed_paths.contains(text::lowered(path))
            &&& v.expected.contains(top_level_of(path))
            &&& kind == EntryKind::File || kind == EntryKind::Directory
            &&& v.extracted_bytes + size_bytes <= v.max_extracted_bytes || (v.max_extracted_bytes
                == u64::MAX)
        },
{
}

/// What is unpacked is noted: its path, its first name and its bytes, and nothing else changes.
pub proof fn unpacked_entries_are_noted(v: UnpackView, path: Seq<char>, size_bytes: u64)
    ensures
        ({
            let after = with_entry(v, path, size_bytes);
            &&& after.observed_paths == v.observed_paths.push(text::lowered(path))
            &&& after.observed_top_level == v.observed_top_level.push(top_level_of(path))
            &&& v.extracted_bytes + size_bytes <= u64::MAX ==> after.extracted_bytes
                == v.extracted_bytes + size_bytes
            &&& after.expected == v.expected
            &&& after.max_extracted_bytes == v.max_extracted_bytes
        }),
{
}

proof fn slashes_are_found(s: Seq<char>, from: int, to: int)
    requires
        0 <= from <= to <= s.len(),
        forall|i: int| from <= i < to ==> #[trigger] s[i] != '/',
        to < s.len() ==> s[to] == '/',
    ensures
        path_policy::next_slash(s, from) == to,
    decreases to - from,
{
    if from < to {
        assert(s[from] != '/');
        slashes_are_found(s, from + 1, to);
    }
}

/// An entry belongs to the name that its path starts with, up to the first slash.
pub proof fn entries_belong_to_their_first_name(name: Seq<char>, rest: Seq<char>)
    requires
        forall|i: int| 0 <= i < name.len() ==> #[trigger] name[i] != '/',
    ensures
        top_level_of(name) == name,
        top_level_of(name + seq!['/'] + rest) == name,
{
    slashes_are_found(name, 0, name.len() as int);
    assert(name.take(name.len() as int) =~= name);
    let path = name + seq!['/'] + rest;
    assert forall|i: int| 0 <= i < name.len() implies #[trigger] path[i] != '/' by {
        assert(path[i] == name[i]);
    }
    assert(path[name.len() as int] == '/');
    slashes_are_found(path, 0, name.len() as int);
    assert(path.take(name.len() as int) =~= name);
}

/// An archive is complete exactly if each announced name came at least once.
pub proof fn archives_are_complete_with_every_name(v: UnpackView, i: int)
    requires
        0 <= i < v.expected.len(),
    ensures
        !v.observed_top_level.contains(v.expected[i]) ==> !is_complete(v),
        (forall|k: int|
            0 <= k < v.expected.len() ==> v.observed_top_level.contains(#[trigger] v.expected[k]))
            ==> is_complete(v),
{
}

/// Contents are filled up to the next whole block of 512 bytes, and whole blocks stay as they
/// are. An entry takes one more block for its header.
pub proof fn contents_are_filled_up_to_blocks(path: Seq<char>, content_bytes: u64)
    ensures
        ({
            let n = in_blocks(content_bytes as int);
            &&& content_bytes <= n < content_bytes + 512
            &&& n % 512 == 0
        }),
        encode_utf8(header_name(path)).len() <= 100 ==> entry_bytes(path, content_bytes) == 512
            + in_blocks(content_bytes as int),
        encode_utf8(header_name(path)).len() > 100 ==> entry_bytes(path, content_bytes) == 1024
            + in_blocks(content_bytes as int) + in_blocks(encode_utf8(path).len() as int + 1),
        archive_sum(Seq::empty()) == 1024,
{
}

/// An archive tells of an entry whether it is a directory, and of a file its size; owner, time
/// and mode are the same for all.
pub proof fn archives_hold_nothing_of_the_machine(is_directory: bool, file_bytes: u64)
    ensures
        ({
            let e = portable_of(is_directory, file_bytes);
            &&& e.type_flag == (if is_directory { 0x35u8 } else { 0x30u8 })
            &&& e.mode == (if is_directory { 0o755u32 } else { 0o644u32 })
            &&& e.size_bytes == (if is_directory { 0u64 } else { file_bytes })
            &&& e.uid == 0 && e.gid == 0 && e.mtime == 0
        }),
        content_bytes(EntryKind::File, file_bytes) == file_bytes,
        content_bytes(EntryKind::Directory, file_bytes) == 0,
{
}

} // verus!
