//! Archives as they are written: the entries of copied files one after the other.

use crate::bytes;
use crate::clipboard::files;
use crate::clipboard::files::{
    portable_entry, ArchiveEstimate, ExactFile, PortableEntry, ARCHIVE_END_BYTES,
};
use crate::clipboard::fingerprint;
use crate::clipboard::fingerprint::{ContentHash, FileTreeHash, RecordView};
use crate::clipboard::path_policy;
use crate::clipboard::path_policy::{EntryKind, MAX_ARCHIVE_ENTRIES};
use crate::clipboard::types::{backend, ClipboardError, ErrorView};
use crate::primitives;
use vstd::prelude::*;

verus! {

/// What stands before the content of an entry in an archive, or why there can be no such
/// entry.
pub uninterp spec fn entry_head(
    path: Seq<char>,
    type_flag: u8,
    mode: u32,
    uid: u64,
    gid: u64,
    mtime: u64,
    size_bytes: u64,
) -> Result<Seq<u8>, Seq<char>>;

/// `tar::Builder::append_data` with a GNU header and no content writes what stands before
/// the content of an entry: one block, and in front of it, where the name does not fit into
/// that block, a block and the name with a zero behind it, filled up to whole blocks.
#[verifier::external_body]
pub(crate) fn write_entry_head(path: &str, entry: &PortableEntry) -> (head: Result<Vec<u8>, String>)
    requires
        path_policy::archive_path_error(path@) is None,
    ensures
        match head {
            Ok(b) => entry_head(
                path@,
                entry.type_flag,
                entry.mode,
                entry.uid,
                entry.gid,
                entry.mtime,
                entry.size_bytes,
            ) == Ok::<Seq<u8>, Seq<char>>(b@) && b@.len() == 512 + files::long_name_bytes(path@),
            Err(e) => entry_head(
                path@,
                entry.type_flag,
                entry.mode,
                entry.uid,
                entry.gid,
                entry.mtime,
                entry.size_bytes,
            ) == Err::<Seq<u8>, Seq<char>>(e@),
        },
{
    let mut header = tar::Header::new_gnu();
    header.set_entry_type(tar::EntryType::new(entry.type_flag));
    header.set_mode(entry.mode);
    header.set_uid(entry.uid);
    header.set_gid(entry.gid);
    header.set_mtime(entry.mtime);
    header.set_size(entry.size_bytes);
    let mut builder = tar::Builder::new(Vec::new());
    builder.append_data(&mut header, path, std::io::empty()).map_err(|e| e.to_string())?;
    Ok(builder.get_ref().clone())
}

/// A directory or file as it goes into an archive.
#[verifier::ext_equal]
pub struct EntryView {
    pub path: Seq<char>,
    pub is_directory: bool,
    pub content: Seq<u8>,
}

/// What stands before the content of a directory or file.
pub open spec fn head_of(path: Seq<char>, is_directory: bool, size_bytes: u64) -> Result<
    Seq<u8>,
    Seq<char>,
> {
    let entry = files::portable_of(is_directory, size_bytes);
    entry_head(
        path,
        entry.type_flag,
        entry.mode,
        entry.uid,
        entry.gid,
        entry.mtime,
        entry.size_bytes,
    )
}

/// The head of an entry can be written, and has its size.
pub open spec fn has_head(path: Seq<char>, is_directory: bool, size_bytes: u64) -> bool {
    let head = head_of(path, is_directory, size_bytes);
    head is Ok && head->Ok_0.len() == 512 + files::long_name_bytes(path)
}

/// An entry can be written; a directory has no content.
pub open spec fn is_entry(e: EntryView) -> bool {
    &&& e.content.len() <= u64::MAX
    &&& e.is_directory ==> e.content.len() == 0
    &&& has_head(e.path, e.is_directory, e.content.len() as u64)
}

/// So many zeros.
pub open spec fn zeros(n: int) -> Seq<u8> {
    Seq::new(n as nat, |i: int| 0u8)
}

/// What fills a content up to whole blocks.
pub open spec fn padding(content_bytes: int) -> Seq<u8> {
    zeros(files::in_blocks(content_bytes) - content_bytes)
}

/// An entry as it stands in an archive.
pub open spec fn written_entry(e: EntryView) -> Seq<u8> {
    head_of(e.path, e.is_directory, e.content.len() as u64)->Ok_0 + e.content + padding(
        e.content.len() as int,
    )
}

/// Entries as they stand in an archive.
pub open spec fn written_entries(entries: Seq<EntryView>) -> Seq<u8>
    decreases entries.len(),
{
    if entries.len() == 0 {
        Seq::empty()
    } else {
        written_entries(entries.drop_last()) + written_entry(entries.last())
    }
}

/// The archive with given entries.
pub open spec fn archive_of(entries: Seq<EntryView>) -> Seq<u8> {
    written_entries(entries) + zeros(ARCHIVE_END_BYTES as int)
}

/// By what a tree of files knows an entry.
pub open spec fn record_of(e: EntryView) -> RecordView {
    if e.is_directory {
        fingerprint::directory_record(e.path)
    } else {
        fingerprint::file_record(
            e.path,
            e.content.len() as u64,
            fingerprint::hash_text(e.content),
        )
    }
}

/// By what a tree of files knows entries.
pub open spec fn records_of(entries: Seq<EntryView>) -> Seq<RecordView> {
    entries.map_values(|e: EntryView| record_of(e))
}

/// The paths of entries and the sizes of their contents.
pub open spec fn sizes_of(entries: Seq<EntryView>) -> Seq<(Seq<char>, u64)> {
    entries.map_values(|e: EntryView| (e.path, e.content.len() as u64))
}

/// All entries can be written.
pub open spec fn are_entries(entries: Seq<EntryView>) -> bool {
    forall|i: int| 0 <= i < entries.len() ==> is_entry(#[trigger] entries[i])
}

/// A file whose content is being written.
pub struct OpenFile {
    pub path: String,
    pub size_bytes: u64,
    pub left: ExactFile,
}

impl OpenFile {
    /// What is left and what was read are the file.
    pub open spec fn wf(self) -> bool {
        &&& self.left.remaining + self.left.content@.len() == self.size_bytes
        &&& has_head(self.path@, false, self.size_bytes)
    }
}

/// An archive that is being written. The files that go into it are visited one after the
/// other; what is handed out, and what is read of the files, is the archive.
pub struct ArchiveWriter {
    pub entry_count: usize,
    pub tree: FileTreeHash,
    pub file: Option<OpenFile>,
    /// The entries that are complete.
    pub entries: Ghost<Seq<EntryView>>,
    /// The archive so far.
    pub output: Ghost<Seq<u8>>,
}

impl ArchiveWriter {
    /// The archive so far is that of the complete entries and of what was read of the file
    /// that is open.
    pub open spec fn wf(self) -> bool {
        &&& self.entry_count <= MAX_ARCHIVE_ENTRIES
        &&& are_entries(self.entries@)
        &&& fingerprint::record_views(self.tree.records@) == records_of(self.entries@)
        &&& match self.file {
            None => self.output@ == written_entries(self.entries@),
            Some(file) => file.wf() && self.output@ == written_entries(self.entries@) + head_of(
                file.path@,
                false,
                file.size_bytes,
            )->Ok_0 + file.left.content@,
        }
    }

    /// An archive without entries.
    pub fn new() -> (writer: Self)
        ensures
            writer.wf(),
            writer.entry_count == 0,
            writer.file is None,
            writer.entries@ == Seq::<EntryView>::empty(),
            writer.output@ == Seq::<u8>::empty(),
    {
        let writer = ArchiveWriter {
            entry_count: 0,
            tree: FileTreeHash::new(),
            file: None,
            entries: Ghost(Seq::empty()),
            output: Ghost(Seq::empty()),
        };
        assert(fingerprint::record_views(writer.tree.records@) =~= records_of(writer.entries@));
        writer
    }

    /// Adds a directory, or opens a file of a given length; returns what is written to the
    /// archive.
    pub fn add_entry(&mut self, path: &str, kind: EntryKind, file_bytes: u64) -> (result: Result<
        Vec<u8>,
        ClipboardError,
    >)
        requires
            old(self).wf(),
            old(self).file is None,
            old(self).entry_count < MAX_ARCHIVE_ENTRIES,
            path_policy::archive_path_error(path@) is None,
        ensures
            final(self).wf(),
            final(self).entry_count == old(self).entry_count + 1,
            ({
                let is_directory = kind == EntryKind::Directory;
                let head = head_of(path@, is_directory, file_bytes);
                match result {
                    Ok(bytes) => {
                        &&& is_directory || kind == EntryKind::File
                        &&& head == Ok::<Seq<u8>, Seq<char>>(bytes@)
                        &&& final(self).output@ == old(self).output@ + bytes@
                        &&& if is_directory {
                            &&& final(self).file is None
                            &&& final(self).entries@ == old(self).entries@.push(
                                (EntryView {
                                    path: path@,
                                    is_directory: true,
                                    content: Seq::empty(),
                                }),
                            )
                        } else {
                            &&& final(self).entries@ == old(self).entries@
                            &&& final(self).file matches Some(file) && file.path@ == path@
                                && file.size_bytes == file_bytes && file.left.remaining
                                == file_bytes
                        }
                    },
                    Err(e) => {
                        &&& if is_directory || kind == EntryKind::File {
                            head is Err && e@ == ErrorView::Backend(head->Err_0)
                        } else {
                            e@ == ErrorView::Backend(
                                "special filesystem entries are not transferred"@,
                            )
                        }
                        &&& final(self).entries@ == old(self).entries@
                        &&& final(self).output@ == old(self).output@
                        &&& final(self).file is None
                    },
                }
            }),
    {
        self.entry_count = self.entry_count + 1;
        if let Err(e) = files::check_source_kind(kind) {
            return Err(e);
        }
        let is_directory = kind == EntryKind::Directory;
        let entry = portable_entry(kind, file_bytes);
        let head = match write_entry_head(path, &entry) {
            Ok(head) => head,
            Err(e) => return Err(ClipboardError::Backend(e)),
        };
        let ghost output = self.output@ + head@;
        if is_directory {
            let ghost added = EntryView { path: path@, is_directory: true, content: Seq::empty() };
            self.tree.push_directory(path);
            proof {
                let after = self.entries@.push(added);
                assert(after.drop_last() =~= self.entries@);
                assert(is_entry(added));
                assert(padding(0) =~= Seq::<u8>::empty());
                assert(written_entries(after) =~= output);
                assert(records_of(after) =~= records_of(self.entries@).push(record_of(added)));
            }
            self.entries = Ghost(self.entries@.push(added));
        } else {
            let file = OpenFile {
                path: path.to_owned(),
                size_bytes: file_bytes,
                left: ExactFile::new(file_bytes),
            };
            assert(output =~= output + file.left.content@);
            self.file = Some(file);
        }
        self.output = Ghost(output);
        Ok(head)
    }

    /// How many bytes of the open file to read next.
    pub fn next_read(&self, room: usize) -> (limit: usize)
        ensures
            match self.file {
                Some(file) => limit as int == if file.left.remaining < room {
                    file.left.remaining as int
                } else {
                    room as int
                },
                None => limit == 0,
            },
    {
        match &self.file {
            Some(file) => file.left.next_read(room),
            None => 0,
        }
    }

    /// Takes note of what was read of the open file, and is written to the archive. A file
    /// that has become shorter is refused.
    pub fn note_read(&mut self, part: &[u8]) -> (result: Result<(), ClipboardError>)
        requires
            old(self).wf(),
            old(self).file is Some,
            part@.len() <= old(self).file->Some_0.left.remaining,
        ensures
            final(self).wf(),
            final(self).entry_count == old(self).entry_count,
            final(self).entries@ == old(self).entries@,
            final(self).output@ == old(self).output@ + part@,
            final(self).file matches Some(file) && {
                let before = old(self).file->Some_0;
                &&& file.path@ == before.path@
                &&& file.size_bytes == before.size_bytes
                &&& file.left.content@ == before.left.content@ + part@
            },
            match result {
                Ok(_) => part@.len() > 0,
                Err(e) => part@.len() == 0 && e@ == ErrorView::Backend(
                    "clipboard file changed while it was being archived"@,
                ),
            },
    {
        match self.file.take() {
            Some(open) => {
                let mut file = open;
                let result = file.left.note_read(part);
                proof {
                    assert(file.left.content@ =~= open.left.content@ + part@);
                    assert(self.output@ + part@ =~= written_entries(self.entries@) + head_of(
                        file.path@,
                        false,
                        file.size_bytes,
                    )->Ok_0 + file.left.content@);
                }
                self.output = Ghost(self.output@ + part@);
                self.file = Some(file);
                result
            },
            None => Ok(()),
        }
    }

    /// Ends the open file, if all of it was read; returns what is written to the archive.
    pub fn end_file(&mut self) -> (result: Result<Vec<u8>, ClipboardError>)
        requires
            old(self).wf(),
            old(self).file is Some,
        ensures
            final(self).wf(),
            final(self).entry_count == old(self).entry_count,
            ({
                let file = old(self).file->Some_0;
                match result {
                    Ok(bytes) => {
                        &&& file.left.remaining == 0
                        &&& bytes@ == padding(file.size_bytes as int)
                        &&& final(self).file is None
                        &&& final(self).output@ == old(self).output@ + bytes@
                        &&& final(self).entries@ == old(self).entries@.push(
                            (EntryView {
                                path: file.path@,
                                is_directory: false,
                                content: file.left.content@,
                            }),
                        )
                    },
                    Err(e) => {
                        &&& file.left.remaining != 0
                        &&& e@ == ErrorView::Backend(
                            "clipboard file changed while it was being archived"@,
                        )
                        &&& *final(self) == *old(self)
                    },
                }
            }),
    {
        if let Some(file) = &self.file {
            if file.left.remaining != 0 {
                return Err(backend("clipboard file changed while it was being archived"));
            }
        }
        let open = self.file.take();
        let file = match open {
            Some(file) => file,
            None => return Ok(Vec::new()),
        };
        let ghost added = EntryView {
            path: file.path@,
            is_directory: false,
            content: file.left.content@,
        };
        let content: ContentHash = match file.left.finish() {
            Ok(content) => content,
            Err(e) => return Err(e),
        };
        let size_bytes: u64 = file.size_bytes;
        self.tree.push_file(&file.path, size_bytes, content);
        let bytes = zero_bytes((512 - size_bytes % 512) % 512);
        proof {
            let after = self.entries@.push(added);
            assert(after.drop_last() =~= self.entries@);
            assert(is_entry(added));
            assert(bytes@ =~= padding(size_bytes as int));
            assert(written_entries(after) =~= self.output@ + bytes@);
            assert(records_of(after) =~= records_of(self.entries@).push(record_of(added)));
        }
        self.entries = Ghost(self.entries@.push(added));
        self.output = Ghost(self.output@ + bytes@);
        Ok(bytes)
    }

    /// Ends the archive; returns what is written to it, and the hash of the files in it.
    pub fn finish(self) -> (end: (Vec<u8>, String))
        requires
            self.wf(),
            self.file is None,
        ensures
            end.0@ == zeros(ARCHIVE_END_BYTES as int),
            self.output@ + end.0@ == archive_of(self.entries@),
            archive_of(self.entries@).len() == files::archive_sum(sizes_of(self.entries@)),
            end.1@ == fingerprint::tree_hash(records_of(self.entries@)),
    {
        let bytes = zero_bytes(ARCHIVE_END_BYTES);
        proof {
            archives_have_their_size(self.entries@);
        }
        (bytes, self.tree.finalize())
    }
}

fn zero_bytes(n: u64) -> (bytes: Vec<u8>)
    requires
        n <= 1024,
    ensures
        bytes@ == zeros(n as int),
{
    let mut bytes: Vec<u8> = Vec::new();
    let mut i: u64 = 0;
    while i < n
        invariant
            i <= n,
            bytes@ =~= zeros(i as int),
        decreases n - i,
    {
        bytes.push(0);
        i = i + 1;
    }
    bytes
}

/// An archive is as long as the sizes of its entries say, long names included.
pub proof fn archives_have_their_size(entries: Seq<EntryView>)
    requires
        are_entries(entries),
    ensures
        archive_of(entries).len() == files::archive_sum(sizes_of(entries)),
    decreases entries.len(),
{
    if entries.len() > 0 {
        let front = entries.drop_last();
        assert forall|i: int| 0 <= i < front.len() implies is_entry(#[trigger] front[i]) by {
            assert(front[i] == entries[i]);
        }
        archives_have_their_size(front);
        assert(sizes_of(entries).drop_last() =~= sizes_of(front));
        assert(is_entry(entries[entries.len() - 1]));
    }
}

/// Files that do not change are sent as they were estimated and hashed: an archive of the
/// entries that were estimated has exactly the estimated length, and the hash that goes with
/// it is that of the files, in whatever order these were read.
pub proof fn streamed_archives_are_as_estimated(
    entries: Seq<EntryView>,
    estimate: ArchiveEstimate,
    records: Seq<RecordView>,
)
    requires
        are_entries(entries),
        estimate.wf(),
        estimate.entries@ == sizes_of(entries),
        records.to_multiset() == records_of(entries).to_multiset(),
        fingerprint::distinct_records(records),
    ensures
        archive_of(entries).len() == estimate.total,
        fingerprint::tree_hash(records_of(entries)) == fingerprint::tree_hash(records),
{
    archives_have_their_size(entries);
    fingerprint::tree_hash_ignores_order(records, records_of(entries));
}

/// An archive and the hash of a tree know a file by the same path.
pub proof fn archives_and_hashes_agree_on_paths(parts: Seq<Seq<char>>, child: Seq<char>)
    requires
        parts.len() > 0,
    ensures
        fingerprint::with_slashes(parts.push(child)) == fingerprint::with_slashes(parts) + seq!['/']
            + child,
{
    assert(parts.push(child).drop_last() =~= parts);
}

/// Whatever the files themselves are like, every entry is written with the same mode, owner
/// and time: those of its kind.
pub proof fn entries_are_portable(is_directory: bool, size_bytes: u64)
    ensures
        ({
            let entry = files::portable_of(is_directory, size_bytes);
            &&& entry.uid == 0 && entry.gid == 0 && entry.mtime == 0
            &&& entry.mode == if is_directory {
                0o755u32
            } else {
                0o644u32
            }
        }),
{
}

proof fn entries_take_whole_blocks(entries: Seq<EntryView>, i: int)
    requires
        0 <= i < entries.len(),
        are_entries(entries),
    ensures
        ({
            let e = entries[i];
            let start = written_entries(entries.take(i)).len() as int;
            let head = head_of(e.path, e.is_directory, e.content.len() as u64)->Ok_0;
            let all = written_entries(entries);
            &&& start + head.len() + e.content.len() <= all.len()
            &&& all.subrange(start, start + head.len()) == head
            &&& all.subrange(start + head.len(), start + head.len() + e.content.len()) == e.content
        }),
    decreases entries.len(),
{
    let front = entries.drop_last();
    let before = written_entries(front);
    let all = written_entries(entries);
    let e = entries[i];
    let head = head_of(e.path, e.is_directory, e.content.len() as u64)->Ok_0;
    if i == entries.len() - 1 {
        assert(entries.take(i) =~= front);
        let start = before.len() as int;
        assert(all.subrange(start, start + head.len()) =~= head);
        assert(all.subrange(start + head.len(), start + head.len() + e.content.len())
            =~= e.content);
    } else {
        assert(front[i] == e);
        assert forall|k: int| 0 <= k < front.len() implies is_entry(#[trigger] front[k]) by {
            assert(front[k] == entries[k]);
        }
        entries_take_whole_blocks(front, i);
        assert(front.take(i) =~= entries.take(i));
        let start = written_entries(entries.take(i)).len() as int;
        assert(all.subrange(start, start + head.len()) =~= before.subrange(
            start,
            start + head.len(),
        ));
        assert(all.subrange(start + head.len(), start + head.len() + e.content.len())
            =~= before.subrange(start + head.len(), start + head.len() + e.content.len()));
    }
}

/// Every file stands in the archive byte by byte, behind its head and behind what comes before
/// it; the archive ends with 1024 zeros.
pub proof fn contents_stand_in_the_archive(entries: Seq<EntryView>, i: int)
    requires
        0 <= i < entries.len(),
        are_entries(entries),
    ensures
        ({
            let e = entries[i];
            let archive = archive_of(entries);
            let at = written_entries(entries.take(i)).len() + head_of(
                e.path,
                e.is_directory,
                e.content.len() as u64,
            )->Ok_0.len();
            &&& at + e.content.len() <= archive.len()
            &&& archive.subrange(at as int, (at + e.content.len()) as int) == e.content
            &&& archive.len() == written_entries(entries).len() + 1024
            &&& forall|k: int|
                archive.len() - 1024 <= k < archive.len() ==> #[trigger] archive[k] == 0
        }),
{
    entries_take_whole_blocks(entries, i);
    let e = entries[i];
    let all = written_entries(entries);
    let archive = archive_of(entries);
    let at = written_entries(entries.take(i)).len() as int + head_of(
        e.path,
        e.is_directory,
        e.content.len() as u64,
    )->Ok_0.len();
    assert(archive.subrange(at, at + e.content.len()) =~= all.subrange(
        at,
        at + e.content.len(),
    ));
}

/// A tree knows a directory by its path, and a file by its path, its size and the hash of its
/// content.
pub proof fn trees_know_files_by_their_content(e: EntryView)
    requires
        e.content.len() <= u64::MAX,
    ensures
        ({
            let r = record_of(e);
            &&& r.path == e.path
            &&& r.is_directory == e.is_directory
            &&& !e.is_directory ==> r.size_bytes == e.content.len() && r.content_hash == Some(
                bytes::hex_text(primitives::sha256(e.content)),
            )
            &&& e.is_directory ==> r.size_bytes == 0 && r.content_hash is None
        }),
{
}

} // verus!
