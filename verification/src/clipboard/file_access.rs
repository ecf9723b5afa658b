//! Telling whether a file changed while it is being read.

use crate::clipboard::path_policy::EntryKind;
use crate::clipboard::types::{backend, ClipboardError, ErrorView};
use vstd::prelude::*;

verus! {

/// What the file system says about a file.
#[derive(Debug, Clone, Copy)]
pub struct FileState {
    pub kind: EntryKind,
    /// The volume and the place on it: the same for one file as long as it exists.
    pub identity: (u64, u64),
    pub length: u64,
    /// When the content last changed, in seconds and nanoseconds.
    pub modified: (i64, i64),
    /// When the file last changed in any way, in seconds and nanoseconds.
    pub changed: (i64, i64),
}

/// Two observations show the same content.
pub open spec fn same_observed_state(a: FileState, b: FileState) -> bool {
    a.length == b.length && a.modified == b.modified && a.changed == b.changed
}

/// Why an entry of the file system is not transferred, if it is not.
pub open spec fn kind_error(kind: EntryKind) -> Option<ErrorView> {
    match kind {
        EntryKind::SymbolicLink => Some(
            ErrorView::Backend("symbolic links and reparse points are not transferred"@),
        ),
        EntryKind::File => None,
        EntryKind::Directory => None,
        _ => Some(ErrorView::Backend("special filesystem entries are not transferred"@)),
    }
}

/// Tells whether an entry of the file system is transferred.
pub fn verified_kind(kind: EntryKind) -> (result: Result<(), ClipboardError>)
    ensures
        match result {
            Ok(_) => kind_error(kind) is None,
            Err(e) => kind_error(kind) == Some(e@),
        },
{
    match kind {
        EntryKind::SymbolicLink => Err(
            backend("symbolic links and reparse points are not transferred"),
        ),
        EntryKind::File => Ok(()),
        EntryKind::Directory => Ok(()),
        _ => Err(backend("special filesystem entries are not transferred")),
    }
}

/// The words for a file that changed.
pub open spec fn changed_error(path: Seq<char>) -> ErrorView {
    ErrorView::Backend("clipboard path changed while preparing transfer: "@ + path)
}

/// Refuses a file that changed.
pub fn changed_path_error(path: &str) -> (error: ClipboardError)
    ensures
        error@ == changed_error(path@),
{
    let mut text: String = "clipboard path changed while preparing transfer: ".to_owned();
    text.append(path);
    ClipboardError::Backend(text)
}

/// Why what is now found at a path is not the file that was opened there, if it is not:
/// it is not transferred, of another kind, or another file.
pub open spec fn moved_error(opened: FileState, current: FileState, path: Seq<char>) -> Option<
    ErrorView,
> {
    if kind_error(current.kind) is Some {
        kind_error(current.kind)
    } else if current.kind != opened.kind || current.identity != opened.identity {
        Some(changed_error(path))
    } else {
        None
    }
}

/// Tells whether the file that was opened is still the one at its path.
pub fn verify_still_at(opened: &FileState, current: &FileState, path: &str) -> (result: Result<
    (),
    ClipboardError,
>)
    ensures
        match result {
            Ok(_) => moved_error(*opened, *current, path@) is None,
            Err(e) => moved_error(*opened, *current, path@) == Some(e@),
        },
{
    if let Err(e) = verified_kind(current.kind) {
        return Err(e);
    }
    if current.kind != opened.kind || !is_same_file(current, opened) {
        return Err(changed_path_error(path));
    }
    Ok(())
}

/// Why a file is not what it was when it was opened, if it is not: given what its open
/// handle and its path now show.
pub open spec fn unchanged_error(
    opened: FileState,
    handle: FileState,
    current: FileState,
    path: Seq<char>,
) -> Option<ErrorView> {
    if kind_error(current.kind) is Some {
        kind_error(current.kind)
    } else if current.kind != opened.kind {
        Some(changed_error(path))
    } else if kind_error(handle.kind) is Some {
        kind_error(handle.kind)
    } else if handle.kind != opened.kind || handle.identity != opened.identity || current.identity
        != opened.identity || !same_observed_state(handle, opened) || !same_observed_state(
        current,
        opened,
    ) {
        Some(changed_error(path))
    } else {
        None
    }
}

fn is_same_file(a: &FileState, b: &FileState) -> (same: bool)
    ensures
        same == (a.identity == b.identity),
{
    a.identity.0 == b.identity.0 && a.identity.1 == b.identity.1
}

fn is_same_state(a: &FileState, b: &FileState) -> (same: bool)
    ensures
        same == same_observed_state(*a, *b),
{
    a.length == b.length && a.modified.0 == b.modified.0 && a.modified.1 == b.modified.1
        && a.changed.0 == b.changed.0 && a.changed.1 == b.changed.1
}

/// Tells whether a file is still what it was when it was opened.
pub fn verify_unchanged_at(
    opened: &FileState,
    handle: &FileState,
    current: &FileState,
    path: &str,
) -> (result: Result<(), ClipboardError>)
    ensures
        match result {
            Ok(_) => unchanged_error(*opened, *handle, *current, path@) is None,
            Err(e) => unchanged_error(*opened, *handle, *current, path@) == Some(e@),
        },
{
    if let Err(e) = verified_kind(current.kind) {
        return Err(e);
    }
    if current.kind != opened.kind {
        return Err(changed_path_error(path));
    }
    if let Err(e) = verified_kind(handle.kind) {
        return Err(e);
    }
    if handle.kind != opened.kind || !is_same_file(handle, opened) || !is_same_file(current, opened)
        || !is_same_state(handle, opened) || !is_same_state(current, opened) {
        return Err(changed_path_error(path));
    }
    Ok(())
}

/// A file that passes shows the same file, kind, length and times through its handle
/// and at its path as when it was opened.
pub proof fn unchanged_files_are_the_same(
    opened: FileState,
    handle: FileState,
    current: FileState,
    path: Seq<char>,
)
    requires
        unchanged_error(opened, handle, current, path) is None,
    ensures
        handle == opened,
        current == opened,
{
}

/// A file that shows the same through its handle and at its path as when it was opened is
/// accepted; so is one that is merely still the same file at its path.
pub proof fn untouched_files_are_accepted(opened: FileState, later: FileState, path: Seq<char>)
    requires
        opened.kind == EntryKind::File || opened.kind == EntryKind::Directory,
    ensures
        unchanged_error(opened, opened, opened, path) is None,
        later.kind == opened.kind && later.identity == opened.identity ==> moved_error(
            opened,
            later,
            path,
        ) is None,
        later.kind == opened.kind && later.identity != opened.identity ==> moved_error(
            opened,
            later,
            path,
        ) == Some(
            ErrorView::Backend("clipboard path changed while preparing transfer: "@ + path),
        ),
        later.kind == opened.kind && (later.identity != opened.identity || later.length
            != opened.length || later.modified != opened.modified || later.changed
            != opened.changed) ==> unchanged_error(opened, later, opened, path) is Some
            && unchanged_error(opened, opened, later, path) is Some,
{
}

/// Files and directories are transferred, and nothing else is.
pub proof fn files_and_directories_are_transferred(kind: EntryKind)
    ensures
        kind_error(kind) is None <==> kind == EntryKind::File || kind == EntryKind::Directory,
{
}

} // verus!
