//! Where this application keeps files of its own.

use crate::clipboard::path_policy::EntryKind;
use crate::text;
use crate::text::{chars_of, is_control};
use vstd::prelude::*;

verus! {

/// A text is the name of a directory directly inside another one.
pub open spec fn is_plain_name(name: Seq<char>) -> bool {
    &&& name.len() > 0
    &&& name != seq!['.']
    &&& name != seq!['.', '.']
    &&& forall|i: int|
        0 <= i < name.len() ==> name[i] != '/' && name[i] != '\\' && !text::is_control_char(
            #[trigger] name[i],
        )
}

/// The directory of this application for some purpose, below the directory that it has
/// for all of them.
pub fn secure_runtime_subdir(name: &str) -> (result: Result<String, &'static str>)
    ensures
        match result {
            Ok(dir) => is_plain_name(name@) && dir@ == name@,
            Err(e) => !is_plain_name(name@) && e@ == "invalid runtime subdirectory name"@,
        },
{
    let chars = chars_of(name);
    let ghost dot = seq!['.'];
    let ghost dots = seq!['.', '.'];
    assert(dot[0] == '.' && dots[0] == '.' && dots[1] == '.');
    if chars.len() == 0 {
        return Err("invalid runtime subdirectory name");
    }
    if chars.len() == 1 && chars[0] == '.' {
        assert(name@ =~= dot);
        return Err("invalid runtime subdirectory name");
    }
    if chars.len() == 2 && chars[0] == '.' && chars[1] == '.' {
        assert(name@ =~= dots);
        return Err("invalid runtime subdirectory name");
    }
    let mut i: usize = 0;
    while i < chars.len()
        invariant
            i <= chars.len(),
            chars@ == name@,
            forall|j: int|
                0 <= j < i ==> name@[j] != '/' && name@[j] != '\\' && !text::is_control_char(
                    #[trigger] name@[j],
                ),
        decreases chars.len() - i,
    {
        if chars[i] == '/' || chars[i] == '\\' || is_control(chars[i]) {
            assert(!is_plain_name(name@)) by {
                let c = name@[i as int];
                assert(c == '/' || c == '\\' || text::is_control_char(c));
            }
            return Err("invalid runtime subdirectory name");
        }
        i = i + 1;
    }
    Ok(name.to_owned())
}

/// Tells whether a file of this application may be opened at a path: there is none yet,
/// or an ordinary one.
pub fn reject_symlink_or_non_file(kind: EntryKind) -> (result: Result<(), &'static str>)
    ensures
        match result {
            Ok(_) => kind == EntryKind::Missing || kind == EntryKind::File,
            Err(e) => kind != EntryKind::Missing && kind != EntryKind::File && e@
                == "runtime file path is a symlink or non-file"@,
        },
{
    match kind {
        EntryKind::Missing => Ok(()),
        EntryKind::File => Ok(()),
        _ => Err("runtime file path is a symlink or non-file"),
    }
}

/// Tells whether a directory of this application is one.
pub fn check_private_directory(kind: EntryKind) -> (result: Result<(), &'static str>)
    ensures
        match result {
            Ok(_) => kind == EntryKind::Directory,
            Err(e) => kind != EntryKind::Directory && e@
                == "runtime directory path is a symlink or non-directory"@,
        },
{
    if kind != EntryKind::Directory {
        return Err("runtime directory path is a symlink or non-directory");
    }
    Ok(())
}

/// Tells whether a file that was opened is one of this application alone: an ordinary
/// file with one name. Where the number of its names is not known, it is not asked for.
pub fn validate_open_runtime_file(
    is_file: bool,
    is_reparse_point: bool,
    link_count: Option<u64>,
) -> (result: Result<(), &'static str>)
    ensures
        match result {
            Ok(_) => is_file && !is_reparse_point && (link_count is None || link_count == Some(
                1u64,
            )),
            Err(e) => if !is_file || is_reparse_point {
                e@ == "opened runtime path is a symlink, reparse point, or non-file"@
            } else {
                link_count is Some && link_count != Some(1u64) && e@
                    == "opened runtime file has an unexpected hard-link count"@
            },
        },
{
    if !is_file || is_reparse_point {
        return Err("opened runtime path is a symlink, reparse point, or non-file");
    }
    match link_count {
        Some(count) => if count != 1 {
            Err("opened runtime file has an unexpected hard-link count")
        } else {
            Ok(())
        },
        None => Ok(()),
    }
}

/// Any name without slashes, backslashes and control characters is that of a directory, but
/// for the two that stand for other directories; blanks, dots and letters of any script may
/// stand in it.
pub proof fn ordinary_directory_names_are_accepted(name: Seq<char>)
    ensures
        is_plain_name(name) <==> {
            &&& name.len() > 0
            &&& !(name.len() == 1 && name[0] == '.')
            &&& !(name.len() == 2 && name[0] == '.' && name[1] == '.')
            &&& forall|i: int|
                0 <= i < name.len() ==> #[trigger] name[i] != '/' && name[i] != '\\' && name[i] as u32
                    >= 0x20 && !(0x7f <= name[i] as u32 <= 0x9f)
        },
{
    let dot = seq!['.'];
    let dots = seq!['.', '.'];
    assert(dot[0] == '.' && dots[0] == '.' && dots[1] == '.');
    if name.len() == 1 && name[0] == '.' {
        assert(name =~= dot);
    }
    if name.len() == 2 && name[0] == '.' && name[1] == '.' {
        assert(name =~= dots);
    }
    if is_plain_name(name) {
        assert forall|i: int| 0 <= i < name.len() implies #[trigger] name[i] != '/' && name[i] != '\\'
            && name[i] as u32 >= 0x20 && !(0x7f <= name[i] as u32 <= 0x9f) by {
            assert(!text::is_control_char(name[i]));
        }
    }
}

} // verus!
