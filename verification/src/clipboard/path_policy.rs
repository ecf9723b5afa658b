//! Which file names and paths may travel, and which received bundles are kept.
//!
//! A name that travels can be created on every system that takes part.

use crate::bytes::same_bytes;
use crate::clipboard::types::{backend, ClipboardError, ErrorView};
use crate::order;
use crate::order::stable_sort;
use crate::protocol;
use crate::settings;
use crate::settings::new_device_id;
use crate::text;
use crate::text::{byte_len, chars_of, is_control, lowercase, same_text, text_of, upper_ascii};
use crate::uuid_text;
use crate::uuid_text::parse_uuid_text;
use vstd::prelude::*;
use vstd::utf8::*;

verus! {

/// How many entries an archive may have.
pub const MAX_ARCHIVE_ENTRIES: usize = 20_000;

/// How deep a path may be.
pub const MAX_ARCHIVE_DEPTH: usize = 32;

/// The longest path in bytes.
pub const MAX_ARCHIVE_PATH_BYTES: usize = 4_096;

/// How many names a bundle may have.
pub const MAX_TOP_LEVEL_NAMES: usize = 256;

/// The longest name in bytes.
pub const MAX_TOP_LEVEL_NAME_BYTES: usize = 255;

/// How many received bundles are kept.
pub const MAX_RETAINED_BUNDLES: usize = 8;

/// How long a received bundle is kept (24 hours), in nanoseconds.
pub const BUNDLE_TTL_NS: u64 = 86_400_000_000_000;

/// A character that some system does not allow in names.
pub open spec fn is_forbidden(c: char) -> bool {
    text::is_control_char(c) || c == '<' || c == '>' || c == ':' || c == '"' || c == '/' || c
        == '\\' || c == '|' || c == '?' || c == '*'
}

/// A name that some system does not allow.
pub open spec fn is_unportable(name: Seq<char>) -> bool {
    ||| name.len() == 0
    ||| encode_utf8(name).len() > MAX_TOP_LEVEL_NAME_BYTES
    ||| name.last() == '.'
    ||| name.last() == ' '
    ||| exists|i: int| 0 <= i < name.len() && is_forbidden(#[trigger] name[i])
}

/// The place of the first dot, or the length of the text.
pub open spec fn first_dot(s: Seq<char>) -> int
    decreases s.len(),
{
    if s.len() == 0 || s[0] == '.' {
        0
    } else {
        1 + first_dot(s.skip(1))
    }
}

/// A text without the dots and blanks at its end.
pub open spec fn without_trailing_dots(s: Seq<char>) -> Seq<char>
    decreases s.len(),
{
    if s.len() > 0 && (s.last() == '.' || s.last() == ' ') {
        without_trailing_dots(s.drop_last())
    } else {
        s
    }
}

/// The name of a file without what follows the first dot, in upper case.
pub open spec fn stem(name: Seq<char>) -> Seq<char> {
    without_trailing_dots(name.take(first_dot(name))).map_values(|c: char| text::ascii_upper(c))
}

/// A digit that makes the name of a numbered device.
pub open spec fn is_device_digit(c: char) -> bool {
    '1' <= c <= '9' || c == '¹' || c == '²' || c == '³'
}

/// The name of a device of Windows.
pub open spec fn is_device_name(s: Seq<char>) -> bool {
    ||| s == seq!['C', 'O', 'N']
    ||| s == seq!['P', 'R', 'N']
    ||| s == seq!['A', 'U', 'X']
    ||| s == seq!['N', 'U', 'L']
    ||| s.len() == 4 && (s.take(3) == seq!['C', 'O', 'M'] || s.take(3) == seq!['L', 'P', 'T'])
        && is_device_digit(s[3])
}

/// What is wrong with a name, if anything.
pub open spec fn component_error(name: Seq<char>) -> Option<ErrorView> {
    if is_unportable(name) {
        Some(ErrorView::Backend("archive path contains a non-portable component"@))
    } else if is_device_name(stem(name)) {
        Some(ErrorView::Backend("archive path uses a reserved Windows device name"@))
    } else {
        None
    }
}

fn has_forbidden(chars: &Vec<char>) -> (found: bool)
    ensures
        found == exists|i: int| 0 <= i < chars@.len() && is_forbidden(#[trigger] chars@[i]),
{
    let mut i: usize = 0;
    while i < chars.len()
        invariant
            i <= chars.len(),
            forall|j: int| 0 <= j < i ==> !is_forbidden(#[trigger] chars@[j]),
        decreases chars.len() - i,
    {
        let c = chars[i];
        if is_control(c) || c == '<' || c == '>' || c == ':' || c == '"' || c == '/' || c == '\\'
            || c == '|' || c == '?' || c == '*' {
            assert(is_forbidden(chars@[i as int]));
            return true;
        }
        i = i + 1;
    }
    false
}

fn stem_of(chars: &Vec<char>) -> (upper: Vec<char>)
    ensures
        upper@ == stem(chars@),
{
    let mut end: usize = 0;
    assert(chars@.skip(0) =~= chars@);
    while end < chars.len() && chars[end] != '.'
        invariant
            end <= chars.len(),
            first_dot(chars@) == end + first_dot(chars@.skip(end as int)),
        decreases chars.len() - end,
    {
        assert(chars@.skip(end as int)[0] == chars@[end as int]);
        assert(chars@.skip(end as int).skip(1) =~= chars@.skip(end + 1));
        end = end + 1;
    }
    proof {
        if end < chars.len() {
            assert(chars@.skip(end as int)[0] == chars@[end as int]);
        }
    }
    let ghost head = chars@.take(end as int);
    assert(head == chars@.take(first_dot(chars@)));
    assert(head.take(end as int) =~= head);
    while end > 0 && (chars[end - 1] == '.' || chars[end - 1] == ' ')
        invariant
            end <= head.len() <= chars.len(),
            head == chars@.take(head.len() as int),
            without_trailing_dots(head) == without_trailing_dots(head.take(end as int)),
        decreases end,
    {
        assert(head.take(end as int).last() == chars@[end - 1]);
        assert(head.take(end as int).drop_last() =~= head.take(end - 1));
        end = end - 1;
    }
    let ghost kept = head.take(end as int);
    proof {
        if end > 0 {
            assert(kept.last() == chars@[end - 1]);
        }
        assert(without_trailing_dots(kept) == kept);
    }
    let mut upper: Vec<char> = Vec::new();
    let mut i: usize = 0;
    while i < end
        invariant
            i <= end <= chars.len(),
            kept.len() == end,
            kept =~= chars@.take(end as int),
            upper@ =~= kept.take(i as int).map_values(|c: char| text::ascii_upper(c)),
        decreases end - i,
    {
        upper.push(upper_ascii(chars[i]));
        i = i + 1;
    }
    assert(kept.take(i as int) =~= kept);
    upper
}

fn is_device(s: &Vec<char>) -> (device: bool)
    ensures
        device == is_device_name(s@),
{
    if s.len() == 3 {
        let device = (s[0] == 'C' && s[1] == 'O' && s[2] == 'N') || (s[0] == 'P' && s[1] == 'R'
            && s[2] == 'N') || (s[0] == 'A' && s[1] == 'U' && s[2] == 'X') || (s[0] == 'N' && s[1]
            == 'U' && s[2] == 'L');
        proof {
            assert(s@ =~= seq![s@[0], s@[1], s@[2]]);
            let con = seq!['C', 'O', 'N'];
            let prn = seq!['P', 'R', 'N'];
            let aux = seq!['A', 'U', 'X'];
            let nul = seq!['N', 'U', 'L'];
            assert(con[0] == 'C' && con[1] == 'O' && con[2] == 'N');
            assert(prn[0] == 'P' && prn[1] == 'R' && prn[2] == 'N');
            assert(aux[0] == 'A' && aux[1] == 'U' && aux[2] == 'X');
            assert(nul[0] == 'N' && nul[1] == 'U' && nul[2] == 'L');
        }
        return device;
    }
    if s.len() == 4 {
        let c = s[3];
        let numbered = (s[0] == 'C' && s[1] == 'O' && s[2] == 'M') || (s[0] == 'L' && s[1] == 'P'
            && s[2] == 'T');
        proof {
            assert(s@.take(3) =~= seq![s@[0], s@[1], s@[2]]);
            let com = seq!['C', 'O', 'M'];
            let lpt = seq!['L', 'P', 'T'];
            assert(com[0] == 'C' && com[1] == 'O' && com[2] == 'M');
            assert(lpt[0] == 'L' && lpt[1] == 'P' && lpt[2] == 'T');
            assert(s@.take(3)[0] == s@[0] && s@.take(3)[1] == s@[1] && s@.take(3)[2] == s@[2]);
        }
        return numbered && (('1' <= c && c <= '9') || c == '¹' || c == '²' || c == '³');
    }
    false
}

/// Tells whether a name may travel.
pub fn validate_portable_component(name: &str) -> (result: Result<(), ClipboardError>)
    ensures
        match result {
            Ok(_) => component_error(name@) is None,
            Err(e) => component_error(name@) == Some(e@),
        },
{
    let chars = chars_of(name);
    if chars.len() == 0 || byte_len(name) > MAX_TOP_LEVEL_NAME_BYTES || chars[chars.len() - 1]
        == '.' || chars[chars.len() - 1] == ' ' || has_forbidden(&chars) {
        return Err(backend("archive path contains a non-portable component"));
    }
    if is_device(&stem_of(&chars)) {
        return Err(backend("archive path uses a reserved Windows device name"));
    }
    Ok(())
}

/// Name `i` differs from an earlier one at most in case.
pub open spec fn is_repeated(names: Seq<Seq<char>>, i: int) -> bool {
    exists|j: int|
        0 <= j < i && text::lowered(#[trigger] names[j]) == text::lowered(names[i])
}

/// What is wrong with names from number `i` on, if anything.
pub open spec fn names_error_from(names: Seq<Seq<char>>, i: int) -> Option<ErrorView>
    decreases names.len() - i,
{
    if i < 0 || i >= names.len() {
        None
    } else if component_error(names[i]) is Some {
        component_error(names[i])
    } else if is_repeated(names, i) {
        Some(ErrorView::Backend("duplicate top-level entry name"@))
    } else {
        names_error_from(names, i + 1)
    }
}

/// What is wrong with the names of a bundle, if anything.
pub open spec fn names_error(names: Seq<Seq<char>>) -> Option<ErrorView> {
    if names.len() == 0 || names.len() > MAX_TOP_LEVEL_NAMES {
        Some(ErrorView::Backend("invalid top-level entry count"@))
    } else {
        names_error_from(names, 0)
    }
}

/// Tells whether the names of a bundle may travel together: each of them may, and
/// no two differ in case alone.
pub fn validate_top_level_names(names: &Vec<String>) -> (result: Result<(), ClipboardError>)
    ensures
        match result {
            Ok(_) => names_error(protocol::texts(names@)) is None,
            Err(e) => names_error(protocol::texts(names@)) == Some(e@),
        },
{
    if names.len() == 0 || names.len() > MAX_TOP_LEVEL_NAMES {
        return Err(backend("invalid top-level entry count"));
    }
    let ghost all = protocol::texts(names@);
    let mut seen: Vec<String> = Vec::new();
    let mut i: usize = 0;
    while i < names.len()
        invariant
            i <= names.len(),
            0 < names.len() <= MAX_TOP_LEVEL_NAMES,
            all == protocol::texts(names@),
            seen.len() == i,
            forall|j: int| 0 <= j < i ==> (#[trigger] seen@[j])@ == text::lowered(all[j]),
            names_error(all) == names_error_from(all, i as int),
        decreases names.len() - i,
    {
        assert(all[i as int] == names@[i as int]@);
        if let Err(e) = validate_portable_component(&names[i]) {
            return Err(e);
        }
        let lowered = lowercase(&names[i]);
        let mut j: usize = 0;
        while j < seen.len()
            invariant
                j <= seen.len() == i,
                i < all.len(),
                all == protocol::texts(names@),
                lowered@ == text::lowered(all[i as int]),
                names_error(all) == names_error_from(all, i as int),
                component_error(all[i as int]) is None,
                forall|k: int|
                    0 <= k < i ==> (#[trigger] seen@[k])@ == text::lowered(all[k]),
                forall|k: int|
                    0 <= k < j ==> text::lowered(#[trigger] all[k])
                        != text::lowered(all[i as int]),
            decreases seen.len() - j,
        {
            assert(seen@[j as int]@ == text::lowered(all[j as int]));
            if same_text(&seen[j], &lowered) {
                assert(is_repeated(all, i as int));
                return Err(backend("duplicate top-level entry name"));
            }
            j = j + 1;
        }
        assert(!is_repeated(all, i as int));
        seen.push(lowered);
        i = i + 1;
    }
    Ok(())
}

/// A part of a path.
pub enum PathPart {
    /// The root of all paths.
    Root,
    /// The directory that a path starts in.
    Current,
    /// The directory above.
    Parent,
    /// A name.
    Name(Seq<char>),
}

/// The place of the first slash from `from` on, or the length of the text.
pub open spec fn next_slash(s: Seq<char>, from: int) -> int
    decreases s.len() - from,
{
    if from >= s.len() || s[from] == '/' {
        from
    } else {
        next_slash(s, from + 1)
    }
}

/// What stands between two slashes, as a part of a path; nothing and the
/// directory itself do not count, except at the start of a path.
pub open spec fn part_of(piece: Seq<char>, at_start: bool) -> Option<PathPart> {
    if piece.len() == 0 {
        if at_start {
            Some(PathPart::Root)
        } else {
            None
        }
    } else if piece == seq!['.'] {
        if at_start {
            Some(PathPart::Current)
        } else {
            None
        }
    } else if piece == seq!['.', '.'] {
        Some(PathPart::Parent)
    } else {
        Some(PathPart::Name(piece))
    }
}

/// What is wrong with the parts of a path from place `from` on, where `depth`
/// names came before, if anything.
pub open spec fn parts_error(s: Seq<char>, from: int, depth: nat) -> Option<ErrorView>
    decreases s.len() + 1 - from,
{
    if from < 0 || from >= s.len() {
        if depth == 0 || depth > MAX_ARCHIVE_DEPTH {
            Some(ErrorView::Backend("archive entry depth exceeds limit"@))
        } else {
            None
        }
    } else {
        proof {
            slash_is_ahead(s, from);
        }
        let end = next_slash(s, from);
        match part_of(s.subrange(from, end), from == 0) {
            None => parts_error(s, end + 1, depth),
            Some(PathPart::Name(name)) => if component_error(name) is Some {
                component_error(name)
            } else {
                parts_error(s, end + 1, depth + 1)
            },
            Some(_) => Some(ErrorView::Backend("archive entry path traversal rejected"@)),
        }
    }
}

/// What is wrong with the path of an entry, if anything.
pub open spec fn archive_path_error(path: Seq<char>) -> Option<ErrorView> {
    if path.len() == 0 || encode_utf8(path).len() > MAX_ARCHIVE_PATH_BYTES || path.contains(
        '\\',
    ) {
        Some(ErrorView::Backend("invalid archive entry path length"@))
    } else {
        parts_error(path, 0, 0)
    }
}

/// The next slash is not behind.
pub proof fn slash_is_ahead(s: Seq<char>, from: int)
    requires
        0 <= from <= s.len(),
    ensures
        from <= next_slash(s, from) <= s.len(),
    decreases s.len() - from,
{
    if from < s.len() && s[from] != '/' {
        slash_is_ahead(s, from + 1);
    }
}

fn has_char(chars: &Vec<char>, c: char) -> (found: bool)
    ensures
        found == chars@.contains(c),
{
    let mut i: usize = 0;
    while i < chars.len()
        invariant
            i <= chars.len(),
            forall|j: int| 0 <= j < i ==> chars@[j] != c,
        decreases chars.len() - i,
    {
        if chars[i] == c {
            return true;
        }
        i = i + 1;
    }
    false
}

/// Tells whether the path of an entry may travel: it is relative, made of portable
/// names alone, and neither too long nor too deep.
pub fn validate_archive_path(path: &str) -> (result: Result<(), ClipboardError>)
    ensures
        match result {
            Ok(_) => archive_path_error(path@) is None,
            Err(e) => archive_path_error(path@) == Some(e@),
        },
{
    let chars = chars_of(path);
    if chars.len() == 0 || byte_len(path) > MAX_ARCHIVE_PATH_BYTES || has_char(&chars, '\\') {
        return Err(backend("invalid archive entry path length"));
    }
    let mut depth: usize = 0;
    let mut from: usize = 0;
    while from < chars.len()
        invariant
            chars@ == path@,
            depth <= from,
            from <= chars.len(),
            archive_path_error(path@) == parts_error(path@, from as int, depth as nat),
        decreases chars.len() - from,
    {
        proof {
            slash_is_ahead(path@, from as int);
        }
        let mut end: usize = from;
        while end < chars.len() && chars[end] != '/'
            invariant
                from <= end <= chars.len(),
                chars@ == path@,
                next_slash(path@, from as int) == next_slash(path@, end as int),
            decreases chars.len() - end,
        {
            end = end + 1;
        }
        let ghost piece = path@.subrange(from as int, end as int);
        let ghost dot = seq!['.'];
        let ghost dots = seq!['.', '.'];
        assert(dot[0] == '.' && dots[0] == '.' && dots[1] == '.');
        if end == from {
            if from == 0 {
                return Err(backend("archive entry path traversal rejected"));
            }
            assert(part_of(piece, from == 0) is None);
        } else if end - from == 1 && chars[from] == '.' {
            assert(piece =~= dot);
            if from == 0 {
                return Err(backend("archive entry path traversal rejected"));
            }
            assert(part_of(piece, from == 0) is None);
        } else if end - from == 2 && chars[from] == '.' && chars[from + 1] == '.' {
            assert(piece =~= dots);
            return Err(backend("archive entry path traversal rejected"));
        } else {
            proof {
                assert(piece[0] == path@[from as int]);
                if piece.len() == 2 {
                    assert(piece[1] == path@[from + 1]);
                }
                assert(piece != dot && piece != dots);
                assert(part_of(piece, from == 0) == Some(PathPart::Name(piece)));
            }
            let name = text_of(&chars, from, end);
            if let Err(e) = validate_portable_component(&name) {
                return Err(e);
            }
            depth = depth + 1;
        }
        if end == chars.len() {
            assert(parts_error(path@, end + 1, depth as nat) == parts_error(
                path@,
                end as int,
                depth as nat,
            ));
            from = end;
        } else {
            from = end + 1;
        }
    }
    if depth == 0 || depth > MAX_ARCHIVE_DEPTH {
        return Err(backend("archive entry depth exceeds limit"));
    }
    Ok(())
}

/// Path `path` lies in directory `root` or is that directory, both given by their
/// parts.
pub open spec fn lies_in(path: Seq<Vec<u8>>, root: Seq<Vec<u8>>) -> bool {
    path.len() >= root.len() && forall|i: int|
        0 <= i < root.len() ==> (#[trigger] root[i])@ == path[i]@
}

/// Tells whether a path lies in a directory or is that directory.
pub fn path_lies_in(path: &Vec<Vec<u8>>, root: &Vec<Vec<u8>>) -> (inside: bool)
    ensures
        inside == lies_in(path@, root@),
{
    if path.len() < root.len() {
        return false;
    }
    let mut i: usize = 0;
    while i < root.len()
        invariant
            i <= root.len() <= path.len(),
            forall|j: int| 0 <= j < i ==> (#[trigger] root@[j])@ == path@[j]@,
        decreases root.len() - i,
    {
        if !same_bytes(&root[i], &path[i]) {
            return false;
        }
        i = i + 1;
    }
    true
}

/// Tells whether a path lies in the receive directory, given what both resolve to;
/// what cannot be resolved does not.
pub fn is_internal_path(path: &Option<Vec<Vec<u8>>>, root: &Option<Vec<Vec<u8>>>) -> (inside: bool)
    ensures
        inside == (root is Some && path is Some && lies_in(path->Some_0@, root->Some_0@)),
{
    match (root, path) {
        (Some(root), Some(path)) => path_lies_in(path, root),
        _ => false,
    }
}

/// Tells whether a restored file lies strictly inside the directory of its bundle.
pub fn check_restored_path(path: &Vec<Vec<u8>>, root: &Vec<Vec<u8>>) -> (result: Result<
    (),
    ClipboardError,
>)
    ensures
        match result {
            Ok(_) => lies_in(path@, root@) && path@.len() > root@.len(),
            Err(e) => (!lies_in(path@, root@) || path@.len() == root@.len()) && e@
                == ErrorView::Backend("restored file escaped receive directory"@),
        },
{
    if path.len() == root.len() || !path_lies_in(path, root) {
        return Err(backend("restored file escaped receive directory"));
    }
    Ok(())
}

/// What is found at a path.
#[derive(Debug, Clone, Copy, PartialEq, Eq, Structural)]
pub enum EntryKind {
    Missing,
    Directory,
    File,
    SymbolicLink,
    Other,
}

/// Why a path is not a bundle of this application, if it is not.
pub open spec fn bundle_error(
    has_parent: bool,
    parent_is_root: bool,
    name: Option<Seq<char>>,
    kind: EntryKind,
) -> Option<ErrorView> {
    if !has_parent {
        Some(ErrorView::Backend("file bundle directory has no parent"@))
    } else if !parent_is_root || name is None || uuid_text::uuid_bytes(name->Some_0) is None {
        Some(ErrorView::Backend("file bundle directory is not managed by lan-clipboard"@))
    } else if kind == EntryKind::SymbolicLink {
        Some(ErrorView::Backend("managed file bundle path became a symbolic link"@))
    } else {
        None
    }
}

/// Tells whether a path is a bundle of this application: directly in the receive
/// directory, with an identifier for a name, and no link.
pub fn inspect_managed_bundle_path(
    has_parent: bool,
    parent_is_root: bool,
    name: Option<&str>,
    kind: EntryKind,
) -> (result: Result<(), ClipboardError>)
    ensures
        ({
            let view = match name {
                Some(n) => Some(n@),
                None => None,
            };
            match result {
                Ok(_) => bundle_error(has_parent, parent_is_root, view, kind) is None,
                Err(e) => bundle_error(has_parent, parent_is_root, view, kind) == Some(e@),
            }
        }),
{
    if !has_parent {
        return Err(backend("file bundle directory has no parent"));
    }
    let has_uuid_name = match name {
        Some(n) => parse_uuid_text(n).is_some(),
        None => false,
    };
    if !parent_is_root || !has_uuid_name {
        return Err(backend("file bundle directory is not managed by lan-clipboard"));
    }
    if kind == EntryKind::SymbolicLink {
        return Err(backend("managed file bundle path became a symbolic link"));
    }
    Ok(())
}

/// How often a name for a new bundle is tried.
pub const BUNDLE_NAME_ATTEMPTS: usize = 8;

/// Names the directory of a new bundle, where some names were tried before and taken.
pub fn next_bundle_name(taken: usize) -> (result: Result<String, ClipboardError>)
    ensures
        match result {
            Ok(name) => taken < BUNDLE_NAME_ATTEMPTS && exists|id: Seq<u8>|
                settings::is_fresh_id(id) && name@ == #[trigger] uuid_text::hyphenated(id),
            Err(e) => taken >= BUNDLE_NAME_ATTEMPTS && e@ == ErrorView::Backend(
                "failed to allocate unique receive directory"@,
            ),
        },
{
    if taken >= BUNDLE_NAME_ATTEMPTS {
        return Err(backend("failed to allocate unique receive directory"));
    }
    Ok(new_device_id())
}

/// A bundle that this application names is known as one of its own.
pub proof fn new_bundles_are_managed(id: Seq<u8>)
    requires
        settings::is_fresh_id(id),
    ensures
        bundle_error(true, true, Some(uuid_text::hyphenated(id)), EntryKind::Directory) is None,
{
    uuid_text::hyphenated_is_read_back(id);
}

/// Tells whether there is a directory to remove for a bundle of this application.
pub fn bundle_removal(kind: EntryKind) -> (result: Result<bool, ClipboardError>)
    ensures
        match result {
            Ok(remove) => (kind == EntryKind::Missing && !remove) || (kind == EntryKind::Directory
                && remove),
            Err(e) => kind != EntryKind::Missing && kind != EntryKind::Directory && e@
                == ErrorView::Backend("managed file bundle path is no longer a directory"@),
        },
{
    match kind {
        EntryKind::Missing => Ok(false),
        EntryKind::Directory => Ok(true),
        _ => Err(backend("managed file bundle path is no longer a directory")),
    }
}

/// An entry of the receive directory.
#[derive(Debug)]
pub struct ReceivedEntry {
    pub path: String,
    pub is_directory: bool,
    pub modified_ns: u64,
}

impl Clone for ReceivedEntry {
    fn clone(&self) -> (copy: Self)
        ensures
            copy == *self,
    {
        ReceivedEntry {
            path: self.path.clone(),
            is_directory: self.is_directory,
            modified_ns: self.modified_ns,
        }
    }
}

/// An entry is in use.
pub open spec fn is_active(e: ReceivedEntry, active: Seq<String>) -> bool {
    protocol::texts(active).contains(e.path@)
}

/// Entries that changed later come first.
pub open spec fn latest_first() -> spec_fn(ReceivedEntry, ReceivedEntry) -> bool {
    |a: ReceivedEntry, b: ReceivedEntry| a.modified_ns > b.modified_ns
}

/// The entries that are not in use, the latest first.
pub open spec fn idle_entries(entries: Seq<ReceivedEntry>, active: Seq<String>) -> Seq<
    ReceivedEntry,
> {
    order::sorted(entries.filter(|e: ReceivedEntry| !is_active(e, active)), latest_first())
}

/// An entry is too old.
pub open spec fn is_outdated(e: ReceivedEntry, now_ns: u64) -> bool {
    now_ns - e.modified_ns > BUNDLE_TTL_NS
}

/// The entries to remove among the first `n` of those that are not in use.
pub open spec fn removed_upto(idle: Seq<ReceivedEntry>, now_ns: u64, n: int) -> Seq<ReceivedEntry>
    decreases n,
{
    if n <= 0 {
        Seq::empty()
    } else {
        let rest = removed_upto(idle, now_ns, n - 1);
        if n - 1 >= MAX_RETAINED_BUNDLES || is_outdated(idle[n - 1], now_ns) {
            rest.push(idle[n - 1])
        } else {
            rest
        }
    }
}

/// The entries to remove.
pub open spec fn to_remove(
    entries: Seq<ReceivedEntry>,
    active: Seq<String>,
    now_ns: u64,
) -> Seq<ReceivedEntry> {
    let idle = idle_entries(entries, active);
    removed_upto(idle, now_ns, idle.len() as int)
}

fn is_in_use(path: &str, active: &Vec<String>) -> (found: bool)
    ensures
        found == protocol::texts(active@).contains(path@),
{
    let ghost all = protocol::texts(active@);
    let mut i: usize = 0;
    while i < active.len()
        invariant
            i <= active.len(),
            all == protocol::texts(active@),
            forall|j: int| 0 <= j < i ==> all[j] != path@,
        decreases active.len() - i,
    {
        assert(all[i as int] == active@[i as int]@);
        if same_text(&active[i], path) {
            return true;
        }
        i = i + 1;
    }
    false
}

/// Chooses what to remove from the receive directory: of the entries that are not
/// in use all but the latest few, and whatever is too old.
pub fn stale_bundles(entries: &Vec<ReceivedEntry>, active: &Vec<String>, now_ns: u64) -> (removed: Vec<
    ReceivedEntry,
>)
    ensures
        removed@ == to_remove(entries@, active@, now_ns),
{
    let ghost keep = |e: ReceivedEntry| !is_active(e, active@);
    let mut idle: Vec<ReceivedEntry> = Vec::new();
    let mut i: usize = 0;
    proof {
        reveal(Seq::filter);
    }
    assert(idle@ =~= entries@.take(0).filter(keep));
    while i < entries.len()
        invariant
            i <= entries.len(),
            keep == (|e: ReceivedEntry| !is_active(e, active@)),
            idle@ == entries@.take(i as int).filter(keep),
        decreases entries.len() - i,
    {
        proof {
            assert(entries@.take(i + 1) =~= entries@.take(i as int).push(entries@[i as int]));
            entries@.take(i as int).lemma_filter_push(entries@[i as int], keep);
        }
        if !is_in_use(&entries[i].path, active) {
            idle.push(entries[i].clone());
        }
        i = i + 1;
    }
    assert(entries@.take(i as int) =~= entries@);
    let is_before = |a: &ReceivedEntry, b: &ReceivedEntry| -> (r: bool)
        ensures
            r == (a.modified_ns > b.modified_ns),
        { a.modified_ns > b.modified_ns };
    stable_sort(&mut idle, is_before, Ghost(latest_first()));
    let mut removed: Vec<ReceivedEntry> = Vec::new();
    let mut k: usize = 0;
    while k < idle.len()
        invariant
            k <= idle.len(),
            removed@ == removed_upto(idle@, now_ns, k as int),
        decreases idle.len() - k,
    {
        let outdated = now_ns.saturating_sub(idle[k].modified_ns) > BUNDLE_TTL_NS;
        if k >= MAX_RETAINED_BUNDLES || outdated {
            removed.push(idle[k].clone());
        }
        k = k + 1;
    }
    removed
}

proof fn removed_are_idle(idle: Seq<ReceivedEntry>, now_ns: u64, n: int, e: ReceivedEntry)
    requires
        0 <= n <= idle.len(),
        removed_upto(idle, now_ns, n).contains(e),
    ensures
        idle.contains(e),
    decreases n,
{
    if n > 0 {
        let rest = removed_upto(idle, now_ns, n - 1);
        let whole = removed_upto(idle, now_ns, n);
        let k = whole.index_of(e);
        if k < rest.len() {
            assert(rest[k] == e);
            removed_are_idle(idle, now_ns, n - 1, e);
        } else {
            assert(idle[n - 1] == e);
        }
    }
}

/// What is in use is never removed.
pub proof fn active_bundles_are_never_removed(
    entries: Seq<ReceivedEntry>,
    active: Seq<String>,
    now_ns: u64,
    e: ReceivedEntry,
)
    requires
        to_remove(entries, active, now_ns).contains(e),
    ensures
        entries.contains(e),
        !is_active(e, active),
{
    let keep = |e: ReceivedEntry| !is_active(e, active);
    let idle = idle_entries(entries, active);
    removed_are_idle(idle, now_ns, idle.len() as int, e);
    order::sorted_contains(entries.filter(keep), latest_first(), e);
    entries.lemma_filter_contains_rev(keep, e);
    let i = entries.filter(keep).index_of(e);
    entries.lemma_filter_pred(keep, i);
}

proof fn removed_count(idle: Seq<ReceivedEntry>, now_ns: u64, n: int)
    requires
        0 <= n <= idle.len(),
    ensures
        removed_upto(idle, now_ns, n).len() >= n - MAX_RETAINED_BUNDLES,
        removed_upto(idle, now_ns, n).len() <= n,
    decreases n,
{
    if n > 0 {
        removed_count(idle, now_ns, n - 1);
    }
}

/// Beside what is in use, no more than a fixed number of bundles is kept.
pub proof fn few_idle_bundles_are_kept(
    entries: Seq<ReceivedEntry>,
    active: Seq<String>,
    now_ns: u64,
)
    ensures
        idle_entries(entries, active).len() - to_remove(entries, active, now_ns).len()
            <= MAX_RETAINED_BUNDLES,
{
    let idle = idle_entries(entries, active);
    removed_count(idle, now_ns, idle.len() as int);
}

proof fn traversal_is_found(s: Seq<char>, from: int, depth: nat, at: int)
    requires
        0 <= from <= at,
        from == 0 || s[from - 1] == '/',
        at + 2 <= s.len(),
        s.subrange(at, at + 2) == seq!['.', '.'],
        at == 0 || s[at - 1] == '/',
        at + 2 == s.len() || s[at + 2] == '/',
    ensures
        parts_error(s, from, depth) is Some,
    decreases s.len() - from,
{
    slash_is_ahead(s, from);
    let end = next_slash(s, from);
    slash_is_first(s, from);
    if from == at {
        assert(s[at] == s.subrange(at, at + 2)[0] && s[at + 1] == s.subrange(at, at + 2)[1]);
        assert(end == at + 2) by {
            assert(s[at] != '/' && s[at + 1] != '/');
            if end < at + 2 {
                assert(s[end] == '/');
            }
            if end > at + 2 {
                assert(s[at + 2] != '/');
            }
        }
        assert(s.subrange(from, end) =~= seq!['.', '.']);
        assert(s.subrange(from, end) != seq!['.']) by {
            assert(s.subrange(from, end).len() == 2);
        }
    } else {
        assert(end < at) by {
            if end >= at {
                assert(s[at - 1] != '/');
            }
        }
        assert(s[end] == '/');
        match part_of(s.subrange(from, end), from == 0) {
            None => traversal_is_found(s, end + 1, depth, at),
            Some(PathPart::Name(name)) => {
                if component_error(name) is None {
                    traversal_is_found(s, end + 1, depth + 1, at);
                }
            },
            Some(_) => {},
        }
    }
}

proof fn slash_is_first(s: Seq<char>, from: int)
    requires
        0 <= from <= s.len(),
    ensures
        forall|i: int| from <= i < next_slash(s, from) ==> s[i] != '/',
        next_slash(s, from) < s.len() ==> s[next_slash(s, from)] == '/',
    decreases s.len() - from,
{
    if from < s.len() && s[from] != '/' {
        slash_is_first(s, from + 1);
    }
}

/// A path that goes up anywhere, or starts at the root, is refused: nothing that is
/// received can leave its directory.
pub proof fn escaping_paths_are_refused(path: Seq<char>, at: int)
    requires
        (path.len() > 0 && path[0] == '/') || (0 <= at && at + 2 <= path.len() && path.subrange(
            at,
            at + 2,
        ) == seq!['.', '.'] && (at == 0 || path[at - 1] == '/') && (at + 2 == path.len()
            || path[at + 2] == '/')),
    ensures
        archive_path_error(path) is Some,
{
    if path.len() > 0 && path[0] == '/' {
        assert(path.subrange(0, 0) =~= Seq::<char>::empty());
        assert(next_slash(path, 0) == 0);
    } else {
        traversal_is_found(path, 0, 0, at);
    }
}

/// Names that differ in the case of ASCII letters alone never travel together.
pub proof fn names_differ_in_more_than_case(names: Seq<Seq<char>>, i: int, j: int)
    requires
        0 <= i < j < names.len(),
        text::is_ascii_text(names[i]),
        text::ascii_lowered(names[i]) == text::ascii_lowered(names[j]),
    ensures
        names_error(names) is Some,
{
    text::case_of_ascii_does_not_matter(names[i], names[j]);
    assert(is_repeated(names, j));
    repeated_names_are_refused(names, 0, j);
}

proof fn repeated_names_are_refused(names: Seq<Seq<char>>, k: int, j: int)
    requires
        0 <= k <= j < names.len(),
        is_repeated(names, j),
    ensures
        names_error_from(names, k) is Some,
    decreases j - k,
{
    if k < j {
        repeated_names_are_refused(names, k + 1, j);
    }
}

proof fn first_dot_is(s: Seq<char>, dot: int)
    requires
        0 <= dot <= s.len(),
        forall|i: int| 0 <= i < dot ==> #[trigger] s[i] != '.',
        dot < s.len() ==> s[dot] == '.',
    ensures
        first_dot(s) == dot,
    decreases s.len(),
{
    if dot > 0 {
        assert(s[0] != '.');
        let rest = s.skip(1);
        assert forall|i: int| 0 <= i < dot - 1 implies #[trigger] rest[i] != '.' by {
            assert(rest[i] == s[i + 1]);
        }
        first_dot_is(rest, dot - 1);
    }
}

proof fn trailing_blanks_go(s: Seq<char>, n: int)
    requires
        0 <= n <= s.len(),
        forall|i: int| n <= i < s.len() ==> #[trigger] s[i] == ' ',
        n > 0 ==> s[n - 1] != ' ' && s[n - 1] != '.',
    ensures
        without_trailing_dots(s) == s.take(n),
    decreases s.len(),
{
    if n < s.len() {
        assert(s[s.len() - 1] == ' ');
        let rest = s.drop_last();
        assert forall|i: int| n <= i < rest.len() implies #[trigger] rest[i] == ' ' by {
            assert(rest[i] == s[i]);
        }
        trailing_blanks_go(rest, n);
        assert(rest.take(n) =~= s.take(n));
    } else {
        assert(s.take(n) =~= s);
    }
}

/// A name of 1 to 255 bytes may travel if it holds neither control characters nor any of the
/// nine characters `< > : " / \ | ? *`, does not end in a blank or a dot, and is not that of a
/// Windows device. That is so if what stands before the first dot, blanks at its end left out,
/// is `CON`, `PRN`, `AUX` or `NUL`, or `COM` or `LPT` with a digit from 1 to 9, in whatever case.
/// Here the first dot is at place `dot`, and `n` characters stand before the blanks.
pub proof fn ordinary_names_may_travel(name: Seq<char>, dot: int, n: int)
    requires
        0 < name.len(),
        encode_utf8(name).len() <= 255,
        name.last() != ' ' && name.last() != '.',
        forall|i: int|
            0 <= i < name.len() ==> {
                let c = #[trigger] name[i];
                &&& 0x20 <= c as u32
                &&& !(0x7f <= c as u32 <= 0x9f)
                &&& c != '<' && c != '>' && c != ':' && c != '"' && c != '/'
                &&& c != '\\' && c != '|' && c != '?' && c != '*'
            },
        0 <= n <= dot <= name.len(),
        forall|i: int| 0 <= i < dot ==> #[trigger] name[i] != '.',
        dot < name.len() ==> name[dot] == '.',
        forall|i: int| n <= i < dot ==> #[trigger] name[i] == ' ',
        n > 0 ==> name[n - 1] != ' ',
    ensures
        ({
            let is = |i: int, capital: char, small: char| name[i] == capital || name[i] == small;
            component_error(name) is Some <==> {
                ||| n == 3 && is(0, 'C', 'c') && is(1, 'O', 'o') && is(2, 'N', 'n')
                ||| n == 3 && is(0, 'P', 'p') && is(1, 'R', 'r') && is(2, 'N', 'n')
                ||| n == 3 && is(0, 'A', 'a') && is(1, 'U', 'u') && is(2, 'X', 'x')
                ||| n == 3 && is(0, 'N', 'n') && is(1, 'U', 'u') && is(2, 'L', 'l')
                ||| n == 4 && ((is(0, 'C', 'c') && is(1, 'O', 'o') && is(2, 'M', 'm')) || (is(
                    0,
                    'L',
                    'l',
                ) && is(1, 'P', 'p') && is(2, 'T', 't'))) && ('1' <= name[3] <= '9' || name[3]
                    == '¹' || name[3] == '²' || name[3] == '³')
            }
        }),
{
    assert(!is_unportable(name)) by {
        if is_unportable(name) {
            let i = choose|i: int| 0 <= i < name.len() && is_forbidden(#[trigger] name[i]);
            assert(0x20 <= name[i] as u32);
        }
    }
    first_dot_is(name, dot);
    let head = name.take(dot);
    assert forall|i: int| n <= i < head.len() implies #[trigger] head[i] == ' ' by {
        assert(head[i] == name[i]);
    }
    if n > 0 {
        assert(head[n - 1] == name[n - 1]);
        assert(name[n - 1] != '.');
    }
    trailing_blanks_go(head, n);
    let upper = stem(name);
    assert(head.take(n) =~= name.take(n));
    assert(upper.len() == n);
    assert forall|i: int| 0 <= i < n implies upper[i] == text::ascii_upper(name[i]) by {}
    if n == 3 {
        assert(upper[0] == text::ascii_upper(name[0]));
        assert(upper[1] == text::ascii_upper(name[1]));
        assert(upper[2] == text::ascii_upper(name[2]));
        let con = seq!['C', 'O', 'N'];
        let prn = seq!['P', 'R', 'N'];
        let aux = seq!['A', 'U', 'X'];
        let nul = seq!['N', 'U', 'L'];
        assert(con[0] == 'C' && con[1] == 'O' && con[2] == 'N');
        assert(prn[0] == 'P' && prn[1] == 'R' && prn[2] == 'N');
        assert(aux[0] == 'A' && aux[1] == 'U' && aux[2] == 'X');
        assert(nul[0] == 'N' && nul[1] == 'U' && nul[2] == 'L');
        assert(upper =~= seq![upper[0], upper[1], upper[2]]);
    } else if n == 4 {
        assert(upper[0] == text::ascii_upper(name[0]));
        assert(upper[1] == text::ascii_upper(name[1]));
        assert(upper[2] == text::ascii_upper(name[2]));
        assert(upper[3] == text::ascii_upper(name[3]));
        let com = seq!['C', 'O', 'M'];
        let lpt = seq!['L', 'P', 'T'];
        assert(com[0] == 'C' && com[1] == 'O' && com[2] == 'M');
        assert(lpt[0] == 'L' && lpt[1] == 'P' && lpt[2] == 'T');
        assert(upper.take(3) =~= seq![upper[0], upper[1], upper[2]]);
        assert(upper.take(3)[0] == upper[0] && upper.take(3)[1] == upper[1] && upper.take(3)[2]
            == upper[2]);
    }
}

/// A name may not travel if it is empty, takes more than 255 bytes, ends in a blank or a dot,
/// or holds a control character or one of `< > : " / \ | ? *` anywhere.
pub proof fn unportable_names_are_refused(name: Seq<char>, i: int)
    requires
        ({
            ||| name.len() == 0
            ||| encode_utf8(name).len() > 255
            ||| name.last() == ' '
            ||| name.last() == '.'
            ||| 0 <= i < name.len() && ((name[i] as u32) < 0x20 || 0x7f <= name[i] as u32 <= 0x9f)
            ||| 0 <= i < name.len() && (name[i] == '<' || name[i] == '>' || name[i] == ':'
                || name[i] == '"' || name[i] == '/' || name[i] == '\\' || name[i] == '|'
                || name[i] == '?' || name[i] == '*')
        }),
    ensures
        component_error(name) == Some(
            ErrorView::Backend("archive path contains a non-portable component"@),
        ),
{
    if 0 < name.len() && encode_utf8(name).len() <= 255 && name.last() != ' ' && name.last()
        != '.' {
        assert(is_forbidden(name[i]));
    }
}

proof fn names_error_from_is_none(names: Seq<Seq<char>>, k: int)
    requires
        0 <= k <= names.len(),
    ensures
        names_error_from(names, k) is None <==> forall|i: int|
            k <= i < names.len() ==> component_error(#[trigger] names[i]) is None && !is_repeated(
                names,
                i,
            ),
    decreases names.len() - k,
{
    if k < names.len() {
        names_error_from_is_none(names, k + 1);
    }
}

/// From 1 to 256 names travel together exactly if each of them may travel alone and no two
/// are the same in lower case. How they are ordered, and what else they have in common,
/// does not matter.
pub proof fn different_names_travel_together(names: Seq<Seq<char>>)
    ensures
        names_error(names) is None <==> {
            &&& 1 <= names.len() <= 256
            &&& forall|i: int| 0 <= i < names.len() ==> component_error(#[trigger] names[i]) is None
            &&& forall|i: int, j: int|
                0 <= i < j < names.len() ==> text::lowered(#[trigger] names[i]) != text::lowered(
                    #[trigger] names[j],
                )
        },
{
    if 1 <= names.len() <= 256 {
        names_error_from_is_none(names, 0);
        if names_error(names) is None {
            assert forall|i: int, j: int| 0 <= i < j < names.len() implies text::lowered(
                #[trigger] names[i],
            ) != text::lowered(#[trigger] names[j]) by {
                assert(!is_repeated(names, j));
            }
        }
    }
}

/// Names one below the other, with slashes between them.
pub open spec fn joined(names: Seq<Seq<char>>) -> Seq<char>
    decreases names.len(),
{
    if names.len() == 0 {
        Seq::empty()
    } else if names.len() == 1 {
        names[0]
    } else {
        names[0] + seq!['/'] + joined(names.skip(1))
    }
}

proof fn next_slash_is(s: Seq<char>, from: int, to: int)
    requires
        0 <= from <= to <= s.len(),
        forall|i: int| from <= i < to ==> #[trigger] s[i] != '/',
        to < s.len() ==> s[to] == '/',
    ensures
        next_slash(s, from) == to,
    decreases to - from,
{
    if from < to {
        assert(s[from] != '/');
        next_slash_is(s, from + 1, to);
    }
}

proof fn portable_names_hold_no_slashes(name: Seq<char>)
    requires
        component_error(name) is None,
    ensures
        0 < name.len(),
        name != seq!['.'],
        name != seq!['.', '.'],
        forall|i: int| 0 <= i < name.len() ==> #[trigger] name[i] != '/' && name[i] != '\\',
{
    assert forall|i: int| 0 <= i < name.len() implies #[trigger] name[i] != '/' && name[i]
        != '\\' by {
        assert(!is_forbidden(name[i]));
    }
    assert(seq!['.'].last() == '.');
    assert(seq!['.', '.'].last() == '.');
}

proof fn joined_parts_are_found(s: Seq<char>, names: Seq<Seq<char>>, from: int, depth: nat)
    requires
        0 <= from <= s.len(),
        0 < names.len(),
        s.skip(from) == joined(names),
        forall|i: int| 0 <= i < names.len() ==> component_error(#[trigger] names[i]) is None,
    ensures
        parts_error(s, from, depth) == (if depth + names.len() > MAX_ARCHIVE_DEPTH {
            Some(ErrorView::Backend("archive entry depth exceeds limit"@))
        } else {
            None
        }),
    decreases names.len(),
{
    let name = names[0];
    portable_names_hold_no_slashes(name);
    let to = from + name.len();
    let tail = s.skip(from);
    assert(tail.len() == s.len() - from);
    assert(name.is_prefix_of(tail)) by {
        assert(tail.take(name.len() as int) =~= name);
    }
    if names.len() == 1 {
        assert(to == s.len());
    } else {
        let after = joined(names.skip(1));
        assert(tail == name + seq!['/'] + after);
        assert(tail.len() == name.len() + 1 + after.len());
        assert(tail[name.len() as int] == '/');
        assert(s[to as int] == '/');
    }
    assert forall|i: int| from <= i < to implies #[trigger] s[i] != '/' by {
        assert(tail[i - from] == s[i]);
        assert(tail[i - from] == name[i - from]);
    }
    next_slash_is(s, from, to as int);
    assert(s.subrange(from, to as int) =~= name) by {
        assert forall|i: int| 0 <= i < name.len() implies s.subrange(from, to as int)[i]
            == name[i] by {
            assert(tail[i] == s[from + i]);
        }
    }
    let rest = names.skip(1);
    if names.len() > 1 {
        assert(s.skip(to + 1) =~= joined(rest)) by {
            assert(s.skip(to + 1) =~= tail.skip(name.len() as int + 1));
        }
        assert forall|i: int| 0 <= i < rest.len() implies component_error(
            #[trigger] rest[i],
        ) is None by {
            assert(rest[i] == names[i + 1]);
        }
        joined_parts_are_found(s, rest, to + 1, depth + 1);
    }
}

proof fn joined_holds_no_backslash(names: Seq<Seq<char>>)
    requires
        forall|i: int| 0 <= i < names.len() ==> component_error(#[trigger] names[i]) is None,
    ensures
        !joined(names).contains('\\'),
        0 < names.len() ==> 0 < joined(names).len(),
    decreases names.len(),
{
    if names.len() > 0 {
        portable_names_hold_no_slashes(names[0]);
        let rest = names.skip(1);
        assert forall|i: int| 0 <= i < rest.len() implies component_error(
            #[trigger] rest[i],
        ) is None by {
            assert(rest[i] == names[i + 1]);
        }
        joined_holds_no_backslash(rest);
        let all = joined(names);
        assert forall|i: int| 0 <= i < all.len() implies #[trigger] all[i] != '\\' by {
            if i < names[0].len() {
                assert(all[i] == names[0][i]);
            } else if i > names[0].len() {
                assert(all[i] == joined(rest)[i - names[0].len() - 1]);
            }
        }
    }
}

/// A path of up to 32 names, each of which may travel, is accepted if it takes no more than
/// 4096 bytes; a deeper one is refused for its depth.
pub proof fn relative_paths_of_portable_names_are_accepted(names: Seq<Seq<char>>)
    requires
        0 < names.len(),
        encode_utf8(joined(names)).len() <= 4_096,
        forall|i: int| 0 <= i < names.len() ==> component_error(#[trigger] names[i]) is None,
    ensures
        names.len() <= 32 ==> archive_path_error(joined(names)) is None,
        names.len() > 32 ==> archive_path_error(joined(names)) == Some(
            ErrorView::Backend("archive entry depth exceeds limit"@),
        ),
{
    let path = joined(names);
    joined_holds_no_backslash(names);
    assert(path.skip(0) =~= path);
    joined_parts_are_found(path, names, 0, 0);
}

/// A path is refused if it is empty, takes more than 4096 bytes or holds a backslash.
pub proof fn overlong_paths_are_refused(path: Seq<char>, i: int)
    requires
        path.len() == 0 || encode_utf8(path).len() > 4_096 || (0 <= i < path.len() && path[i]
            == '\\'),
    ensures
        archive_path_error(path) == Some(
            ErrorView::Backend("invalid archive entry path length"@),
        ),
{
    if 0 <= i < path.len() && path[i] == '\\' {
        assert(path.contains('\\'));
    }
}

/// What goes by an identifier directly in the receive directory is a bundle of this
/// application, unless it is a link; what lies elsewhere is none.
pub proof fn bundles_are_known_by_place_and_name(id: Seq<u8>, kind: EntryKind, name: Option<Seq<char>>)
    requires
        id.len() == 16,
    ensures
        bundle_error(true, true, Some(uuid_text::hyphenated(id)), kind) is Some <==> kind
            == EntryKind::SymbolicLink,
        bundle_error(true, false, name, kind) is Some,
        bundle_error(false, true, name, kind) is Some,
        bundle_error(true, true, None, kind) is Some,
{
    uuid_text::hyphenated_is_read_back(id);
}

proof fn kept_unless(idle: Seq<ReceivedEntry>, now_ns: u64, n: int, i: int)
    requires
        0 <= i < n <= idle.len(),
        i >= 8 || now_ns - idle[i].modified_ns > 86_400_000_000_000,
    ensures
        removed_upto(idle, now_ns, n).contains(idle[i]),
    decreases n,
{
    let now = removed_upto(idle, now_ns, n);
    if i == n - 1 {
        assert(now.last() == idle[i]);
    } else {
        kept_unless(idle, now_ns, n - 1, i);
        let k = removed_upto(idle, now_ns, n - 1).index_of(idle[i]);
        assert(now[k] == idle[i]);
    }
}

proof fn removed_for_a_reason(idle: Seq<ReceivedEntry>, now_ns: u64, n: int, e: ReceivedEntry)
    requires
        0 <= n <= idle.len(),
        removed_upto(idle, now_ns, n).contains(e),
    ensures
        exists|i: int|
            0 <= i < n && #[trigger] idle[i] == e && (i >= 8 || now_ns - e.modified_ns
                > 86_400_000_000_000),
    decreases n,
{
    if n > 0 {
        let now = removed_upto(idle, now_ns, n);
        let before = removed_upto(idle, now_ns, n - 1);
        if before.contains(e) {
            removed_for_a_reason(idle, now_ns, n - 1, e);
        } else {
            let k = now.index_of(e);
            if k < before.len() {
                assert(before[k] == e);
            }
            assert(idle[n - 1] == e);
        }
    }
}

/// What is not in use is removed once it is more than a day old.
pub proof fn outdated_bundles_are_removed(
    entries: Seq<ReceivedEntry>,
    active: Seq<String>,
    now_ns: u64,
    e: ReceivedEntry,
)
    requires
        entries.contains(e),
        forall|i: int| 0 <= i < active.len() ==> (#[trigger] active[i])@ != e.path@,
        now_ns - e.modified_ns > 86_400_000_000_000,
    ensures
        to_remove(entries, active, now_ns).contains(e),
{
    let keep = |e: ReceivedEntry| !is_active(e, active);
    let idle = idle_entries(entries, active);
    assert(keep(e)) by {
        if protocol::texts(active).contains(e.path@) {
            let k = protocol::texts(active).index_of(e.path@);
            assert(active[k]@ == e.path@);
        }
    }
    entries.lemma_filter_contains(keep, entries.index_of(e));
    order::sorted_contains(entries.filter(keep), latest_first(), e);
    kept_unless(idle, now_ns, idle.len() as int, idle.index_of(e));
}

/// What is no more than a day old is removed only for want of room: eight entries that are not
/// in use, and that are no older, come before it. With eight entries or fewer nothing of that
/// age is removed.
pub proof fn recent_bundles_are_kept(
    entries: Seq<ReceivedEntry>,
    active: Seq<String>,
    now_ns: u64,
    e: ReceivedEntry,
)
    requires
        to_remove(entries, active, now_ns).contains(e),
        now_ns - e.modified_ns <= 86_400_000_000_000,
    ensures
        entries.len() > 8,
        idle_entries(entries, active).len() > 8,
        forall|k: int|
            0 <= k < 8 ==> (#[trigger] idle_entries(entries, active)[k]).modified_ns
                >= e.modified_ns,
{
    let keep = |e: ReceivedEntry| !is_active(e, active);
    let idle = idle_entries(entries, active);
    removed_for_a_reason(idle, now_ns, idle.len() as int, e);
    let i = choose|i: int|
        0 <= i < idle.len() && #[trigger] idle[i] == e && (i >= 8 || now_ns - e.modified_ns
            > 86_400_000_000_000);
    entries.lemma_filter_len(keep);
    order::sorted_keeps_elements(entries.filter(keep), latest_first());
    assert(order::is_ordering(latest_first()));
    order::sorted_is_in_order(entries.filter(keep), latest_first());
    assert forall|k: int| 0 <= k < 8 implies (#[trigger] idle[k]).modified_ns >= e.modified_ns by {
        assert(!latest_first()(idle[i], idle[k]));
    }
}

/// The entries that are not in use are all there, each as often as it was found.
pub proof fn idle_bundles_are_those_not_in_use(
    entries: Seq<ReceivedEntry>,
    active: Seq<String>,
    e: ReceivedEntry,
)
    ensures
        idle_entries(entries, active).contains(e) <==> entries.contains(e) && forall|i: int|
            0 <= i < active.len() ==> (#[trigger] active[i])@ != e.path@,
{
    let keep = |e: ReceivedEntry| !is_active(e, active);
    order::sorted_contains(entries.filter(keep), latest_first(), e);
    assert(keep(e) <==> forall|i: int| 0 <= i < active.len() ==> (#[trigger] active[i])@ != e.path@)
        by {
        if protocol::texts(active).contains(e.path@) {
            let k = protocol::texts(active).index_of(e.path@);
            assert(active[k]@ == e.path@);
        } else {
            assert forall|i: int| 0 <= i < active.len() implies (#[trigger] active[i])@
                != e.path@ by {
                assert(protocol::texts(active)[i] == active[i]@);
            }
        }
    }
    if entries.contains(e) && keep(e) {
        entries.lemma_filter_contains(keep, entries.index_of(e));
    }
    if entries.filter(keep).contains(e) {
        entries.lemma_filter_contains_rev(keep, e);
        entries.lemma_filter_pred(keep, entries.filter(keep).index_of(e));
    }
}

/// A path lies in a directory exactly if it starts with all parts of the directory; the directory
/// itself counts, its parent and its neighbours do not.
pub proof fn paths_lie_below_their_start(path: Seq<Vec<u8>>, root: Seq<Vec<u8>>, below: Seq<Vec<u8>>, i: int)
    ensures
        lies_in(root, root),
        lies_in(root + below, root),
        path.len() < root.len() ==> !lies_in(path, root),
        0 <= i < root.len() && i < path.len() && root[i]@ != path[i]@ ==> !lies_in(path, root),
{
}

} // verus!
