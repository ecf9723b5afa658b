//! The plain text of an HTML document, for programs that take no HTML.
//!
//! The document is read here and nowhere else: nothing that it refers to is loaded, and
//! neither scripts nor styles nor attributes reach the text.

use crate::text;
use crate::text::{chars_of, find_from, is_whitespace, lower_ascii, read_number, text_of, width_of};
use vstd::prelude::*;
use vstd::utf8::*;

verus! {

/// The longest plain text (8 MiB).
pub const MAX_PLAIN_FALLBACK_BYTES: usize = 8_388_608;

/// How many characters an entity takes at most.
pub const MAX_ENTITY_CHARS: usize = 16;

/// White space inside a tag.
pub open spec fn is_tag_white(c: char) -> bool {
    c == ' ' || c == '\t' || c == '\n' || c == '\u{c}' || c == '\r'
}

/// A letter that a tag's name can start with.
pub open spec fn is_letter(c: char) -> bool {
    'a' <= c <= 'z' || 'A' <= c <= 'Z'
}

/// A character of a tag's name.
pub open spec fn is_name_char(c: char) -> bool {
    is_letter(c) || '0' <= c <= '9' || c == '-' || c == ':'
}

/// Where white space that starts at a place ends.
pub open spec fn white_end(s: Seq<char>, from: int) -> int
    decreases s.len() - from,
{
    if 0 <= from < s.len() && is_tag_white(s[from]) {
        white_end(s, from + 1)
    } else {
        from
    }
}

/// Where a name that starts at a place ends.
pub open spec fn name_end(s: Seq<char>, from: int) -> int
    decreases s.len() - from,
{
    if 0 <= from < s.len() && is_name_char(s[from]) {
        name_end(s, from + 1)
    } else {
        from
    }
}

/// Where the bracket stands that closes a tag; one inside quotes does not count.
pub open spec fn tag_end(s: Seq<char>, from: int, quote: Option<char>) -> Option<int>
    decreases s.len() - from,
{
    if from < 0 || from >= s.len() {
        None
    } else {
        let c = s[from];
        if quote is Some {
            tag_end(
                s,
                from + 1,
                if quote == Some(c) {
                    None
                } else {
                    quote
                },
            )
        } else if c == '\'' || c == '"' {
            tag_end(s, from + 1, Some(c))
        } else if c == '>' {
            Some(from)
        } else {
            tag_end(s, from + 1, None)
        }
    }
}

/// A tag.
pub struct Tag {
    pub name: Seq<char>,
    pub closing: bool,
    /// Where its last character stands.
    pub end: int,
}

/// The tag at a place closes an element.
pub open spec fn is_closing(s: Seq<char>, at: int) -> bool {
    at + 1 < s.len() && s[at + 1] == '/'
}

/// Where the name of the tag at a place starts.
pub open spec fn name_start(s: Seq<char>, at: int) -> int {
    white_end(
        s,
        if is_closing(s, at) {
            at + 2
        } else {
            at + 1
        },
    )
}

/// A tag starts at a place.
pub open spec fn starts_tag(s: Seq<char>, at: int) -> bool {
    name_start(s, at) < s.len() && is_letter(s[name_start(s, at)])
}

/// The tag at a place.
pub open spec fn tag_at(s: Seq<char>, at: int) -> Option<Tag> {
    let start = name_start(s, at);
    if !starts_tag(s, at) {
        None
    } else {
        match tag_end(s, name_end(s, start), None) {
            Some(end) => Some(
                Tag {
                    name: s.subrange(start, name_end(s, start)),
                    closing: is_closing(s, at),
                    end,
                },
            ),
            None => None,
        }
    }
}

/// The element of a tag holds no text.
pub open spec fn is_raw(name: Seq<char>) -> bool {
    let n = text::ascii_lowered(name);
    n == "script"@ || n == "style"@
}

/// A tag starts a new line.
pub open spec fn is_block(name: Seq<char>) -> bool {
    let n = text::ascii_lowered(name);
    ||| n == "blockquote"@
    ||| n == "br"@
    ||| n == "div"@
    ||| n == "h1"@
    ||| n == "h2"@
    ||| n == "h3"@
    ||| n == "h4"@
    ||| n == "h5"@
    ||| n == "h6"@
    ||| n == "hr"@
    ||| n == "li"@
    ||| n == "ol"@
    ||| n == "p"@
    ||| n == "pre"@
    ||| n == "table"@
    ||| n == "td"@
    ||| n == "th"@
    ||| n == "tr"@
    ||| n == "ul"@
}

/// Where an element without text ends: behind its closing tag, or with the document.
pub open spec fn raw_end(s: Seq<char>, from: int, name: Seq<char>) -> int
    decreases s.len() - from,
{
    if from < 0 || from >= s.len() {
        s.len() as int
    } else {
        proof {
            text::first_at_is_first(s, seq!['<', '/'], from);
        }
        match text::first_at(s, seq!['<', '/'], from) {
            None => s.len() as int,
            Some(at) => match tag_at(s, at) {
                Some(tag) => if tag.closing && text::ascii_lowered(tag.name)
                    == text::ascii_lowered(name) {
                    tag.end + 1
                } else {
                    raw_end(s, at + 2, name)
                },
                None => raw_end(s, at + 2, name),
            },
        }
    }
}

/// The character of a code, where there is one.
pub open spec fn char_of(code: Option<int>) -> Option<char> {
    match code {
        Some(n) => if 0xd800 <= n <= 0xdfff || n > 0x10ffff {
            None
        } else {
            Some(n as char)
        },
        None => None,
    }
}

/// The character that an entity stands for.
pub open spec fn entity_char(name: Seq<char>) -> Option<char> {
    let n = text::ascii_lowered(name);
    if n == "amp"@ {
        Some('&')
    } else if n == "apos"@ {
        Some('\'')
    } else if n == "gt"@ {
        Some('>')
    } else if n == "lt"@ {
        Some('<')
    } else if n == "nbsp"@ {
        Some('\u{a0}')
    } else if n == "quot"@ {
        Some('"')
    } else if name.len() >= 2 && name[0] == '#' && (name[1] == 'x' || name[1] == 'X') {
        char_of(text::number_in(name.skip(2), 16, u32::MAX as int))
    } else if name.len() >= 1 && name[0] == '#' {
        char_of(text::number_in(name.skip(1), 10, u32::MAX as int))
    } else {
        None
    }
}

/// Where the semicolon of an entity stands that starts at a place, counted from there.
pub open spec fn semicolon(s: Seq<char>, at: int, k: int) -> Option<int>
    decreases MAX_ENTITY_CHARS - k,
{
    if k >= MAX_ENTITY_CHARS || at + k >= s.len() {
        None
    } else if s[at + k] == ';' {
        Some(k)
    } else {
        semicolon(s, at, k + 1)
    }
}

/// The character that the entity at a place stands for, and the entity's length.
pub open spec fn entity_at(s: Seq<char>, at: int) -> Option<(char, int)> {
    match semicolon(s, at, 1) {
        Some(k) => match entity_char(s.subrange(at + 1, at + k)) {
            Some(c) => Some((c, k + 1)),
            None => None,
        },
        None => None,
    }
}

/// What a part of a document is.
pub enum Piece {
    /// Markup without a trace in the text.
    Nothing,
    /// Markup that starts a new line.
    Break,
    /// A character of the text.
    Character(char),
    /// Markup that does not end.
    Unfinished,
}

/// The part of a document that starts at a place, and where the next one starts.
pub open spec fn piece_at(s: Seq<char>, at: int) -> (Piece, int) {
    if s[at] == '<' && text::stands_at(s, seq!['<', '!', '-', '-'], at) {
        match text::first_at(s, seq!['-', '-', '>'], at + 4) {
            Some(end) => (Piece::Nothing, end + 3),
            None => (Piece::Unfinished, at + 1),
        }
    } else if s[at] == '<' && at + 1 < s.len() && (s[at + 1] == '!' || s[at + 1] == '?') {
        match tag_end(s, at + 2, None) {
            Some(end) => (Piece::Nothing, end + 1),
            None => (Piece::Unfinished, at + 1),
        }
    } else if s[at] == '<' && tag_at(s, at) is Some {
        let tag = tag_at(s, at)->Some_0;
        if !tag.closing && is_raw(tag.name) {
            (Piece::Break, raw_end(s, tag.end + 1, tag.name))
        } else if is_block(tag.name) {
            (Piece::Break, tag.end + 1)
        } else {
            (Piece::Nothing, tag.end + 1)
        }
    } else if s[at] == '<' && starts_tag(s, at) {
        (Piece::Unfinished, at + 1)
    } else if s[at] == '&' && entity_at(s, at) is Some {
        let found = entity_at(s, at)->Some_0;
        (Piece::Character(found.0), at + found.1)
    } else {
        (Piece::Character(s[at]), at + 1)
    }
}

/// A text that is being put together.
#[verifier::ext_equal]
pub struct PlainState {
    pub output: Seq<char>,
    /// White space came that is not yet in the text.
    pub pending_space: bool,
    /// There is no room for the character that came last.
    pub full: bool,
}

/// A text without characters.
pub open spec fn empty_text(limit: int) -> PlainState {
    PlainState { output: Seq::empty(), pending_space: false, full: limit == 0 }
}

/// The text is inside a line.
pub open spec fn in_line(output: Seq<char>) -> bool {
    output.len() > 0 && output.last() != '\n'
}

/// A text after one more character. White space becomes one blank, and none at the
/// start of a line.
pub open spec fn with_char(st: PlainState, c: char, limit: int) -> PlainState {
    let spaced = if st.pending_space {
        st.output.push(' ')
    } else {
        st.output
    };
    if text::is_white(c) {
        PlainState { pending_space: in_line(st.output), ..st }
    } else if encode_utf8(spaced.push(c)).len() > limit {
        PlainState { full: true, ..st }
    } else {
        PlainState { output: spaced.push(c), pending_space: false, ..st }
    }
}

/// A text after the end of a line.
pub open spec fn with_break(st: PlainState, limit: int) -> PlainState {
    if !in_line(st.output) {
        PlainState { pending_space: false, ..st }
    } else if encode_utf8(st.output).len() == limit {
        PlainState { pending_space: false, full: true, ..st }
    } else {
        PlainState { output: st.output.push('\n'), pending_space: false, ..st }
    }
}

/// A text after a part of a document.
pub open spec fn with_piece(st: PlainState, piece: Piece, limit: int) -> PlainState {
    match piece {
        Piece::Break => with_break(st, limit),
        Piece::Character(c) => with_char(st, c, limit),
        _ => st,
    }
}

/// The parts of a document follow each other.
pub proof fn pieces_advance(s: Seq<char>, at: int)
    requires
        0 <= at < s.len(),
    ensures
        at < piece_at(s, at).1 <= s.len(),
{
    if text::stands_at(s, seq!['<', '!', '-', '-'], at) {
        text::first_at_is_first(s, seq!['-', '-', '>'], at + 4);
    }
    tag_end_is_ahead(s, at + 2, None);
    if tag_at(s, at) is Some {
        let tag = tag_at(s, at)->Some_0;
        tag_is_ahead(s, at);
        raw_end_is_ahead(s, tag.end + 1, tag.name);
    }
    if entity_at(s, at) is Some {
        semicolon_is_ahead(s, at, 1);
    }
}

proof fn tag_end_is_ahead(s: Seq<char>, from: int, quote: Option<char>)
    ensures
        match tag_end(s, from, quote) {
            Some(end) => from <= end < s.len(),
            None => true,
        },
    decreases s.len() - from,
{
    if 0 <= from < s.len() {
        let c = s[from];
        tag_end_is_ahead(s, from + 1, None);
        tag_end_is_ahead(s, from + 1, Some(c));
        tag_end_is_ahead(s, from + 1, quote);
    }
}

proof fn ends_are_ahead(s: Seq<char>, from: int)
    ensures
        from <= white_end(s, from),
        from <= name_end(s, from),
        from <= s.len() ==> white_end(s, from) <= s.len() && name_end(s, from) <= s.len(),
    decreases s.len() - from,
{
    if 0 <= from < s.len() {
        ends_are_ahead(s, from + 1);
    }
}

proof fn tag_is_ahead(s: Seq<char>, at: int)
    requires
        0 <= at < s.len(),
    ensures
        at < name_start(s, at),
        match tag_at(s, at) {
            Some(tag) => at < tag.end < s.len(),
            None => true,
        },
{
    let start = name_start(s, at);
    ends_are_ahead(s, at + 1);
    ends_are_ahead(s, at + 2);
    ends_are_ahead(s, start);
    tag_end_is_ahead(s, name_end(s, start), None);
}

proof fn raw_end_is_ahead(s: Seq<char>, from: int, name: Seq<char>)
    requires
        0 <= from <= s.len(),
    ensures
        from <= raw_end(s, from, name) <= s.len(),
    decreases s.len() - from,
{
    if from < s.len() {
        text::first_at_is_first(s, seq!['<', '/'], from);
        match text::first_at(s, seq!['<', '/'], from) {
            None => {},
            Some(at) => {
                tag_is_ahead(s, at);
                raw_end_is_ahead(s, at + 2, name);
            },
        }
    }
}

proof fn semicolon_is_ahead(s: Seq<char>, at: int, k: int)
    ensures
        match semicolon(s, at, k) {
            Some(i) => k <= i < MAX_ENTITY_CHARS && at + i < s.len(),
            None => true,
        },
    decreases MAX_ENTITY_CHARS - k,
{
    if k < MAX_ENTITY_CHARS && at + k < s.len() && s[at + k] != ';' {
        semicolon_is_ahead(s, at, k + 1);
    }
}

/// A text after the rest of a document from a place on.
pub open spec fn text_from(s: Seq<char>, at: int, st: PlainState, limit: int) -> PlainState
    decreases s.len() - at,
{
    if at < 0 || at >= s.len() || st.full {
        st
    } else {
        proof {
            pieces_advance(s, at);
        }
        match piece_at(s, at).0 {
            Piece::Unfinished => st,
            piece => text_from(s, piece_at(s, at).1, with_piece(st, piece, limit), limit),
        }
    }
}

/// A text without the blanks and ends of lines at its end.
pub open spec fn without_trailing_breaks(s: Seq<char>) -> Seq<char>
    decreases s.len(),
{
    if s.len() > 0 && (s.last() == ' ' || s.last() == '\n') {
        without_trailing_breaks(s.drop_last())
    } else {
        s
    }
}

/// The plain text of a document.
pub open spec fn plain_of(html: Seq<char>, limit: int) -> Seq<char> {
    without_trailing_breaks(text_from(html, 0, empty_text(limit), limit).output)
}

fn tag_white(c: char) -> (white: bool)
    ensures
        white == is_tag_white(c),
{
    c == ' ' || c == '\t' || c == '\n' || c == '\u{c}' || c == '\r'
}

fn letter(c: char) -> (yes: bool)
    ensures
        yes == is_letter(c),
{
    ('a' <= c && c <= 'z') || ('A' <= c && c <= 'Z')
}

fn name_char(c: char) -> (yes: bool)
    ensures
        yes == is_name_char(c),
{
    letter(c) || ('0' <= c && c <= '9') || c == '-' || c == ':'
}

fn find_tag_end(chars: &Vec<char>, from: usize) -> (end: Option<usize>)
    ensures
        match end {
            Some(e) => tag_end(chars@, from as int, None) == Some(e as int) && e < chars.len(),
            None => tag_end(chars@, from as int, None) is None,
        },
{
    let mut i: usize = from;
    let mut quote: Option<char> = None;
    while i < chars.len()
        invariant
            from <= i,
            tag_end(chars@, from as int, None) == tag_end(chars@, i as int, quote),
        decreases chars.len() - i,
    {
        let c = chars[i];
        match quote {
            Some(expected) => {
                if expected == c {
                    quote = None;
                }
            },
            None => {
                if c == '\'' || c == '"' {
                    quote = Some(c);
                } else if c == '>' {
                    return Some(i);
                }
            },
        }
        i = i + 1;
    }
    None
}

/// A tag that was read.
struct TagPlace {
    name_start: usize,
    name_end: usize,
    closing: bool,
    end: usize,
}

fn find_name_start(chars: &Vec<char>, at: usize) -> (start: usize)
    requires
        at < chars.len(),
    ensures
        start == name_start(chars@, at as int),
        at < start <= chars.len(),
{
    let mut i: usize = at + 1;
    if i < chars.len() && chars[i] == '/' {
        i = i + 1;
    }
    while i < chars.len() && tag_white(chars[i])
        invariant
            at < i <= chars.len(),
            name_start(chars@, at as int) == white_end(chars@, i as int),
        decreases chars.len() - i,
    {
        i = i + 1;
    }
    i
}

fn parse_html_tag(chars: &Vec<char>, at: usize) -> (tag: Option<TagPlace>)
    requires
        at < chars.len(),
    ensures
        match tag {
            Some(t) => t.name_start <= t.name_end <= chars.len() && t.end < chars.len() && tag_at(
                chars@,
                at as int,
            ) == Some(
                (Tag {
                    name: chars@.subrange(t.name_start as int, t.name_end as int),
                    closing: t.closing,
                    end: t.end as int,
                }),
            ),
            None => tag_at(chars@, at as int) is None,
        },
{
    let name_start: usize = find_name_start(chars, at);
    if name_start >= chars.len() || !letter(chars[name_start]) {
        return None;
    }
    let mut name_end: usize = name_start;
    while name_end < chars.len() && name_char(chars[name_end])
        invariant
            name_start <= name_end <= chars.len(),
            self::name_end(chars@, name_start as int) == self::name_end(chars@, name_end as int),
        decreases chars.len() - name_end,
    {
        name_end = name_end + 1;
    }
    match find_tag_end(chars, name_end) {
        Some(end) => Some(
            TagPlace {
                name_start,
                name_end,
                closing: at + 1 < chars.len() && chars[at + 1] == '/',
                end,
            },
        ),
        None => None,
    }
}

fn is_word(chars: &Vec<char>, from: usize, to: usize, word: &str) -> (same: bool)
    requires
        from <= to <= chars.len(),
    ensures
        same == (text::ascii_lowered(chars@.subrange(from as int, to as int)) == word@),
{
    let letters = chars_of(word);
    let ghost lowered = text::ascii_lowered(chars@.subrange(from as int, to as int));
    if letters.len() != to - from {
        return false;
    }
    let mut i: usize = 0;
    while i < letters.len()
        invariant
            i <= letters.len() == to - from,
            from <= to <= chars.len(),
            letters@ == word@,
            lowered == text::ascii_lowered(chars@.subrange(from as int, to as int)),
            forall|j: int| 0 <= j < i ==> lowered[j] == letters@[j],
        decreases letters.len() - i,
    {
        assert(lowered[i as int] == text::ascii_lower(chars@[from + i]));
        if lower_ascii(chars[from + i]) != letters[i] {
            return false;
        }
        i = i + 1;
    }
    assert(lowered =~= word@);
    true
}

fn same_name(chars: &Vec<char>, a: usize, a_end: usize, b: usize, b_end: usize) -> (same: bool)
    requires
        a <= a_end <= chars.len(),
        b <= b_end <= chars.len(),
    ensures
        same == (text::ascii_lowered(chars@.subrange(a as int, a_end as int))
            == text::ascii_lowered(chars@.subrange(b as int, b_end as int))),
{
    let ghost left = text::ascii_lowered(chars@.subrange(a as int, a_end as int));
    let ghost right = text::ascii_lowered(chars@.subrange(b as int, b_end as int));
    if a_end - a != b_end - b {
        assert(left.len() != right.len());
        return false;
    }
    let mut i: usize = 0;
    while i < a_end - a
        invariant
            i <= a_end - a == b_end - b,
            a <= a_end <= chars.len(),
            b <= b_end <= chars.len(),
            left == text::ascii_lowered(chars@.subrange(a as int, a_end as int)),
            right == text::ascii_lowered(chars@.subrange(b as int, b_end as int)),
            forall|j: int| 0 <= j < i ==> left[j] == right[j],
        decreases a_end - a - i,
    {
        assert(left[i as int] == text::ascii_lower(chars@[a + i]));
        assert(right[i as int] == text::ascii_lower(chars@[b + i]));
        if lower_ascii(chars[a + i]) != lower_ascii(chars[b + i]) {
            return false;
        }
        i = i + 1;
    }
    assert(left =~= right);
    true
}

fn is_raw_html_tag(chars: &Vec<char>, from: usize, to: usize) -> (raw: bool)
    requires
        from <= to <= chars.len(),
    ensures
        raw == is_raw(chars@.subrange(from as int, to as int)),
{
    is_word(chars, from, to, "script") || is_word(chars, from, to, "style")
}

fn is_block_html_tag(chars: &Vec<char>, from: usize, to: usize) -> (block: bool)
    requires
        from <= to <= chars.len(),
    ensures
        block == is_block(chars@.subrange(from as int, to as int)),
{
    is_word(chars, from, to, "blockquote") || is_word(chars, from, to, "br") || is_word(
        chars,
        from,
        to,
        "div",
    ) || is_word(chars, from, to, "h1") || is_word(chars, from, to, "h2") || is_word(
        chars,
        from,
        to,
        "h3",
    ) || is_word(chars, from, to, "h4") || is_word(chars, from, to, "h5") || is_word(
        chars,
        from,
        to,
        "h6",
    ) || is_word(chars, from, to, "hr") || is_word(chars, from, to, "li") || is_word(
        chars,
        from,
        to,
        "ol",
    ) || is_word(chars, from, to, "p") || is_word(chars, from, to, "pre") || is_word(
        chars,
        from,
        to,
        "table",
    ) || is_word(chars, from, to, "td") || is_word(chars, from, to, "th") || is_word(
        chars,
        from,
        to,
        "tr",
    ) || is_word(chars, from, to, "ul")
}

fn skip_raw_html_element(chars: &Vec<char>, from: usize, name_start: usize, name_end: usize) -> (end:
    usize)
    requires
        from <= chars.len(),
        name_start <= name_end <= chars.len(),
    ensures
        end == raw_end(
            chars@,
            from as int,
            chars@.subrange(name_start as int, name_end as int),
        ),
        end <= chars.len(),
{
    let ghost name = chars@.subrange(name_start as int, name_end as int);
    let marker: Vec<char> = vec!['<', '/'];
    assert(marker@ =~= seq!['<', '/']);
    let mut i: usize = from;
    while i < chars.len()
        invariant
            i <= chars.len(),
            marker@ == seq!['<', '/'],
            name_start <= name_end <= chars.len(),
            name == chars@.subrange(name_start as int, name_end as int),
            raw_end(chars@, from as int, name) == raw_end(chars@, i as int, name),
        decreases chars.len() - i,
    {
        proof {
            text::first_at_is_first(chars@, marker@, i as int);
        }
        let at: usize = match find_from(chars, &marker, i) {
            Some(at) => at,
            None => return chars.len(),
        };
        if let Some(tag) = parse_html_tag(chars, at) {
            if tag.closing && same_name(chars, tag.name_start, tag.name_end, name_start, name_end) {
                return tag.end + 1;
            }
        }
        i = at + 2;
    }
    chars.len()
}

fn character_of(code: u64) -> (found: Option<char>)
    requires
        code <= 0xffff_ffff,
    ensures
        found == char_of(Some(code as int)),
{
    let found = char::from_u32(code as u32);
    proof {
        if let Some(c) = found {
            assert(c == (code as int) as char);
        }
    }
    found
}

fn decode_entity_name(chars: &Vec<char>, from: usize, to: usize) -> (decoded: Option<char>)
    requires
        from <= to <= chars.len(),
    ensures
        decoded == entity_char(chars@.subrange(from as int, to as int)),
{
    let ghost name = chars@.subrange(from as int, to as int);
    if is_word(chars, from, to, "amp") {
        return Some('&');
    }
    if is_word(chars, from, to, "apos") {
        return Some('\'');
    }
    if is_word(chars, from, to, "gt") {
        return Some('>');
    }
    if is_word(chars, from, to, "lt") {
        return Some('<');
    }
    if is_word(chars, from, to, "nbsp") {
        return Some('\u{a0}');
    }
    if is_word(chars, from, to, "quot") {
        return Some('"');
    }
    if to - from >= 2 && chars[from] == '#' && (chars[from + 1] == 'x' || chars[from + 1] == 'X') {
        assert(name.skip(2) =~= chars@.subrange(from + 2, to as int));
        return match read_number(chars, from + 2, to, 16, 0xffff_ffff) {
            Some(code) => character_of(code),
            None => None,
        };
    }
    if to - from >= 1 && chars[from] == '#' {
        assert(name.skip(1) =~= chars@.subrange(from + 1, to as int));
        return match read_number(chars, from + 1, to, 10, 0xffff_ffff) {
            Some(code) => character_of(code),
            None => None,
        };
    }
    None
}

/// The character that the entity at a place stands for, and the entity's length.
fn decode_html_entity(chars: &Vec<char>, at: usize) -> (decoded: Option<(char, usize)>)
    requires
        at < chars.len(),
    ensures
        match decoded {
            Some((c, length)) => entity_at(chars@, at as int) == Some((c, length as int))
                && length <= MAX_ENTITY_CHARS,
            None => entity_at(chars@, at as int) is None,
        },
{
    let mut k: usize = 1;
    while k < MAX_ENTITY_CHARS && k < chars.len() - at && chars[at + k] != ';'
        invariant
            1 <= k <= MAX_ENTITY_CHARS,
            at < chars.len(),
            semicolon(chars@, at as int, 1) == semicolon(chars@, at as int, k as int),
        decreases MAX_ENTITY_CHARS - k,
    {
        k = k + 1;
    }
    if k >= MAX_ENTITY_CHARS || k >= chars.len() - at {
        return None;
    }
    match decode_entity_name(chars, at + 1, at + k) {
        Some(c) => Some((c, k + 1)),
        None => None,
    }
}

/// Puts a text together.
struct PlainTextBuilder {
    output: Vec<char>,
    output_bytes: usize,
    limit: usize,
    pending_space: bool,
    full: bool,
}

impl PlainTextBuilder {
    spec fn state(&self) -> PlainState {
        PlainState { output: self.output@, pending_space: self.pending_space, full: self.full }
    }

    spec fn wf(&self) -> bool {
        self.output_bytes == encode_utf8(self.output@).len() && self.output_bytes <= self.limit
    }

    fn new(limit: usize) -> (builder: Self)
        ensures
            builder.wf(),
            builder.limit == limit,
            builder.state() == empty_text(limit as int),
    {
        let builder = PlainTextBuilder {
            output: Vec::new(),
            output_bytes: 0,
            limit,
            pending_space: false,
            full: limit == 0,
        };
        assert(builder.output@ =~= Seq::empty());
        builder
    }

    fn is_in_line(&self) -> (inside: bool)
        ensures
            inside == in_line(self.output@),
    {
        self.output.len() > 0 && self.output[self.output.len() - 1] != '\n'
    }

    fn push_char(&mut self, c: char)
        requires
            old(self).wf(),
        ensures
            final(self).wf(),
            final(self).limit == old(self).limit,
            final(self).state() == with_char(old(self).state(), c, old(self).limit as int),
    {
        if is_whitespace(c) {
            self.pending_space = self.is_in_line();
            return;
        }
        let ghost before = self.output@;
        proof {
            push_width(before, ' ');
            push_width(before, c);
            push_width(before.push(' '), c);
        }
        let separator: usize = if self.pending_space {
            1
        } else {
            0
        };
        let required: usize = separator + width_of(c);
        if required > self.limit - self.output_bytes {
            self.full = true;
            return;
        }
        if self.pending_space {
            self.output.push(' ');
            self.pending_space = false;
        }
        self.output.push(c);
        self.output_bytes = self.output_bytes + required;
    }

    fn push_break(&mut self)
        requires
            old(self).wf(),
        ensures
            final(self).wf(),
            final(self).limit == old(self).limit,
            final(self).state() == with_break(old(self).state(), old(self).limit as int),
    {
        self.pending_space = false;
        if self.is_in_line() {
            if self.output_bytes == self.limit {
                self.full = true;
            } else {
                proof {
                    push_width(self.output@, '\n');
                }
                self.output.push('\n');
                self.output_bytes = self.output_bytes + 1;
            }
        }
    }

    fn finish(self) -> (text: String)
        ensures
            text@ == without_trailing_breaks(self.output@),
    {
        let mut end: usize = self.output.len();
        assert(self.output@.take(end as int) =~= self.output@);
        while end > 0 && (self.output[end - 1] == ' ' || self.output[end - 1] == '\n')
            invariant
                end <= self.output.len(),
                without_trailing_breaks(self.output@) == without_trailing_breaks(
                    self.output@.take(end as int),
                ),
            decreases end,
        {
            assert(self.output@.take(end as int).drop_last() =~= self.output@.take(end - 1));
            end = end - 1;
        }
        let text = text_of(&self.output, 0, end);
        assert(text@ =~= self.output@.take(end as int));
        text
    }
}

proof fn push_width(s: Seq<char>, c: char)
    ensures
        encode_utf8(s.push(c)).len() == encode_utf8(s).len() + text::char_width(c),
        c == ' ' || c == '\n' ==> text::char_width(c) == 1,
{
    text::encode_concat(s, seq![c]);
    assert(s + seq![c] =~= s.push(c));
    assert(seq![c].drop_first() =~= Seq::<char>::empty());
    reveal_with_fuel(encode_utf8, 2);
}

/// Makes plain text of an HTML document, cut at a number of bytes.
pub fn html_to_plain_bounded(html: &str, output_limit: usize) -> (plain: String)
    ensures
        plain@ == plain_of(html@, output_limit as int),
{
    let chars = chars_of(html);
    let comment_start: Vec<char> = vec!['<', '!', '-', '-'];
    let comment_end: Vec<char> = vec!['-', '-', '>'];
    assert(comment_start@ =~= seq!['<', '!', '-', '-']);
    assert(comment_end@ =~= seq!['-', '-', '>']);
    let mut output = PlainTextBuilder::new(output_limit);
    let mut cursor: usize = 0;
    let ghost whole = text_from(html@, 0, empty_text(output_limit as int), output_limit as int);
    while cursor < chars.len() && !output.full
        invariant_except_break
            whole == text_from(html@, cursor as int, output.state(), output_limit as int),
        invariant
            cursor <= chars.len(),
            chars@ == html@,
            comment_start@ == seq!['<', '!', '-', '-'],
            comment_end@ == seq!['-', '-', '>'],
            output.wf(),
            output.limit == output_limit,
            whole == text_from(html@, 0, empty_text(output_limit as int), output_limit as int),
        ensures
            output.output@ == whole.output,
        decreases chars.len() - cursor,
    {
        proof {
            pieces_advance(html@, cursor as int);
        }
        if chars[cursor] == '<' {
            if text::is_at(&chars, &comment_start, cursor) {
                match find_from(&chars, &comment_end, cursor + 4) {
                    Some(end) => {
                        cursor = end + 3;
                    },
                    None => {
                        break ;
                    },
                }
                continue ;
            }
            if cursor + 1 < chars.len() && (chars[cursor + 1] == '!' || chars[cursor + 1] == '?') {
                match find_tag_end(&chars, cursor + 2) {
                    Some(end) => {
                        cursor = end + 1;
                    },
                    None => {
                        break ;
                    },
                }
                continue ;
            }
            if let Some(tag) = parse_html_tag(&chars, cursor) {
                let is_raw_element = !tag.closing && is_raw_html_tag(
                    &chars,
                    tag.name_start,
                    tag.name_end,
                );
                if is_raw_element || is_block_html_tag(&chars, tag.name_start, tag.name_end) {
                    output.push_break();
                }
                if is_raw_element {
                    cursor = skip_raw_html_element(
                        &chars,
                        tag.end + 1,
                        tag.name_start,
                        tag.name_end,
                    );
                } else {
                    cursor = tag.end + 1;
                }
                continue ;
            }
            let start: usize = find_name_start(&chars, cursor);
            if start < chars.len() && letter(chars[start]) {
                break ;
            }
        }
        if chars[cursor] == '&' {
            if let Some((decoded, length)) = decode_html_entity(&chars, cursor) {
                output.push_char(decoded);
                cursor = cursor + length;
                continue ;
            }
        }
        output.push_char(chars[cursor]);
        cursor = cursor + 1;
    }
    output.finish()
}

proof fn text_stays_within(s: Seq<char>, at: int, st: PlainState, limit: int)
    requires
        encode_utf8(st.output).len() <= limit,
    ensures
        encode_utf8(text_from(s, at, st, limit).output).len() <= limit,
    decreases s.len() - at,
{
    if 0 <= at < s.len() && !st.full {
        pieces_advance(s, at);
        let (piece, next) = piece_at(s, at);
        push_width(st.output, '\n');
        if !(piece is Unfinished) {
            text_stays_within(s, next, with_piece(st, piece, limit), limit);
        }
    }
}

proof fn trailing_breaks_take_room(s: Seq<char>)
    ensures
        encode_utf8(without_trailing_breaks(s)).len() <= encode_utf8(s).len(),
    decreases s.len(),
{
    if s.len() > 0 && (s.last() == ' ' || s.last() == '\n') {
        trailing_breaks_take_room(s.drop_last());
        push_width(s.drop_last(), s.last());
        assert(s.drop_last().push(s.last()) =~= s);
    }
}

/// The plain text of a document is never longer than the limit.
pub proof fn plain_text_is_bounded(html: Seq<char>, limit: int)
    requires
        0 <= limit,
    ensures
        encode_utf8(plain_of(html, limit)).len() <= limit,
{
    let st = empty_text(limit);
    assert(encode_utf8(st.output).len() == 0);
    text_stays_within(html, 0, st, limit);
    trailing_breaks_take_room(text_from(html, 0, st, limit).output);
}

/// A tag adds no characters to the text but the end of a line, whatever its name and
/// attributes are; a script or style is left out up to where it ends.
pub proof fn markup_adds_no_characters(s: Seq<char>, at: int, st: PlainState, limit: int)
    requires
        0 <= at < s.len(),
        s[at] == '<',
        tag_at(s, at) is Some,
    ensures
        ({
            let (piece, next) = piece_at(s, at);
            let tag = tag_at(s, at)->Some_0;
            let after = with_piece(st, piece, limit).output;
            &&& after == st.output || after == st.output.push('\n')
            &&& next > tag.end
            &&& !tag.closing && is_raw(tag.name) ==> next == raw_end(s, tag.end + 1, tag.name)
        }),
{
    let comment = seq!['<', '!', '-', '-'];
    assert(comment[1] == '!');
    tag_is_ahead(s, at);
    let tag = tag_at(s, at)->Some_0;
    raw_end_is_ahead(s, tag.end + 1, tag.name);
    if text::stands_at(s, comment, at) {
        assert(s.subrange(at, at + 4)[1] == s[at + 1]);
    }
    if at + 1 < s.len() && (s[at + 1] == '!' || s[at + 1] == '?') {
        assert(name_start(s, at) == at + 1);
    }
}

proof fn words_are_kept(s: Seq<char>, at: int, st: PlainState, limit: int)
    requires
        0 <= at <= s.len(),
        forall|i: int|
            0 <= i < s.len() ==> s[i] != '<' && s[i] != '&' && !text::is_white(#[trigger] s[i]),
        encode_utf8(s).len() <= limit,
        !st.full,
        !st.pending_space,
        st.output == s.take(at),
    ensures
        text_from(s, at, st, limit).output == s,
    decreases s.len() - at,
{
    if at < s.len() {
        assert(s.take(at).push(s[at]) =~= s.take(at + 1));
        text::encode_concat(s.take(at + 1), s.skip(at + 1));
        assert(s.take(at + 1) + s.skip(at + 1) =~= s);
        words_are_kept(s, at + 1, with_piece(st, Piece::Character(s[at]), limit), limit);
    } else {
        assert(s.take(at) =~= s);
    }
}

/// A text without markup and white space that fits in the limit stays as it is.
pub proof fn words_without_markup_stay(s: Seq<char>, limit: int)
    requires
        0 < limit,
        encode_utf8(s).len() <= limit,
        forall|i: int|
            0 <= i < s.len() ==> s[i] != '<' && s[i] != '&' && !text::is_white(#[trigger] s[i]),
    ensures
        plain_of(s, limit) == s,
{
    let st = empty_text(limit);
    assert(st.output =~= s.take(0));
    words_are_kept(s, 0, st, limit);
    if s.len() > 0 {
        assert(!text::is_white(s[s.len() - 1]));
    }
}

/// Only the end of a line and single blanks inside a line are white space in a text.
pub open spec fn is_tidy(s: Seq<char>) -> bool {
    &&& forall|i: int|
        0 <= i < s.len() && text::is_white(#[trigger] s[i]) ==> s[i] == ' ' || s[i] == '\n'
    &&& forall|i: int|
        0 <= i < s.len() - 1 ==> !(text::is_white(#[trigger] s[i]) && text::is_white(s[i + 1]))
    &&& s.len() > 0 ==> !text::is_white(s[0])
}

/// A text that is being put together is tidy, and does not end with a blank.
spec fn is_tidy_state(st: PlainState) -> bool {
    &&& is_tidy(st.output)
    &&& st.output.len() > 0 ==> st.output.last() != ' '
    &&& st.pending_space ==> in_line(st.output)
}

proof fn pieces_keep_texts_tidy(st: PlainState, piece: Piece, limit: int)
    requires
        is_tidy_state(st),
    ensures
        is_tidy_state(with_piece(st, piece, limit)),
{
    let before = st.output;
    let after = with_piece(st, piece, limit).output;
    if before.len() > 0 {
        assert(before.last() == before[before.len() - 1]);
    }
    assert(!st.pending_space && before.len() > 0 && before.last() != '\n' ==> !text::is_white(
        before.last(),
    ));
    assert forall|i: int|
        0 <= i < after.len() - 1 implies !(text::is_white(#[trigger] after[i]) && text::is_white(
        after[i + 1],
    )) by {
        if i + 1 < before.len() {
            assert(after[i] == before[i] && after[i + 1] == before[i + 1]);
        } else if i + 1 == before.len() {
            assert(after[i] == before.last());
        }
    }
    assert(is_tidy(after));
}

proof fn texts_stay_tidy(s: Seq<char>, at: int, st: PlainState, limit: int)
    requires
        is_tidy_state(st),
    ensures
        is_tidy_state(text_from(s, at, st, limit)),
    decreases s.len() - at,
{
    if 0 <= at < s.len() && !st.full {
        pieces_advance(s, at);
        let (piece, next) = piece_at(s, at);
        if !(piece is Unfinished) {
            pieces_keep_texts_tidy(st, piece, limit);
            texts_stay_tidy(s, next, with_piece(st, piece, limit), limit);
        }
    }
}

proof fn trailing_breaks_are_all_that_is_cut(s: Seq<char>)
    ensures
        ({
            let t = without_trailing_breaks(s);
            &&& t.len() <= s.len()
            &&& t == s.take(t.len() as int)
            &&& t.len() > 0 ==> t.last() != ' ' && t.last() != '\n'
            &&& forall|i: int| t.len() <= i < s.len() ==> #[trigger] s[i] == ' ' || s[i] == '\n'
        }),
    decreases s.len(),
{
    if s.len() > 0 && (s.last() == ' ' || s.last() == '\n') {
        let front = s.drop_last();
        trailing_breaks_are_all_that_is_cut(front);
        let t = without_trailing_breaks(s);
        assert(t == without_trailing_breaks(front));
        assert(front.take(t.len() as int) =~= s.take(t.len() as int));
        assert forall|i: int| t.len() <= i < s.len() implies #[trigger] s[i] == ' ' || s[i]
            == '\n' by {
            if i < front.len() {
                assert(front[i] == s[i]);
            }
        }
    } else {
        assert(s.take(s.len() as int) =~= s);
    }
}

/// The plain text of a document holds no other white space than single blanks and ends of
/// lines, never two of them in a row, and none at either end.
pub proof fn plain_text_is_tidy(html: Seq<char>, limit: int)
    ensures
        is_tidy(plain_of(html, limit)),
        plain_of(html, limit).len() > 0 ==> !text::is_white(plain_of(html, limit).last()),
{
    let st = empty_text(limit);
    texts_stay_tidy(html, 0, st, limit);
    let whole = text_from(html, 0, st, limit).output;
    trailing_breaks_are_all_that_is_cut(whole);
    let plain = plain_of(html, limit);
    assert forall|i: int| 0 <= i < plain.len() implies #[trigger] plain[i] == whole[i] by {}
    if plain.len() > 0 {
        assert(plain.last() == whole[plain.len() - 1]);
    }
}

/// `a` is the start of `b`.
pub open spec fn is_start_of(a: Seq<char>, b: Seq<char>) -> bool {
    a.len() <= b.len() && a == b.take(a.len() as int)
}

proof fn starts_carry_over(a: Seq<char>, b: Seq<char>, c: Seq<char>)
    requires
        is_start_of(a, b),
        is_start_of(b, c),
    ensures
        is_start_of(a, c),
{
    assert(b.take(a.len() as int) =~= c.take(a.len() as int));
}

proof fn texts_only_grow(s: Seq<char>, at: int, st: PlainState, limit: int)
    ensures
        is_start_of(st.output, text_from(s, at, st, limit).output),
    decreases s.len() - at,
{
    assert(st.output.take(st.output.len() as int) =~= st.output);
    if 0 <= at < s.len() && !st.full {
        pieces_advance(s, at);
        let (piece, next) = piece_at(s, at);
        if !(piece is Unfinished) {
            let after = with_piece(st, piece, limit);
            assert(after.output.take(st.output.len() as int) =~= st.output);
            texts_only_grow(s, next, after, limit);
            starts_carry_over(st.output, after.output, text_from(s, next, after, limit).output);
        }
    }
}

proof fn smaller_texts_are_starts(s: Seq<char>, at: int, st: PlainState, n: int, m: int)
    requires
        encode_utf8(st.output).len() <= n <= m,
        !st.full,
    ensures
        is_start_of(text_from(s, at, st, n).output, text_from(s, at, st, m).output),
    decreases s.len() - at,
{
    assert(st.output.take(st.output.len() as int) =~= st.output);
    if 0 <= at < s.len() {
        pieces_advance(s, at);
        let (piece, next) = piece_at(s, at);
        if !(piece is Unfinished) {
            let a = with_piece(st, piece, n);
            let b = with_piece(st, piece, m);
            if a.full {
                assert(a.output == st.output);
                assert(text_from(s, next, a, n) == a);
                assert(b.output.take(st.output.len() as int) =~= st.output);
                texts_only_grow(s, next, b, m);
                starts_carry_over(st.output, b.output, text_from(s, next, b, m).output);
            } else {
                push_width(st.output, '\n');
                assert(a == b);
                smaller_texts_are_starts(s, next, a, n, m);
            }
        }
    }
}

proof fn starts_without_breaks_are_starts(a: Seq<char>, b: Seq<char>)
    requires
        is_start_of(a, b),
    ensures
        is_start_of(without_trailing_breaks(a), without_trailing_breaks(b)),
{
    trailing_breaks_are_all_that_is_cut(a);
    trailing_breaks_are_all_that_is_cut(b);
    let c = without_trailing_breaks(a);
    let d = without_trailing_breaks(b);
    if c.len() > 0 {
        let k = c.len() - 1;
        assert(c.last() == a[k] && a[k] == b[k]);
        if d.len() <= k {
            assert(b[k] == ' ' || b[k] == '\n');
        }
    }
    assert(c =~= d.take(c.len() as int));
}

/// Less room gives less of the same: the plain text under a smaller limit is a start of that
/// under a larger one.
pub proof fn less_room_gives_a_start(html: Seq<char>, n: int, m: int)
    requires
        0 <= n <= m,
    ensures
        is_start_of(plain_of(html, n), plain_of(html, m)),
{
    let small = text_from(html, 0, empty_text(n), n).output;
    let large = text_from(html, 0, empty_text(m), m).output;
    if n == 0 {
        assert(small =~= large.take(0));
    } else {
        assert(encode_utf8(empty_text(n).output).len() == 0);
        assert(empty_text(n) == empty_text(m));
        smaller_texts_are_starts(html, 0, empty_text(n), n, m);
    }
    starts_without_breaks_are_starts(small, large);
}

proof fn tags_are_no_comments(s: Seq<char>, at: int)
    requires
        0 <= at < s.len(),
        s[at] == '<',
        tag_at(s, at) is Some,
    ensures
        !text::stands_at(s, seq!['<', '!', '-', '-'], at),
        !(at + 1 < s.len() && (s[at + 1] == '!' || s[at + 1] == '?')),
{
    let comment = seq!['<', '!', '-', '-'];
    assert(comment[1] == '!');
    if text::stands_at(s, comment, at) {
        assert(s.subrange(at, at + 4)[1] == s[at + 1]);
    }
    if at + 1 < s.len() && (s[at + 1] == '!' || s[at + 1] == '?') {
        assert(name_start(s, at) == at + 1);
    }
}

/// The text goes on right behind a tag, whatever element it belongs to, but for the start of
/// a script or a style: what those hold is left out up to the closing tag of the same name.
/// A tag starts a new line exactly if it is one of those that stand for lines, paragraphs,
/// headings, lists and tables, or starts a script or a style.
pub proof fn the_text_goes_on_behind_a_tag(s: Seq<char>, at: int)
    requires
        0 <= at < s.len(),
        s[at] == '<',
        tag_at(s, at) is Some,
    ensures
        ({
            let tag = tag_at(s, at)->Some_0;
            let n = text::ascii_lowered(tag.name);
            let skipped = !tag.closing && (n == "script"@ || n == "style"@);
            let (piece, next) = piece_at(s, at);
            &&& !skipped ==> next == tag.end + 1
            &&& skipped ==> next == raw_end(s, tag.end + 1, tag.name)
            &&& piece is Break <==> {
                ||| skipped
                ||| n == "blockquote"@ || n == "br"@ || n == "div"@ || n == "hr"@ || n == "li"@
                ||| n == "h1"@ || n == "h2"@ || n == "h3"@ || n == "h4"@ || n == "h5"@ || n == "h6"@
                ||| n == "ol"@ || n == "p"@ || n == "pre"@ || n == "table"@ || n == "td"@
                ||| n == "th"@ || n == "tr"@ || n == "ul"@
            }
            &&& piece is Break || piece is Nothing
        }),
{
    tags_are_no_comments(s, at);
}

proof fn name_ends_at(s: Seq<char>, from: int, to: int)
    requires
        0 <= from <= to <= s.len(),
        forall|i: int| from <= i < to ==> is_name_char(#[trigger] s[i]),
        to < s.len() ==> !is_name_char(s[to]),
    ensures
        name_end(s, from) == to,
    decreases to - from,
{
    if from < to {
        assert(is_name_char(s[from]));
        name_ends_at(s, from + 1, to);
    }
}

proof fn tag_ends_at(s: Seq<char>, from: int, to: int)
    requires
        0 <= from <= to < s.len(),
        forall|i: int| from <= i < to ==> #[trigger] s[i] != '>' && s[i] != '"' && s[i] != '\'',
        s[to] == '>',
    ensures
        tag_end(s, from, None) == Some(to),
    decreases to - from,
{
    if from < to {
        assert(s[from] != '>' && s[from] != '"' && s[from] != '\'');
        tag_ends_at(s, from + 1, to);
    }
}

proof fn quoted_value_ends_at(s: Seq<char>, from: int, close: int, quote: char)
    requires
        0 <= from <= close < s.len(),
        forall|i: int| from <= i < close ==> #[trigger] s[i] != quote,
        s[close] == quote,
    ensures
        tag_end(s, from, Some(quote)) == tag_end(s, close + 1, None),
    decreases close - from,
{
    if from < close {
        assert(s[from] != quote);
        quoted_value_ends_at(s, from + 1, close, quote);
    }
}

/// A bracket, letters and digits that begin with a letter, perhaps more behind a blank, and
/// the closing bracket are a tag with those letters and digits for a name; it closes an
/// element exactly if a slash stands before the name.
pub proof fn simple_tags_are_found(s: Seq<char>, at: int, closing: bool, to: int, end: int)
    requires
        ({
            let from = if closing {
                at + 2
            } else {
                at + 1
            };
            &&& 0 <= at < from < to <= end < s.len()
            &&& s[at] == '<'
            &&& closing ==> s[at + 1] == '/'
            &&& 'a' <= s[from] <= 'z' || 'A' <= s[from] <= 'Z'
            &&& forall|i: int|
                from <= i < to ==> 'a' <= (#[trigger] s[i]) <= 'z' || 'A' <= s[i] <= 'Z' || '0'
                    <= s[i] <= '9'
            &&& to < end ==> s[to] == ' '
            &&& forall|i: int|
                to <= i < end ==> #[trigger] s[i] != '>' && s[i] != '"' && s[i] != '\''
            &&& s[end] == '>'
        }),
    ensures
        ({
            let from = if closing {
                at + 2
            } else {
                at + 1
            };
            &&& tag_at(s, at) is Some
            &&& tag_at(s, at)->Some_0.name == s.subrange(from, to)
            &&& tag_at(s, at)->Some_0.closing == closing
            &&& tag_at(s, at)->Some_0.end == end
        }),
{
    let from = if closing {
        at + 2
    } else {
        at + 1
    };
    assert(name_start(s, at) == from);
    name_ends_at(s, from, to);
    tag_ends_at(s, to, end);
}

/// What stands in quotes inside a tag does not end it, brackets and other quotes among it.
pub proof fn quotes_hide_brackets(s: Seq<char>, open: int, close: int)
    requires
        0 <= open < close < s.len(),
        s[open] == '"' || s[open] == '\'',
        s[close] == s[open],
        forall|i: int| open < i < close ==> #[trigger] s[i] != s[open],
    ensures
        tag_end(s, open, None) == tag_end(s, close + 1, None),
{
    quoted_value_ends_at(s, open + 1, close, s[open]);
}

/// A character that starts neither a tag nor an entity is a character of the text, and the
/// next one is the next part.
pub proof fn plain_characters_are_text(s: Seq<char>, at: int)
    requires
        0 <= at < s.len(),
    ensures
        s[at] != '<' && s[at] != '&' ==> piece_at(s, at) == (Piece::Character(s[at]), at + 1),
        s[at] == '<' && at + 1 < s.len() && s[at + 1] != '/' && s[at + 1] != '!' && s[at + 1] != '?'
            && !is_tag_white(s[at + 1]) && !is_letter(s[at + 1]) ==> piece_at(s, at) == (
            Piece::Character('<'),
            at + 1,
        ),
{
    let comment = seq!['<', '!', '-', '-'];
    assert(comment[1] == '!');
    if text::stands_at(s, comment, at) {
        assert(s.subrange(at, at + 4)[1] == s[at + 1]);
    }
}

proof fn semicolon_is_at(s: Seq<char>, at: int, from: int, k: int)
    requires
        0 <= at,
        1 <= from <= k < 16,
        at + k < s.len(),
        s[at + k] == ';',
        forall|i: int| at + from <= i < at + k ==> #[trigger] s[i] != ';',
    ensures
        semicolon(s, at, from) == Some(k),
    decreases k - from,
{
    if from < k {
        assert(s[at + from] != ';');
        semicolon_is_at(s, at, from + 1, k);
    }
}

/// The five characters that markup needs for itself, and the blank that does not break, can
/// be written by their names, in any case; any character can be written by its number.
pub proof fn entities_stand_for_characters(name: Seq<char>, code: nat)
    ensures
        text::ascii_lowered(name) == "amp"@ ==> entity_char(name) == Some('&'),
        text::ascii_lowered(name) == "apos"@ ==> entity_char(name) == Some('\''),
        text::ascii_lowered(name) == "gt"@ ==> entity_char(name) == Some('>'),
        text::ascii_lowered(name) == "lt"@ ==> entity_char(name) == Some('<'),
        text::ascii_lowered(name) == "nbsp"@ ==> entity_char(name) == Some('\u{a0}'),
        text::ascii_lowered(name) == "quot"@ ==> entity_char(name) == Some('"'),
        code < 0xd800 || 0xdfff < code <= 0x10ffff ==> entity_char(seq!['#'] + text::decimal(code))
            == Some(code as char),
        0xd800 <= code <= 0xdfff || 0x10ffff < code ==> entity_char(
            seq!['#'] + text::decimal(code),
        ) is None,
{
    reveal_strlit("amp");
    reveal_strlit("apos");
    reveal_strlit("gt");
    reveal_strlit("lt");
    reveal_strlit("nbsp");
    reveal_strlit("quot");
    assert("amp"@[1] == 'm');
    assert("apos"@[1] == 'p');
    assert("gt"@[0] == 'g');
    assert("lt"@[0] == 'l');
    assert("amp"@[0] == 'a' && "apos"@[0] == 'a');
    assert("nbsp"@[0] == 'n');
    assert("quot"@[0] == 'q');
    let n = text::ascii_lowered(name);
    let numeric = seq!['#'] + text::decimal(code);
    assert(numeric[0] == '#');
    assert(text::ascii_lowered(numeric)[0] == '#');
    assert(numeric.skip(1) =~= text::decimal(code));
    crate::net::ipv4::decimal_is_read_back(code);
    assert(crate::net::ipv4::is_digit(text::decimal(code)[0]));
    assert(numeric[1] == text::decimal(code)[0]);
    text::decimal_numbers_are_read_back(code, u32::MAX as int);
}

/// An entity of up to 14 characters between its sign and its semicolon is one character of
/// the text, and the text goes on behind the semicolon. A sign without a semicolon within the
/// next 15 characters is itself a character of the text.
pub proof fn entities_are_decoded(s: Seq<char>, at: int, k: int)
    requires
        0 <= at < s.len(),
        s[at] == '&',
        1 <= k < 16,
        forall|i: int| at < i < at + k && i < s.len() ==> #[trigger] s[i] != ';',
    ensures
        at + k < s.len() && s[at + k] == ';' && entity_char(s.subrange(at + 1, at + k)) is Some
            ==> piece_at(s, at) == (
            Piece::Character(entity_char(s.subrange(at + 1, at + k))->Some_0),
            at + k + 1,
        ),
        at + k < s.len() && s[at + k] == ';' && entity_char(s.subrange(at + 1, at + k)) is None
            ==> piece_at(s, at) == (Piece::Character('&'), at + 1),
        at + k >= s.len() ==> piece_at(s, at) == (Piece::Character('&'), at + 1),
{
    if at + k < s.len() && s[at + k] == ';' {
        semicolon_is_at(s, at, 1, k);
    }
    if at + k >= s.len() {
        semicolon_is_ahead(s, at, 1);
        if semicolon(s, at, 1) is Some {
            semicolon_is_one(s, at, 1);
        }
    }
}

proof fn semicolon_is_one(s: Seq<char>, at: int, k: int)
    requires
        semicolon(s, at, k) is Some,
    ensures
        s[at + semicolon(s, at, k)->Some_0] == ';',
    decreases MAX_ENTITY_CHARS - k,
{
    if k < MAX_ENTITY_CHARS && at + k < s.len() && s[at + k] != ';' {
        semicolon_is_one(s, at, k + 1);
    }
}

/// A comment leaves no trace: the text goes on behind the first `-->` in it.
pub proof fn comments_leave_no_trace(s: Seq<char>, at: int, end: int)
    requires
        0 <= at,
        at + 4 <= end,
        end + 3 <= s.len(),
        s[at] == '<' && s[at + 1] == '!' && s[at + 2] == '-' && s[at + 3] == '-',
        s[end] == '-' && s[end + 1] == '-' && s[end + 2] == '>',
        forall|i: int|
            at + 4 <= i < end ==> !(#[trigger] s[i] == '-' && s[i + 1] == '-' && s[i + 2] == '>'),
    ensures
        piece_at(s, at) == (Piece::Nothing, end + 3),
{
    let close = seq!['-', '-', '>'];
    assert(s.subrange(at, at + 4) =~= seq!['<', '!', '-', '-']);
    assert(s.subrange(end, end + 3) =~= close);
    text::first_at_is_first(s, close, at + 4);
    let found = text::first_at(s, close, at + 4);
    assert(text::stands_at(s, close, end));
    assert(close[0] == '-' && close[1] == '-' && close[2] == '>');
    if found is Some && found->Some_0 != end {
        let i = found->Some_0;
        let there = s.subrange(i, i + 3);
        assert(there[0] == s[i] && there[1] == s[i + 1] && there[2] == s[i + 2]);
    }
}

/// The characters of the text in a document from a place on, white space left out: those
/// outside tags, comments, scripts and styles, with entities decoded, up to markup that does
/// not end.
pub open spec fn letters_from(s: Seq<char>, at: int) -> Seq<char>
    decreases s.len() - at,
{
    if at < 0 || at >= s.len() {
        Seq::empty()
    } else {
        proof {
            pieces_advance(s, at);
        }
        let rest = letters_from(s, piece_at(s, at).1);
        match piece_at(s, at).0 {
            Piece::Character(c) => if text::is_white(c) {
                rest
            } else {
                seq![c] + rest
            },
            Piece::Unfinished => Seq::empty(),
            _ => rest,
        }
    }
}

/// The characters of a text, white space left out.
pub open spec fn letters(s: Seq<char>) -> Seq<char>
    decreases s.len(),
{
    if s.len() == 0 {
        s
    } else if text::is_white(s.last()) {
        letters(s.drop_last())
    } else {
        letters(s.drop_last()).push(s.last())
    }
}

proof fn letters_after_one(s: Seq<char>, c: char)
    ensures
        letters(s.push(c)) == (if text::is_white(c) {
            letters(s)
        } else {
            letters(s).push(c)
        }),
{
    assert(s.push(c).drop_last() =~= s);
}

proof fn letters_are_kept(s: Seq<char>, at: int, st: PlainState, limit: int)
    requires
        0 <= at <= s.len(),
        !st.full,
        st.pending_space ==> in_line(st.output),
        encode_utf8(st.output).len() + 5 * (s.len() - at) + 1 <= limit,
    ensures
        letters(text_from(s, at, st, limit).output) == letters(st.output) + letters_from(s, at),
    decreases s.len() - at,
{
    if at < s.len() {
        pieces_advance(s, at);
        let (piece, next) = piece_at(s, at);
        let after = with_piece(st, piece, limit);
        match piece {
            Piece::Character(c) => {
                let spaced = if st.pending_space {
                    st.output.push(' ')
                } else {
                    st.output
                };
                push_width(st.output, ' ');
                push_width(spaced, c);
                letters_after_one(st.output, ' ');
                letters_after_one(spaced, c);
                one_character_takes_four_bytes(c);
            },
            Piece::Break => {
                push_width(st.output, '\n');
                letters_after_one(st.output, '\n');
            },
            _ => {},
        }
        if !(piece is Unfinished) {
            letters_are_kept(s, next, after, limit);
            if piece is Character && !text::is_white(piece->Character_0) {
                assert(letters(st.output).push(piece->Character_0) + letters_from(s, next)
                    =~= letters(st.output) + letters_from(s, at));
            }
        } else {
            assert(letters(st.output) + letters_from(s, at) =~= letters(st.output));
        }
    } else {
        assert(letters(st.output) + letters_from(s, at) =~= letters(st.output));
    }
}

proof fn one_character_takes_four_bytes(c: char)
    ensures
        1 <= text::char_width(c) <= 4,
{
}

proof fn trailing_breaks_hold_no_letters(s: Seq<char>)
    ensures
        letters(without_trailing_breaks(s)) == letters(s),
    decreases s.len(),
{
    if s.len() > 0 && (s.last() == ' ' || s.last() == '\n') {
        trailing_breaks_hold_no_letters(s.drop_last());
    }
}

/// With room enough, the plain text of a document has all characters of its text, in their
/// order and no others, white space left out.
pub proof fn every_letter_of_the_text_stays(html: Seq<char>, limit: int)
    requires
        limit > 5 * html.len(),
    ensures
        letters(plain_of(html, limit)) == letters_from(html, 0),
{
    let st = empty_text(limit);
    assert(encode_utf8(st.output).len() == 0);
    letters_are_kept(html, 0, st, limit);
    trailing_breaks_hold_no_letters(text_from(html, 0, st, limit).output);
    assert(letters(st.output) + letters_from(html, 0) =~= letters_from(html, 0));
}

proof fn raw_end_is_at(s: Seq<char>, from: int, name: Seq<char>, at: int)
    requires
        0 <= from <= at,
        at + 1 < s.len(),
        s[at] == '<' && s[at + 1] == '/',
        forall|i: int| from <= i < at ==> !(#[trigger] s[i] == '<' && s[i + 1] == '/'),
        tag_at(s, at) is Some,
        text::ascii_lowered(tag_at(s, at)->Some_0.name) == text::ascii_lowered(name),
    ensures
        raw_end(s, from, name) == tag_at(s, at)->Some_0.end + 1,
{
    let open = seq!['<', '/'];
    assert(open[0] == '<' && open[1] == '/');
    assert(s.subrange(at, at + 2) =~= open);
    assert(text::stands_at(s, open, at));
    text::first_at_is_first(s, open, from);
    let found = text::first_at(s, open, from);
    if found is Some && found->Some_0 != at {
        let i = found->Some_0;
        let there = s.subrange(i, i + 2);
        assert(there[0] == s[i] && there[1] == s[i + 1]);
    }
}

/// A script or a style is left out as a whole and no more than that: if the first closing
/// tag behind its start has its name, the text goes on right behind that tag.
pub proof fn scripts_end_with_their_closing_tag(s: Seq<char>, at: int, close: int)
    requires
        0 <= at < s.len(),
        s[at] == '<',
        tag_at(s, at) is Some,
        !tag_at(s, at)->Some_0.closing,
        text::ascii_lowered(tag_at(s, at)->Some_0.name) == "script"@ || text::ascii_lowered(
            tag_at(s, at)->Some_0.name,
        ) == "style"@,
        tag_at(s, at)->Some_0.end < close,
        close + 1 < s.len(),
        s[close] == '<' && s[close + 1] == '/',
        forall|i: int|
            tag_at(s, at)->Some_0.end < i < close ==> !(#[trigger] s[i] == '<' && s[i + 1] == '/'),
        tag_at(s, close) is Some,
        text::ascii_lowered(tag_at(s, close)->Some_0.name) == text::ascii_lowered(
            tag_at(s, at)->Some_0.name,
        ),
    ensures
        piece_at(s, at) == (Piece::Break, tag_at(s, close)->Some_0.end + 1),
{
    the_text_goes_on_behind_a_tag(s, at);
    tag_is_ahead(s, at);
    let tag = tag_at(s, at)->Some_0;
    raw_end_is_at(s, tag.end + 1, tag.name, close);
}

/// A character that fits is added to the text at its end: after one blank if white space came
/// since the last one inside the line, and without any change otherwise. Only what is white
/// space by itself is not added.
pub proof fn characters_are_added_at_the_end(st: PlainState, c: char, limit: int)
    requires
        encode_utf8(st.output).len() + 5 <= limit,
    ensures
        ({
            let after = with_char(st, c, limit);
            &&& !text::is_white(c) && !st.pending_space ==> after.output == st.output.push(c)
            &&& !text::is_white(c) && st.pending_space ==> after.output == st.output.push(' ').push(
                c,
            )
            &&& text::is_white(c) ==> after.output == st.output && after.pending_space == (
            st.output.len() > 0 && st.output.last() != '\n')
            &&& after.full == st.full
        }),
        with_break(st, limit).output == (if st.output.len() > 0 && st.output.last() != '\n' {
            st.output.push('\n')
        } else {
            st.output
        }),
{
    push_width(st.output, ' ');
    push_width(st.output, c);
    push_width(st.output.push(' '), c);
    one_character_takes_four_bytes(c);
}

} // verus!
