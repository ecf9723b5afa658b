//! Text as sequences of characters and of UTF-8 bytes.

use crate::bytes;
use crate::bytes::same_bytes;
use vstd::prelude::*;
use vstd::utf8::*;

verus! {

/// `String::push` appends one character.
pub assume_specification[ String::push ](s: &mut String, c: char)
    ensures
        final(s)@ == old(s)@.push(c),
;

/// `char::from_u32` gives the character of a code, where there is one: surrogates and
/// what lies above the last code are none.
pub assume_specification[ char::from_u32 ](code: u32) -> (c: Option<char>)
    ensures
        match c {
            Some(c) => c as int == code && !(0xd800 <= code <= 0xdfff) && code <= 0x10ffff,
            None => 0xd800 <= code <= 0xdfff || code > 0x10ffff,
        },
;

/// The characters with the Unicode property `White_Space`.
pub open spec fn is_white(c: char) -> bool {
    ||| 0x9 <= c as u32 <= 0xd
    ||| c as u32 == 0x20
    ||| c as u32 == 0x85
    ||| c as u32 == 0xa0
    ||| c as u32 == 0x1680
    ||| 0x2000 <= c as u32 <= 0x200a
    ||| c as u32 == 0x2028
    ||| c as u32 == 0x2029
    ||| c as u32 == 0x202f
    ||| c as u32 == 0x205f
    ||| c as u32 == 0x3000
}

/// Tells whether `c` is white space.
pub fn is_whitespace(c: char) -> (white: bool)
    ensures
        white == is_white(c),
{
    let code: u32 = c as u32;
    (0x9 <= code && code <= 0xd) || code == 0x20 || code == 0x85 || code == 0xa0 || code == 0x1680
        || (0x2000 <= code && code <= 0x200a) || code == 0x2028 || code == 0x2029 || code == 0x202f
        || code == 0x205f || code == 0x3000
}

/// `s` without its leading white space.
pub open spec fn without_leading_white(s: Seq<char>) -> Seq<char>
    decreases s.len(),
{
    if s.len() > 0 && is_white(s[0]) {
        without_leading_white(s.skip(1))
    } else {
        s
    }
}

/// `s` without its trailing white space.
pub open spec fn without_trailing_white(s: Seq<char>) -> Seq<char>
    decreases s.len(),
{
    if s.len() > 0 && is_white(s.last()) {
        without_trailing_white(s.drop_last())
    } else {
        s
    }
}

/// `s` without the white space at both ends.
pub open spec fn trimmed(s: Seq<char>) -> Seq<char> {
    without_trailing_white(without_leading_white(s))
}

/// What is left after trimming has no white space at its ends.
pub proof fn trimmed_ends(s: Seq<char>)
    ensures
        trimmed(s).len() > 0 ==> !is_white(trimmed(s)[0]) && !is_white(trimmed(s).last()),
{
    leading_white_is_gone(s);
    trailing_white_is_gone(without_leading_white(s));
}

proof fn leading_white_is_gone(s: Seq<char>)
    ensures
        without_leading_white(s).len() > 0 ==> !is_white(without_leading_white(s)[0]),
    decreases s.len(),
{
    if s.len() > 0 && is_white(s[0]) {
        leading_white_is_gone(s.skip(1));
    }
}

proof fn trailing_white_is_gone(s: Seq<char>)
    ensures
        without_trailing_white(s).len() > 0 ==> !is_white(without_trailing_white(s).last())
            && without_trailing_white(s)[0] == s[0],
    decreases s.len(),
{
    if s.len() > 0 && is_white(s.last()) {
        trailing_white_is_gone(s.drop_last());
    }
}

/// A text without white space at its ends stays as it is.
pub proof fn trim_keeps(s: Seq<char>)
    requires
        s.len() > 0 ==> !is_white(s[0]) && !is_white(s.last()),
    ensures
        trimmed(s) == s,
{
}

/// Trimming twice is trimming once.
pub proof fn trim_is_idempotent(s: Seq<char>)
    ensures
        trimmed(trimmed(s)) == trimmed(s),
{
    trimmed_ends(s);
    trim_keeps(trimmed(s));
}

/// The characters of `s`, one by one.
pub fn chars_of(s: &str) -> (chars: Vec<char>)
    ensures
        chars@ == s@,
{
    let mut chars: Vec<char> = Vec::new();
    for c in it: s.chars()
        invariant
            chars@ == it.seq().take(it.index() as int),
            it.seq() == s@,
    {
        chars.push(c);
    }
    chars
}

/// The text made of `chars[from..to]`.
pub fn text_of(chars: &Vec<char>, from: usize, to: usize) -> (text: String)
    requires
        from <= to <= chars.len(),
    ensures
        text@ == chars@.subrange(from as int, to as int),
{
    let mut text: String = String::new();
    let mut i: usize = from;
    while i < to
        invariant
            from <= i <= to <= chars.len(),
            text@ == chars@.subrange(from as int, i as int),
        decreases to - i,
    {
        text.push(chars[i]);
        i = i + 1;
    }
    text
}

/// Drops the white space at both ends.
pub fn trim(s: &str) -> (text: String)
    ensures
        text@ == trimmed(s@),
{
    let chars = chars_of(s);
    let mut from: usize = 0;
    assert(chars@.skip(0) =~= s@);
    while from < chars.len() && is_whitespace(chars[from])
        invariant
            from <= chars.len(),
            chars@ == s@,
            without_leading_white(s@) == without_leading_white(chars@.skip(from as int)),
        decreases chars.len() - from,
    {
        proof {
            assert(chars@.skip(from as int).skip(1) =~= chars@.skip(from + 1));
        }
        from = from + 1;
    }
    let mut to: usize = chars.len();
    while from < to && is_whitespace(chars[to - 1])
        invariant
            from <= to <= chars.len(),
            without_trailing_white(chars@.skip(from as int)) == without_trailing_white(
                chars@.subrange(from as int, to as int),
            ),
        decreases to - from,
    {
        proof {
            assert(chars@.subrange(from as int, to as int).drop_last() =~= chars@.subrange(
                from as int,
                to - 1,
            ));
        }
        to = to - 1;
    }
    text_of(&chars, from, to)
}

/// The control characters of Unicode.
pub open spec fn is_control_char(c: char) -> bool {
    c as u32 <= 0x1f || 0x7f <= c as u32 <= 0x9f
}

/// Tells whether `c` is a control character.
pub fn is_control(c: char) -> (control: bool)
    ensures
        control == is_control_char(c),
{
    let code: u32 = c as u32;
    code <= 0x1f || (0x7f <= code && code <= 0x9f)
}

/// `c` in lower case if it is an ASCII letter.
pub open spec fn ascii_lower(c: char) -> char {
    if 'A' <= c <= 'Z' {
        (c as int + 32) as char
    } else {
        c
    }
}

/// `c` in upper case if it is an ASCII letter.
pub open spec fn ascii_upper(c: char) -> char {
    if 'a' <= c <= 'z' {
        (c as int - 32) as char
    } else {
        c
    }
}

/// `s` with its ASCII letters in lower case.
pub open spec fn ascii_lowered(s: Seq<char>) -> Seq<char> {
    s.map_values(|c: char| ascii_lower(c))
}

/// `c` in lower case if it is an ASCII letter.
pub fn lower_ascii(c: char) -> (lower: char)
    ensures
        lower == ascii_lower(c),
{
    if 'A' <= c && c <= 'Z' {
        (c as u8 + 32) as char
    } else {
        c
    }
}

/// `c` in upper case if it is an ASCII letter.
pub fn upper_ascii(c: char) -> (upper: char)
    ensures
        upper == ascii_upper(c),
{
    if 'a' <= c && c <= 'z' {
        (c as u8 - 32) as char
    } else {
        c
    }
}

/// The number of bytes that `s` takes in UTF-8.
pub fn byte_len(s: &str) -> (len: usize)
    ensures
        len == encode_utf8(s@).len(),
{
    s.as_bytes().len()
}

/// The number of bytes that a character takes in UTF-8.
pub open spec fn char_width(c: char) -> nat {
    encode_scalar(c as u32).len()
}

/// The number of bytes that a character takes in UTF-8.
pub fn width_of(c: char) -> (width: usize)
    ensures
        width == char_width(c),
        1 <= width <= 4,
{
    let code: u32 = c as u32;
    if code <= 0x7f {
        1
    } else if code <= 0x7ff {
        2
    } else if code <= 0xffff {
        3
    } else {
        4
    }
}

/// How many characters at the start of `s` fit in `limit` bytes.
pub open spec fn fitting(s: Seq<char>, limit: int) -> int
    decreases s.len(),
{
    if s.len() == 0 || char_width(s[0]) > limit {
        0
    } else {
        1 + fitting(s.skip(1), limit - char_width(s[0]))
    }
}

/// The longest start of `s` that fits in `limit` bytes.
pub open spec fn fitting_start(s: Seq<char>, limit: int) -> Seq<char> {
    s.take(fitting(s, limit))
}

/// What fits is a start of the text, takes no more than the limit, and not one
/// more character would fit.
pub proof fn fitting_start_is_longest(s: Seq<char>, limit: int)
    requires
        0 <= limit,
    ensures
        0 <= fitting(s, limit) <= s.len(),
        encode_utf8(fitting_start(s, limit)).len() <= limit,
        fitting(s, limit) < s.len() ==> encode_utf8(s.take(fitting(s, limit) + 1)).len() > limit,
    decreases s.len(),
{
    if s.len() == 0 || char_width(s[0]) > limit {
        assert(s.take(0) =~= Seq::<char>::empty());
        if s.len() > 0 {
            assert(s.take(1).drop_first() =~= Seq::<char>::empty());
            assert(s.take(1)[0] == s[0]);
        }
    } else {
        let rest = limit - char_width(s[0]);
        fitting_start_is_longest(s.skip(1), rest);
        let n = fitting(s.skip(1), rest);
        assert(s.take(n + 1).drop_first() =~= s.skip(1).take(n));
        assert(s.take(n + 1)[0] == s[0]);
        if n + 1 < s.len() {
            assert(s.take(n + 2).drop_first() =~= s.skip(1).take(n + 1));
            assert(s.take(n + 2)[0] == s[0]);
        }
    }
}

/// The longest start of `s` that fits in `limit` bytes.
pub fn truncate_to_bytes(s: &str, limit: usize) -> (start: String)
    ensures
        start@ == fitting_start(s@, limit as int),
{
    let chars = chars_of(s);
    let mut used: usize = 0;
    let mut i: usize = 0;
    assert(chars@.skip(0) =~= s@);
    while i < chars.len() && width_of(chars[i]) <= limit - used
        invariant
            i <= chars.len(),
            used <= limit,
            chars@ == s@,
            fitting(s@, limit as int) == i + fitting(chars@.skip(i as int), limit - used),
        decreases chars.len() - i,
    {
        assert(chars@.skip(i as int)[0] == chars@[i as int]);
        assert(chars@.skip(i as int).skip(1) =~= chars@.skip(i + 1));
        used = used + width_of(chars[i]);
        i = i + 1;
    }
    proof {
        if i < chars.len() {
            assert(chars@.skip(i as int)[0] == chars@[i as int]);
        }
        assert(chars@.subrange(0, i as int) =~= s@.take(i as int));
    }
    text_of(&chars, 0, i)
}

/// The bytes of two texts one after the other.
pub proof fn encode_concat(a: Seq<char>, b: Seq<char>)
    ensures
        encode_utf8(a + b) == encode_utf8(a) + encode_utf8(b),
    decreases a.len(),
{
    if a.len() == 0 {
        assert(a + b =~= b);
        assert(encode_utf8(a) + encode_utf8(b) =~= encode_utf8(b));
    } else {
        encode_concat(a.drop_first(), b);
        assert((a + b).drop_first() =~= a.drop_first() + b);
        assert(encode_utf8(a + b) =~= encode_utf8(a) + encode_utf8(b));
    }
}

/// Tells whether two texts are the same.
pub fn same_text(a: &str, b: &str) -> (same: bool)
    ensures
        same == (a@ == b@),
{
    let same = same_bytes(a.as_bytes(), b.as_bytes());
    proof {
        encode_utf8_decode_utf8(a@);
        encode_utf8_decode_utf8(b@);
    }
    same
}

/// `s` with its ASCII letters in lower case.
pub fn lower_text(s: &str) -> (lower: String)
    ensures
        lower@ == ascii_lowered(s@),
{
    let chars = chars_of(s);
    let mut lower: String = String::new();
    let mut i: usize = 0;
    while i < chars.len()
        invariant
            i <= chars.len(),
            lower@ == ascii_lowered(chars@.take(i as int)),
        decreases chars.len() - i,
    {
        lower.push(lower_ascii(chars[i]));
        i = i + 1;
        assert(lower@ =~= ascii_lowered(chars@.take(i as int)));
    }
    assert(chars@.take(i as int) =~= s@);
    lower
}

/// Tells whether `s` ends with `suffix`.
pub fn ends_with_text(s: &str, suffix: &str) -> (ends: bool)
    ensures
        ends == suffix@.is_suffix_of(s@),
{
    let chars = chars_of(s);
    let end = chars_of(suffix);
    if end.len() > chars.len() {
        return false;
    }
    let from: usize = chars.len() - end.len();
    let mut i: usize = 0;
    while i < end.len()
        invariant
            i <= end.len(),
            from + end.len() == chars.len(),
            chars@ == s@,
            end@ == suffix@,
            forall|j: int| 0 <= j < i ==> end@[j] == chars@[from + j],
        decreases end.len() - i,
    {
        if end[i] != chars[from + i] {
            assert(s@.subrange(from as int, s@.len() as int)[i as int] == chars@[from + i]);
            return false;
        }
        i = i + 1;
    }
    assert(suffix@ =~= s@.subrange(from as int, s@.len() as int));
    true
}

/// `s` holds `part` at place `at`.
pub open spec fn stands_at(s: Seq<char>, part: Seq<char>, at: int) -> bool {
    0 <= at && at + part.len() <= s.len() && s.subrange(at, at + part.len()) == part
}

/// `s` holds `part` somewhere.
pub open spec fn holds(s: Seq<char>, part: Seq<char>) -> bool {
    exists|at: int| stands_at(s, part, at)
}

/// Tells whether `chars` holds `part` at place `at`.
pub fn is_at(chars: &Vec<char>, part: &Vec<char>, at: usize) -> (found: bool)
    ensures
        found == stands_at(chars@, part@, at as int),
{
    if at > chars.len() || part.len() > chars.len() - at {
        return false;
    }
    let mut i: usize = 0;
    while i < part.len()
        invariant
            i <= part.len(),
            at + part.len() <= chars.len(),
            forall|j: int| 0 <= j < i ==> part@[j] == chars@[at + j],
        decreases part.len() - i,
    {
        if part[i] != chars[at + i] {
            assert(chars@.subrange(at as int, at + part@.len())[i as int] == chars@[at + i]);
            return false;
        }
        i = i + 1;
    }
    assert(chars@.subrange(at as int, at + part@.len()) =~= part@);
    true
}

/// Tells whether `s` holds `part` somewhere.
pub fn contains_text(s: &str, part: &str) -> (found: bool)
    ensures
        found == holds(s@, part@),
{
    let chars = chars_of(s);
    let needle = chars_of(part);
    if needle.len() > chars.len() {
        assert(forall|at: int| !stands_at(s@, part@, at));
        return false;
    }
    if needle.len() == 0 {
        assert(s@.subrange(0, 0) =~= part@);
        assert(stands_at(s@, part@, 0));
        return true;
    }
    let mut at: usize = 0;
    while at <= chars.len() - needle.len()
        invariant
            0 < needle.len() <= chars.len(),
            at <= chars.len() - needle.len() + 1,
            chars@ == s@,
            needle@ == part@,
            forall|j: int| 0 <= j < at ==> !stands_at(s@, part@, j),
        decreases chars.len() - at,
    {
        if is_at(&chars, &needle, at) {
            return true;
        }
        at = at + 1;
    }
    assert(forall|at: int| !stands_at(s@, part@, at));
    false
}

/// `a` comes before `b` in the order of their characters.
pub open spec fn text_before(a: Seq<char>, b: Seq<char>) -> bool
    decreases a.len(),
{
    if b.len() == 0 {
        false
    } else if a.len() == 0 {
        true
    } else if a[0] != b[0] {
        a[0] < b[0]
    } else {
        text_before(a.skip(1), b.skip(1))
    }
}

/// Tells whether `a` comes before `b`.
pub fn is_text_before(a: &str, b: &str) -> (before: bool)
    ensures
        before == text_before(a@, b@),
{
    let left = chars_of(a);
    let right = chars_of(b);
    let mut i: usize = 0;
    assert(left@.skip(0) =~= a@);
    assert(right@.skip(0) =~= b@);
    while i < left.len() && i < right.len() && left[i] == right[i]
        invariant
            i <= left.len(),
            i <= right.len(),
            text_before(a@, b@) == text_before(left@.skip(i as int), right@.skip(i as int)),
        decreases left.len() - i,
    {
        proof {
            assert(left@.skip(i as int).skip(1) =~= left@.skip(i + 1));
            assert(right@.skip(i as int).skip(1) =~= right@.skip(i + 1));
        }
        i = i + 1;
    }
    if i == right.len() {
        false
    } else if i == left.len() {
        true
    } else {
        left[i] < right[i]
    }
}

/// The order of texts is total: of two different texts one comes first.
pub proof fn text_order_is_total(a: Seq<char>, b: Seq<char>)
    ensures
        a == b || text_before(a, b) || text_before(b, a),
        !(text_before(a, b) && text_before(b, a)),
        !text_before(a, a),
    decreases a.len(),
{
    if a.len() > 0 && b.len() > 0 && a[0] == b[0] {
        text_order_is_total(a.skip(1), b.skip(1));
        if a.skip(1) == b.skip(1) {
            assert(a =~= seq![a[0]] + a.skip(1));
            assert(b =~= seq![b[0]] + b.skip(1));
        }
    } else if a.len() == 0 && b.len() == 0 {
        assert(a =~= b);
    }
    if a.len() > 0 {
        text_order_is_total(a.skip(1), a.skip(1));
    }
}

/// The order of texts is transitive.
pub proof fn text_order_is_transitive(a: Seq<char>, b: Seq<char>, c: Seq<char>)
    requires
        text_before(a, b),
        text_before(b, c),
    ensures
        text_before(a, c),
    decreases a.len(),
{
    if a.len() > 0 && a[0] == b[0] && b[0] == c[0] {
        text_order_is_transitive(a.skip(1), b.skip(1), c.skip(1));
    }
}

/// The decimal digits of `n`, without leading zeros.
pub open spec fn decimal(n: nat) -> Seq<char>
    decreases n,
{
    if n < 10 {
        seq![('0' as int + n) as char]
    } else {
        decimal(n / 10).push(('0' as int + n % 10) as char)
    }
}

/// Writes `n` in decimal.
pub fn decimal_text(n: u64) -> (text: String)
    ensures
        text@ == decimal(n as nat),
    decreases n,
{
    let digit: char = (48 + (n % 10) as u8) as char;
    if n < 10 {
        let mut text: String = String::new();
        text.push(digit);
        assert(text@ =~= decimal(n as nat));
        text
    } else {
        let mut text = decimal_text(n / 10);
        text.push(digit);
        text
    }
}

/// All characters are ASCII characters.
pub open spec fn is_ascii_text(s: Seq<char>) -> bool {
    forall|i: int| 0 <= i < s.len() ==> #[trigger] s[i] as int <= 0x7f
}

/// What `str::to_lowercase` makes of a text that is not all ASCII: each character by the
/// lower-case mapping of Unicode, a final sigma by its place in the word.
pub uninterp spec fn unicode_lowered(s: Seq<char>) -> Seq<char>;

/// A text in lower case.
pub open spec fn lowered(s: Seq<char>) -> Seq<char> {
    if is_ascii_text(s) {
        ascii_lowered(s)
    } else {
        unicode_lowered(s)
    }
}

/// `str::to_lowercase` lowers a text by the rules of Unicode; of ASCII text it lowers the
/// letters `A` to `Z` and leaves the rest.
#[verifier::external_body]
pub(crate) fn lowercase(s: &str) -> (lower: String)
    ensures
        lower@ == if is_ascii_text(s@) {
            ascii_lowered(s@)
        } else {
            unicode_lowered(s@)
        },
{
    s.to_lowercase()
}

/// ASCII texts that differ in case alone are the same in lower case.
pub proof fn case_of_ascii_does_not_matter(a: Seq<char>, b: Seq<char>)
    requires
        is_ascii_text(a),
        ascii_lowered(a) == ascii_lowered(b),
    ensures
        lowered(a) == lowered(b),
{
    assert(a.len() == ascii_lowered(a).len() && b.len() == ascii_lowered(b).len());
    assert forall|i: int| 0 <= i < b.len() implies #[trigger] b[i] as int <= 0x7f by {
        assert(ascii_lowered(a)[i] == ascii_lower(a[i]));
        assert(ascii_lowered(b)[i] == ascii_lower(b[i]));
        assert(a[i] as int <= 0x7f);
    }
}

/// The words of `FromUtf8Error` about bytes that are not valid UTF-8.
pub uninterp spec fn utf8_error(bytes: Seq<u8>) -> Seq<char>;

/// `String::from_utf8` accepts exactly the valid UTF-8 byte strings and decodes them.
#[verifier::external_body]
pub(crate) fn text_from_utf8(bytes: Vec<u8>) -> (text: Result<String, String>)
    ensures
        match text {
            Ok(t) => valid_utf8(bytes@) && t@ == decode_utf8(bytes@),
            Err(e) => !valid_utf8(bytes@) && e@ == utf8_error(bytes@),
        },
{
    String::from_utf8(bytes).map_err(|e| e.to_string())
}

/// What `String::from_utf8_lossy` makes of bytes.
pub uninterp spec fn lossy_text(bytes: Seq<u8>) -> Seq<char>;

/// `String::from_utf8_lossy` decodes bytes and puts a replacement character for what is
/// not valid: a valid start is decoded as it stands.
#[verifier::external_body]
pub(crate) fn text_from_utf8_lossy(bytes: &[u8]) -> (text: String)
    ensures
        text@ == lossy_text(bytes@),
        forall|n: int|
            0 <= n <= bytes@.len() && valid_utf8(#[trigger] bytes@.take(n)) ==> decode_utf8(
                bytes@.take(n),
            ).is_prefix_of(text@),
{
    String::from_utf8_lossy(bytes).into_owned()
}

/// The first place from `from` on at which `s` holds `part`.
pub open spec fn first_at(s: Seq<char>, part: Seq<char>, from: int) -> Option<int>
    decreases s.len() - from,
{
    if from < 0 || from + part.len() > s.len() {
        None
    } else if stands_at(s, part, from) {
        Some(from)
    } else if from == s.len() {
        None
    } else {
        first_at(s, part, from + 1)
    }
}

/// The first place is one at which the part stands, and no earlier one is.
pub proof fn first_at_is_first(s: Seq<char>, part: Seq<char>, from: int)
    requires
        0 <= from,
    ensures
        match first_at(s, part, from) {
            Some(at) => from <= at && stands_at(s, part, at) && forall|i: int|
                from <= i < at ==> !stands_at(s, part, i),
            None => forall|i: int| from <= i ==> !stands_at(s, part, i),
        },
    decreases s.len() - from,
{
    if from + part.len() <= s.len() && !stands_at(s, part, from) && from < s.len() {
        first_at_is_first(s, part, from + 1);
    }
}

/// Finds the first place from `from` on at which `chars` holds `part`.
pub fn find_from(chars: &Vec<char>, part: &Vec<char>, from: usize) -> (at: Option<usize>)
    ensures
        match at {
            Some(i) => first_at(chars@, part@, from as int) == Some(i as int) && from <= i && i
                + part.len() <= chars.len(),
            None => first_at(chars@, part@, from as int) is None,
        },
{
    let mut at: usize = from;
    while at <= chars.len() && part.len() <= chars.len() - at
        invariant
            from <= at,
            first_at(chars@, part@, from as int) == first_at(chars@, part@, at as int),
        decreases chars.len() + 1 - at,
    {
        if is_at(chars, part, at) {
            return Some(at);
        }
        if at == chars.len() {
            return None;
        }
        at = at + 1;
    }
    None
}

/// The value of a digit to a base.
pub open spec fn digit_value(c: char, base: int) -> Option<int> {
    match bytes::hex_value(c) {
        Some(v) => if v < base {
            Some(v)
        } else {
            None
        },
        None => None,
    }
}

/// The number that digits stand for.
pub open spec fn digits_number(s: Seq<char>, base: int) -> Option<int>
    decreases s.len(),
{
    if s.len() == 0 {
        Some(0)
    } else {
        match (digits_number(s.drop_last(), base), digit_value(s.last(), base)) {
            (Some(n), Some(d)) => Some(n * base + d),
            _ => None,
        }
    }
}

/// The number in a text: digits, at least one, after a plus sign if there is one.
pub open spec fn number_in(s: Seq<char>, base: int, max: int) -> Option<int> {
    let digits = if s.len() > 1 && s[0] == '+' {
        s.skip(1)
    } else {
        s
    };
    match digits_number(digits, base) {
        Some(n) => if digits.len() > 0 && n <= max {
            Some(n)
        } else {
            None
        },
        None => None,
    }
}

proof fn numbers_grow(s: Seq<char>, base: int, i: int)
    requires
        base == 10 || base == 16,
        0 <= i <= s.len(),
    ensures
        match (digits_number(s, base), digits_number(s.take(i), base)) {
            (Some(n), Some(m)) => 0 <= m <= n,
            (Some(n), None) => false,
            (None, Some(m)) => 0 <= m,
            (None, None) => true,
        },
    decreases s.len(),
{
    if i == s.len() {
        assert(s.take(i) =~= s);
        if s.len() > 0 {
            numbers_grow(s.drop_last(), base, i - 1);
        }
    } else {
        numbers_grow(s.drop_last(), base, i);
        assert(s.drop_last().take(i) =~= s.take(i));
    }
}

fn value_of_digit(c: char) -> (value: Option<u64>)
    ensures
        match value {
            Some(v) => bytes::hex_value(c) == Some(v as int) && v < 16,
            None => bytes::hex_value(c) is None,
        },
{
    let code: u64 = c as u64;
    if '0' <= c && c <= '9' {
        Some(code - 48)
    } else if 'a' <= c && c <= 'f' {
        Some(code - 87)
    } else if 'A' <= c && c <= 'F' {
        Some(code - 55)
    } else {
        None
    }
}

/// Reads the number in a part of a text, to base ten or sixteen.
pub fn read_number(chars: &Vec<char>, from: usize, to: usize, base: u64, max: u64) -> (number: Option<
    u64,
>)
    requires
        from <= to <= chars.len(),
        base == 10 || base == 16,
    ensures
        match number {
            Some(n) => number_in(chars@.subrange(from as int, to as int), base as int, max as int)
                == Some(n as int),
            None => number_in(chars@.subrange(from as int, to as int), base as int, max as int)
                is None,
        },
{
    let ghost whole = chars@.subrange(from as int, to as int);
    let start: usize = if to - from > 1 && chars[from] == '+' {
        from + 1
    } else {
        from
    };
    let ghost digits = chars@.subrange(start as int, to as int);
    proof {
        if start > from {
            assert(whole.skip(1) =~= digits);
        }
        if to > from {
            assert(whole[0] == chars@[from as int]);
        }
        assert(digits == if whole.len() > 1 && whole[0] == '+' {
            whole.skip(1)
        } else {
            whole
        });
    }
    if start == to {
        return None;
    }
    let mut n: u64 = 0;
    let mut i: usize = start;
    assert(digits.take(0) =~= Seq::<char>::empty());
    while i < to
        invariant
            start <= i <= to <= chars.len(),
            start < to,
            base == 10 || base == 16,
            n <= max,
            digits == chars@.subrange(start as int, to as int),
            digits_number(digits.take(i - start), base as int) == Some(n as int),
            number_in(whole, base as int, max as int) == match digits_number(digits, base as int) {
                Some(m) => if m <= max {
                    Some(m)
                } else {
                    None
                },
                None => None,
            },
            whole == chars@.subrange(from as int, to as int),
        decreases to - i,
    {
        let ghost k = i - start;
        proof {
            assert(digits.take(k + 1).drop_last() =~= digits.take(k));
            assert(digits.take(k + 1).last() == chars@[i as int]);
            numbers_grow(digits, base as int, k + 1);
        }
        let digit: u64 = match value_of_digit(chars[i]) {
            Some(d) => if d < base {
                d
            } else {
                return None;
            },
            None => return None,
        };
        let next: u64 = match n.checked_mul(base) {
            Some(product) => match product.checked_add(digit) {
                Some(sum) => sum,
                None => return None,
            },
            None => return None,
        };
        if next > max {
            return None;
        }
        n = next;
        i = i + 1;
    }
    assert(digits.take(to - start) =~= digits);
    Some(n)
}

/// Texts are ordered by the first place at which they differ: by the characters there, or,
/// where one is a start of the other, the shorter one first.
pub proof fn texts_are_ordered_by_their_first_difference(a: Seq<char>, b: Seq<char>, k: int)
    requires
        0 <= k <= a.len(),
        k <= b.len(),
        a.take(k) == b.take(k),
        k < a.len() && k < b.len() ==> a[k] != b[k],
    ensures
        k < a.len() && k < b.len() ==> (text_before(a, b) <==> (a[k] as int) < (b[k] as int)),
        k == a.len() ==> (text_before(a, b) <==> a.len() < b.len()),
        k == b.len() ==> !text_before(a, b),
    decreases k,
{
    if k > 0 {
        assert(a.take(k)[0] == a[0] && b.take(k)[0] == b[0]);
        assert(a.skip(1).take(k - 1) =~= a.take(k).skip(1));
        assert(b.skip(1).take(k - 1) =~= b.take(k).skip(1));
        texts_are_ordered_by_their_first_difference(a.skip(1), b.skip(1), k - 1);
    }
}

/// No ASCII character is white space but the blank and those from tab to carriage return,
/// and those are.
pub proof fn ascii_white_space_is_blank_or_tab_to_return(c: char)
    requires
        c as u32 <= 0x7f,
    ensures
        is_white(c) <==> c == ' ' || c == '\t' || c == '\n' || c == '\x0b' || c == '\x0c' || c
            == '\r',
{
}

proof fn leading_white_is_a_start(s: Seq<char>) -> (from: int)
    ensures
        0 <= from <= s.len(),
        without_leading_white(s) == s.skip(from),
        forall|i: int| 0 <= i < from ==> is_white(#[trigger] s[i]),
    decreases s.len(),
{
    if s.len() > 0 && is_white(s[0]) {
        let rest = s.skip(1);
        let from = leading_white_is_a_start(rest);
        assert(rest.skip(from) =~= s.skip(from + 1));
        assert forall|i: int| 0 <= i < from + 1 implies is_white(#[trigger] s[i]) by {
            if i > 0 {
                assert(rest[i - 1] == s[i]);
            }
        }
        from + 1
    } else {
        assert(s.skip(0) =~= s);
        0
    }
}

proof fn trailing_white_is_an_end(s: Seq<char>) -> (to: int)
    ensures
        0 <= to <= s.len(),
        without_trailing_white(s) == s.take(to),
        forall|i: int| to <= i < s.len() ==> is_white(#[trigger] s[i]),
    decreases s.len(),
{
    if s.len() > 0 && is_white(s.last()) {
        let rest = s.drop_last();
        let to = trailing_white_is_an_end(rest);
        assert(rest.take(to) =~= s.take(to));
        assert forall|i: int| to <= i < s.len() implies is_white(#[trigger] s[i]) by {
            if i < rest.len() {
                assert(rest[i] == s[i]);
            }
        }
        to
    } else {
        assert(s.take(s.len() as int) =~= s);
        s.len() as int
    }
}

/// Trimming leaves one stretch of the text as it stands, and only white space is taken off
/// before and behind it.
pub proof fn trimming_takes_off_white_ends_alone(s: Seq<char>)
    ensures
        exists|from: int, to: int|
            0 <= from <= to <= s.len() && trimmed(s) == #[trigger] s.subrange(from, to) && (forall|
                i: int,
            |
                (0 <= i < from || to <= i < s.len()) ==> is_white(#[trigger] s[i])),
{
    let from = leading_white_is_a_start(s);
    let rest = s.skip(from);
    let to = trailing_white_is_an_end(rest);
    assert(rest.take(to) =~= s.subrange(from, from + to));
    assert forall|i: int| (0 <= i < from || from + to <= i < s.len()) implies is_white(
        #[trigger] s[i],
    ) by {
        if i >= from {
            assert(rest[i - from] == s[i]);
        }
    }
}

/// Lowering ASCII text changes the letters from `A` to `Z` to those from `a` to `z`, each at
/// its place, and nothing else.
pub proof fn lowering_changes_capital_letters_alone(s: Seq<char>, i: int)
    requires
        0 <= i < s.len(),
    ensures
        ascii_lowered(s).len() == s.len(),
        65 <= s[i] as int <= 90 ==> ascii_lowered(s)[i] as int == s[i] as int + 32,
        !(65 <= s[i] as int <= 90) ==> ascii_lowered(s)[i] == s[i],
        is_ascii_text(s) ==> lowered(s) == ascii_lowered(s),
{
}

proof fn decimal_digits_are_read(n: nat)
    ensures
        digits_number(decimal(n), 10) == Some(n as int),
        decimal(n).len() > 0,
        decimal(n)[0] != '+',
    decreases n,
{
    if n < 10 {
        assert(decimal(n).drop_last() =~= Seq::<char>::empty());
        reveal_with_fuel(digits_number, 2);
    } else {
        decimal_digits_are_read(n / 10);
        assert(decimal(n).drop_last() =~= decimal(n / 10));
        assert(decimal(n)[0] == decimal(n / 10)[0]);
    }
}

/// A number that is not too large is read back from its decimal digits.
pub proof fn decimal_numbers_are_read_back(n: nat, max: int)
    ensures
        number_in(decimal(n), 10, max) == (if n <= max {
            Some(n as int)
        } else {
            None
        }),
{
    decimal_digits_are_read(n);
}

/// The digits of a number are read from left to right, each one counting for its place; anything
/// but a digit makes it none.
pub proof fn digits_count_for_their_place(s: Seq<char>, c: char)
    ensures
        digits_number(Seq::empty(), 10) == Some(0int),
        '0' <= c <= '9' && digits_number(s, 10) is Some ==> digits_number(s.push(c), 10) == Some(
            10 * digits_number(s, 10)->Some_0 + (c as int - 48),
        ),
        !('0' <= c <= '9') ==> digits_number(s.push(c), 10) is None,
        digits_number(s, 10) is None ==> digits_number(s.push(c), 10) is None,
        '0' <= c <= '9' && digits_number(s, 16) is Some ==> digits_number(s.push(c), 16) == Some(
            16 * digits_number(s, 16)->Some_0 + (c as int - 48),
        ),
        'a' <= c <= 'f' && digits_number(s, 16) is Some ==> digits_number(s.push(c), 16) == Some(
            16 * digits_number(s, 16)->Some_0 + (c as int - 87),
        ),
        'A' <= c <= 'F' && digits_number(s, 16) is Some ==> digits_number(s.push(c), 16) == Some(
            16 * digits_number(s, 16)->Some_0 + (c as int - 55),
        ),
{
    assert(s.push(c).drop_last() =~= s);
    bytes::hexadecimal_digits_have_values(c);
}

} // verus!
