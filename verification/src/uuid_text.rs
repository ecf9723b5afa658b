//! Device and event identifiers: sixteen bytes and their textual forms.

use crate::bytes;
use crate::text;
use vstd::prelude::*;
use vstd::utf8::*;

verus! {

/// Where the `i`-th hexadecimal digit stands in the hyphenated form.
pub open spec fn digit_place(i: int) -> int {
    i + (if i >= 8 { 1int } else { 0 }) + (if i >= 12 { 1int } else { 0 }) + (if i >= 16 {
        1int
    } else {
        0
    }) + (if i >= 20 { 1int } else { 0 })
}

/// The bytes that 32 hexadecimal digits stand for, where digit `i` is `s[place(i)]`.
pub open spec fn bytes_of_digits(s: Seq<char>, place: spec_fn(int) -> int) -> Option<Seq<u8>> {
    if forall|i: int| #![trigger place(i)] 0 <= i < 32 ==> bytes::hex_value(s[place(i)]) is Some {
        Some(
            Seq::new(
                16,
                |k: int|
                    (bytes::hex_value(s[place(2 * k)])->Some_0 * 16 + bytes::hex_value(
                        s[place(2 * k + 1)],
                    )->Some_0) as u8,
            ),
        )
    } else {
        None
    }
}

/// The bytes of a hyphenated identifier: groups of 8, 4, 4, 4 and 12 digits.
pub open spec fn bytes_of_hyphenated(s: Seq<char>) -> Option<Seq<u8>> {
    if s.len() == 36 && s[8] == '-' && s[13] == '-' && s[18] == '-' && s[23] == '-' {
        bytes_of_digits(s, |i: int| digit_place(i))
    } else {
        None
    }
}

/// The bytes of an identifier in any of its forms: 32 digits, hyphenated,
/// hyphenated in braces, or hyphenated behind `urn:uuid:`.
pub open spec fn uuid_bytes(s: Seq<char>) -> Option<Seq<u8>> {
    if s.len() == 32 {
        bytes_of_digits(s, |i: int| i)
    } else if s.len() == 36 {
        bytes_of_hyphenated(s)
    } else if s.len() == 38 && s[0] == '{' && s[37] == '}' {
        bytes_of_hyphenated(s.subrange(1, 37))
    } else if s.len() == 45 && text::ascii_lowered(s.subrange(0, 9)) == "urn:uuid:"@ {
        bytes_of_hyphenated(s.subrange(9, 45))
    } else {
        None
    }
}

/// Which digit stands at place `p` of the hyphenated form.
pub open spec fn digit_at_place(p: int) -> int {
    p - (if p > 8 { 1int } else { 0 }) - (if p > 13 { 1int } else { 0 }) - (if p > 18 {
        1int
    } else {
        0
    }) - (if p > 23 { 1int } else { 0 })
}

/// The hyphenated form of sixteen bytes, in lower case.
pub open spec fn hyphenated(b: Seq<u8>) -> Seq<char> {
    Seq::new(
        36,
        |p: int|
            if p == 8 || p == 13 || p == 18 || p == 23 {
                '-'
            } else {
                let i = digit_at_place(p);
                bytes::hex_digit(if i % 2 == 0 { b[i / 2] as int / 16 } else { b[i / 2] as int % 16 })
            },
    )
}

/// The identifier that stands for no device.
pub open spec fn is_nil(b: Seq<u8>) -> bool {
    forall|i: int| 0 <= i < b.len() ==> b[i] == 0
}

/// The hyphenated form of an identifier is read back as the identifier.
pub proof fn hyphenated_is_read_back(b: Seq<u8>)
    requires
        b.len() == 16,
    ensures
        uuid_bytes(hyphenated(b)) == Some(b),
{
    let s = hyphenated(b);
    let place = |i: int| digit_place(i);
    assert forall|i: int| 0 <= i < 32 implies {
        &&& 0 <= digit_place(i) < 36
        &&& digit_at_place(digit_place(i)) == i
        &&& bytes::hex_value(#[trigger] s[place(i)]) == Some(
            if i % 2 == 0 {
                b[i / 2] as int / 16
            } else {
                b[i / 2] as int % 16
            },
        )
    } by {
        let v = if i % 2 == 0 { b[i / 2] as int / 16 } else { b[i / 2] as int % 16 };
        bytes::hex_digit_is_read_back(v);
    }
    let read = bytes_of_digits(s, place);
    assert(read is Some);
    assert forall|k: int| 0 <= k < 16 implies #[trigger] read->Some_0[k] == b[k] by {
        assert(bytes::hex_value(s[place(2 * k)]) == Some(b[k] as int / 16));
        assert(bytes::hex_value(s[place(2 * k + 1)]) == Some(b[k] as int % 16));
    }
    assert(read->Some_0 =~= b);
}

/// An identifier in any of its forms is short ASCII text.
pub proof fn uuid_text_is_short_ascii(s: Seq<char>)
    requires
        uuid_bytes(s) is Some,
    ensures
        is_ascii_chars(s),
        s.len() <= 45,
{
    if s.len() == 32 {
        let place = |i: int| i;
        assert forall|i: int| 0 <= i < s.len() implies '\0' <= #[trigger] s[i] <= '\u{7f}' by {
            assert(bytes::hex_value(s[place(i)]) is Some);
        }
    } else if s.len() == 36 {
        hyphenated_is_ascii(s);
    } else if s.len() == 38 {
        hyphenated_is_ascii(s.subrange(1, 37));
        assert forall|i: int| 0 <= i < s.len() implies '\0' <= #[trigger] s[i] <= '\u{7f}' by {
            if 0 < i < 37 {
                assert(s.subrange(1, 37)[i - 1] == s[i]);
            }
        }
    } else {
        hyphenated_is_ascii(s.subrange(9, 45));
        let prefix = text::ascii_lowered(s.subrange(0, 9));
        reveal_strlit("urn:uuid:");
        assert forall|i: int| 0 <= i < s.len() implies '\0' <= #[trigger] s[i] <= '\u{7f}' by {
            if i < 9 {
                assert(prefix[i] == text::ascii_lower(s[i]));
                assert('\0' <= prefix[i] <= '\u{7f}');
            } else {
                assert(s.subrange(9, 45)[i - 9] == s[i]);
            }
        }
    }
}

proof fn hyphenated_is_ascii(s: Seq<char>)
    requires
        bytes_of_hyphenated(s) is Some,
    ensures
        is_ascii_chars(s),
{
    let place = |i: int| digit_place(i);
    assert forall|p: int| 0 <= p < s.len() implies '\0' <= #[trigger] s[p] <= '\u{7f}' by {
        if p != 8 && p != 13 && p != 18 && p != 23 {
            let i = digit_at_place(p);
            assert(place(i) == p);
            assert(bytes::hex_value(s[place(i)]) is Some);
        }
    }
}

/// `uuid::Uuid::parse_str` reads the forms that `uuid_bytes` describes and
/// refuses every other text.
#[verifier::external_body]
pub(crate) fn parse_uuid_text(value: &str) -> (bytes: Option<[u8; 16]>)
    ensures
        match bytes {
            Some(b) => uuid_bytes(value@) == Some(b@),
            None => uuid_bytes(value@) is None,
        },
{
    uuid::Uuid::parse_str(value).ok().map(|id| id.into_bytes())
}

/// `uuid::Uuid::hyphenated` writes the lowercase hyphenated form.
#[verifier::external_body]
pub(crate) fn hyphenated_text(bytes: [u8; 16]) -> (text: String)
    ensures
        text@ == hyphenated(bytes@),
{
    uuid::Uuid::from_bytes(bytes).hyphenated().to_string()
}

/// `uuid::Uuid::new_v4` draws an identifier whose version field is four.
#[verifier::external_body]
pub(crate) fn random_uuid() -> (bytes: [u8; 16])
    ensures
        64 <= bytes@[6] < 80,
{
    uuid::Uuid::new_v4().into_bytes()
}

/// Tells whether an identifier is the one that stands for no device.
pub fn is_nil_uuid(bytes: &[u8; 16]) -> (nil: bool)
    ensures
        nil == is_nil(bytes@),
{
    let mut i: usize = 0;
    while i < 16
        invariant
            i <= 16,
            forall|j: int| 0 <= j < i ==> bytes@[j] == 0,
        decreases 16 - i,
    {
        if bytes[i] != 0 {
            return false;
        }
        i = i + 1;
    }
    true
}

/// An identifier in braces is the identifier.
pub proof fn braced_identifiers_are_known(b: Seq<u8>)
    requires
        b.len() == 16,
    ensures
        uuid_bytes(seq!['{'] + hyphenated(b) + seq!['}']) == Some(b),
{
    hyphenated_is_read_back(b);
    let h = hyphenated(b);
    let braced = seq!['{'] + h + seq!['}'];
    assert(h.len() == 36);
    assert(braced.len() == 38);
    assert(braced[0] == '{' && braced[37] == '}');
    assert(braced.subrange(1, 37) =~= h);
    assert(uuid_bytes(h) == bytes_of_hyphenated(h));
    assert(uuid_bytes(braced) == bytes_of_hyphenated(braced.subrange(1, 37)));
}

/// An identifier behind `urn:uuid:` is the identifier.
pub proof fn identifiers_are_known_as_names(b: Seq<u8>)
    requires
        b.len() == 16,
    ensures
        uuid_bytes("urn:uuid:"@ + hyphenated(b)) == Some(b),
{
    hyphenated_is_read_back(b);
    let h = hyphenated(b);
    reveal_strlit("urn:uuid:");
    let prefix = "urn:uuid:"@;
    let named = prefix + h;
    assert(h.len() == 36);
    assert(prefix.len() == 9);
    assert(named.subrange(0, 9) =~= prefix);
    assert(text::ascii_lowered(prefix) =~= prefix);
    assert(named.subrange(9, 45) =~= h);
    assert(uuid_bytes(h) == bytes_of_hyphenated(h));
    assert(uuid_bytes(named) == bytes_of_hyphenated(named.subrange(9, 45)));
}

/// Nothing else is an identifier: it has 32, 36, 38 or 45 characters, and of 36 characters
/// four are dashes, each in its place.
pub proof fn identifiers_have_a_form(s: Seq<char>)
    requires
        uuid_bytes(s) is Some,
    ensures
        s.len() == 32 || s.len() == 36 || s.len() == 38 || s.len() == 45,
        s.len() == 36 ==> s[8] == '-' && s[13] == '-' && s[18] == '-' && s[23] == '-',
        s.len() == 38 ==> s[0] == '{' && s[37] == '}',
{
}

/// An identifier of zeros is none of a device, and any other one is.
pub proof fn zeros_alone_are_nil(b: Seq<u8>, i: int)
    requires
        b.len() == 16,
        0 <= i < 16,
    ensures
        b[i] != 0 ==> !is_nil(b),
        (forall|k: int| 0 <= k < 16 ==> #[trigger] b[k] == 0) ==> is_nil(b),
{
}

proof fn case_of_digits_does_not_matter(a: Seq<char>, b: Seq<char>, place: spec_fn(int) -> int)
    requires
        text::ascii_lowered(a) == text::ascii_lowered(b),
        forall|i: int| 0 <= i < 32 ==> 0 <= #[trigger] place(i) < a.len(),
    ensures
        bytes_of_digits(a, place) == bytes_of_digits(b, place),
{
    assert(a.len() == text::ascii_lowered(a).len());
    assert(b.len() == text::ascii_lowered(b).len());
    assert forall|i: int| 0 <= i < 32 implies bytes::hex_value(a[#[trigger] place(i)])
        == bytes::hex_value(b[place(i)]) by {
        let p = place(i);
        assert(text::ascii_lowered(a)[p] == text::ascii_lower(a[p]));
        assert(text::ascii_lowered(b)[p] == text::ascii_lower(b[p]));
    }
    if bytes_of_digits(a, place) is Some {
        let x = bytes_of_digits(a, place)->Some_0;
        assert forall|i: int| #![trigger place(i)] 0 <= i < 32 implies bytes::hex_value(
            b[place(i)],
        ) is Some by {
            assert(bytes::hex_value(a[place(i)]) is Some);
        }
        let y = bytes_of_digits(b, place)->Some_0;
        assert forall|k: int| 0 <= k < 16 implies x[k] == y[k] by {
            assert(bytes::hex_value(a[place(2 * k)]) == bytes::hex_value(b[place(2 * k)]));
            assert(bytes::hex_value(a[place(2 * k + 1)]) == bytes::hex_value(b[place(2 * k + 1)]));
        }
        assert(x =~= y);
    }
    if bytes_of_digits(b, place) is Some {
        assert forall|i: int| #![trigger place(i)] 0 <= i < 32 implies bytes::hex_value(
            a[place(i)],
        ) is Some by {
            assert(bytes::hex_value(b[place(i)]) is Some);
        }
    }
}

/// Identifiers are read in whatever case their digits are written, with dashes and without.
pub proof fn identifiers_are_read_in_any_case(a: Seq<char>, b: Seq<char>)
    requires
        a.len() == 32 || a.len() == 36,
        text::ascii_lowered(a) == text::ascii_lowered(b),
    ensures
        uuid_bytes(a) == uuid_bytes(b),
{
    assert(a.len() == text::ascii_lowered(a).len());
    assert(b.len() == text::ascii_lowered(b).len());
    if a.len() == 32 {
        case_of_digits_does_not_matter(a, b, |i: int| i);
    } else {
        assert forall|p: int| 0 <= p < 36 implies (a[p] == '-' <==> #[trigger] b[p] == '-') by {
            assert(text::ascii_lowered(a)[p] == text::ascii_lower(a[p]));
            assert(text::ascii_lowered(b)[p] == text::ascii_lower(b[p]));
        }
        case_of_digits_does_not_matter(a, b, |i: int| digit_place(i));
        assert(a[8] == '-' <==> b[8] == '-');
        assert(a[13] == '-' <==> b[13] == '-');
        assert(a[18] == '-' <==> b[18] == '-');
        assert(a[23] == '-' <==> b[23] == '-');
    }
}

} // verus!
