//! IPv4 addresses: their text, and which of them belong to a local network.

use crate::text;
use crate::text::{chars_of, decimal_text, text_of};
use vstd::prelude::*;

verus! {

/// An IPv4 address, its four numbers in order.
pub type Ipv4 = [u8; 4];

/// An address as text: its numbers in decimal, with dots between them.
pub open spec fn ipv4_text(b: Seq<u8>) -> Seq<char> {
    text::decimal(b[0] as nat) + seq!['.'] + text::decimal(b[1] as nat) + seq!['.']
        + text::decimal(b[2] as nat) + seq!['.'] + text::decimal(b[3] as nat)
}

/// `s` is how address `b` is written.
pub open spec fn is_text_of(s: Seq<char>, b: Seq<u8>) -> bool {
    b.len() == 4 && s == ipv4_text(b)
}

/// The address that a text stands for.
pub open spec fn ipv4_of(s: Seq<char>) -> Option<Seq<u8>> {
    if exists|b: Seq<u8>| is_text_of(s, b) {
        Some(choose|b: Seq<u8>| is_text_of(s, b))
    } else {
        None
    }
}

/// A decimal digit.
pub open spec fn is_digit(c: char) -> bool {
    '0' <= c <= '9'
}

/// The number that digits stand for.
pub open spec fn value(s: Seq<char>) -> int
    decreases s.len(),
{
    if s.len() == 0 {
        0
    } else {
        value(s.drop_last()) * 10 + (s.last() as int - '0' as int)
    }
}

/// The place of the first dot from `from` on, or the length of the text.
pub open spec fn next_dot(s: Seq<char>, from: int) -> int
    decreases s.len() - from,
{
    if from >= s.len() || s[from] == '.' {
        from
    } else {
        next_dot(s, from + 1)
    }
}

/// A decimal number is made of digits and stands for itself.
pub proof fn decimal_is_read_back(n: nat)
    ensures
        text::decimal(n).len() > 0,
        forall|i: int| 0 <= i < text::decimal(n).len() ==> is_digit(#[trigger] text::decimal(n)[i]),
        value(text::decimal(n)) == n,
        n < 1000 ==> text::decimal(n).len() <= 3,
    decreases n,
{
    if n < 10 {
        assert(text::decimal(n).drop_last() =~= Seq::<char>::empty());
        assert(value(text::decimal(n).drop_last()) == 0);
    } else {
        decimal_is_read_back(n / 10);
        assert(text::decimal(n).drop_last() =~= text::decimal(n / 10));
        if n < 1000 {
            if n / 10 >= 10 {
                decimal_is_read_back(n / 100);
                assert(n / 10 / 10 == n / 100);
                assert(n / 100 < 10);
                assert(text::decimal(n / 100).len() == 1);
                assert(text::decimal(n / 10).len() == 2);
            } else {
                assert(text::decimal(n / 10).len() == 1);
            }
        }
    }
}

proof fn next_dot_skips_digits(s: Seq<char>, from: int, to: int)
    requires
        0 <= from <= to <= s.len(),
        forall|i: int| from <= i < to ==> is_digit(#[trigger] s[i]),
        to == s.len() || s[to] == '.',
    ensures
        next_dot(s, from) == to,
    decreases to - from,
{
    if from < to {
        assert(is_digit(s[from]));
        next_dot_skips_digits(s, from + 1, to);
    }
}

/// The parts of an address as text stand where its dots are.
proof fn parts_of_text(b: Seq<u8>)
    requires
        b.len() == 4,
    ensures
        ({
            let s = ipv4_text(b);
            let p = next_dot(s, 0);
            let q = next_dot(s, p + 1);
            let r = next_dot(s, q + 1);
            &&& 0 <= p < q < r < s.len()
            &&& next_dot(s, r + 1) == s.len()
            &&& s.subrange(0, p) == text::decimal(b[0] as nat)
            &&& s.subrange(p + 1, q) == text::decimal(b[1] as nat)
            &&& s.subrange(q + 1, r) == text::decimal(b[2] as nat)
            &&& s.subrange(r + 1, s.len() as int) == text::decimal(b[3] as nat)
        }),
{
    let s = ipv4_text(b);
    let t0 = text::decimal(b[0] as nat);
    let t1 = text::decimal(b[1] as nat);
    let t2 = text::decimal(b[2] as nat);
    let t3 = text::decimal(b[3] as nat);
    decimal_is_read_back(b[0] as nat);
    decimal_is_read_back(b[1] as nat);
    decimal_is_read_back(b[2] as nat);
    decimal_is_read_back(b[3] as nat);
    let p = t0.len() as int;
    let q = p + 1 + t1.len();
    let r = q + 1 + t2.len();
    assert(s.len() == r + 1 + t3.len());
    assert(s.subrange(0, p) =~= t0);
    assert(s.subrange(p + 1, q) =~= t1);
    assert(s.subrange(q + 1, r) =~= t2);
    assert(s.subrange(r + 1, s.len() as int) =~= t3);
    assert forall|i: int| 0 <= i < p implies is_digit(#[trigger] s[i]) by {
        assert(s[i] == t0[i]);
    }
    assert forall|i: int| p + 1 <= i < q implies is_digit(#[trigger] s[i]) by {
        assert(s[i] == t1[i - p - 1]);
    }
    assert forall|i: int| q + 1 <= i < r implies is_digit(#[trigger] s[i]) by {
        assert(s[i] == t2[i - q - 1]);
    }
    assert forall|i: int| r + 1 <= i < s.len() implies is_digit(#[trigger] s[i]) by {
        assert(s[i] == t3[i - r - 1]);
    }
    next_dot_skips_digits(s, 0, p);
    next_dot_skips_digits(s, p + 1, q);
    next_dot_skips_digits(s, q + 1, r);
    next_dot_skips_digits(s, r + 1, s.len() as int);
}

/// An address is read back from its text, and no two addresses share a text.
pub proof fn ipv4_text_is_read_back(b: Seq<u8>)
    requires
        b.len() == 4,
    ensures
        ipv4_of(ipv4_text(b)) == Some(b),
{
    let s = ipv4_text(b);
    assert(is_text_of(s, b));
    let c = choose|c: Seq<u8>| is_text_of(s, c);
    parts_of_text(b);
    parts_of_text(c);
    assert forall|i: int| 0 <= i < 4 implies b[i] == c[i] by {
        decimal_is_read_back(b[i] as nat);
        decimal_is_read_back(c[i] as nat);
    }
    assert(b =~= c);
}

/// Writes an address.
pub fn ipv4_to_text(ip: &Ipv4) -> (s: String)
    ensures
        s@ == ipv4_text(ip@),
        ipv4_of(s@) == Some(ip@),
{
    let mut s = decimal_text(ip[0] as u64);
    s.push('.');
    s.append(&decimal_text(ip[1] as u64));
    s.push('.');
    s.append(&decimal_text(ip[2] as u64));
    s.push('.');
    s.append(&decimal_text(ip[3] as u64));
    assert(s@ =~= ipv4_text(ip@));
    proof {
        ipv4_text_is_read_back(ip@);
    }
    s
}

fn find_dot(chars: &Vec<char>, from: usize) -> (place: usize)
    requires
        from <= chars.len(),
    ensures
        place == next_dot(chars@, from as int),
        from <= place <= chars.len(),
{
    let mut i: usize = from;
    while i < chars.len() && chars[i] != '.'
        invariant
            from <= i <= chars.len(),
            next_dot(chars@, from as int) == next_dot(chars@, i as int),
        decreases chars.len() - i,
    {
        i = i + 1;
    }
    i
}

/// Reads one number of an address.
fn read_number(chars: &Vec<char>, from: usize, to: usize) -> (n: Option<u8>)
    requires
        from <= to <= chars.len(),
    ensures
        match n {
            Some(v) => chars@.subrange(from as int, to as int) == text::decimal(v as nat),
            None => forall|v: u8|
                chars@.subrange(from as int, to as int) != #[trigger] text::decimal(v as nat),
        },
{
    let ghost part = chars@.subrange(from as int, to as int);
    proof {
        assert forall|v: u8| part == #[trigger] text::decimal(v as nat) implies part.len() <= 3
            && value(part) == v && forall|i: int| 0 <= i < part.len() ==> is_digit(part[i]) by {
            decimal_is_read_back(v as nat);
        }
    }
    if to - from > 3 {
        return None;
    }
    let mut v: u32 = 0;
    let mut i: usize = from;
    while i < to
        invariant
            from <= i <= to <= chars.len(),
            to - from <= 3,
            part == chars@.subrange(from as int, to as int),
            v == value(part.take(i - from)),
            i - from == 0 ==> v == 0,
            i - from == 1 ==> v <= 9,
            i - from == 2 ==> v <= 99,
            i - from == 3 ==> v <= 999,
            forall|w: u8|
                part == #[trigger] text::decimal(w as nat) ==> value(part) == w && forall|j: int|
                    0 <= j < part.len() ==> is_digit(part[j]),
        decreases to - i,
    {
        let c = chars[i];
        assert(part[i - from] == c);
        if c < '0' || c > '9' {
            assert(!is_digit(part[i - from]));
            return None;
        }
        proof {
            assert(part.take(i - from + 1).drop_last() =~= part.take(i - from));
            assert(part.take(i - from + 1).last() == c);
        }
        v = v * 10 + (c as u32 - 48);
        i = i + 1;
    }
    assert(part.take(i - from) =~= part);
    if v > 255 {
        return None;
    }
    let canonical = decimal_text(v as u64);
    let found = text_of(chars, from, to);
    if crate::text::same_text(&canonical, &found) {
        Some(v as u8)
    } else {
        assert forall|w: u8| part != #[trigger] text::decimal(w as nat) by {
            if part == text::decimal(w as nat) {
                assert(w == v);
            }
        }
        None
    }
}

/// Reads an address: four decimal numbers without leading zeros.
pub fn parse_ipv4(s: &str) -> (ip: Option<Ipv4>)
    ensures
        match ip {
            Some(b) => ipv4_of(s@) == Some(b@) && s@ == ipv4_text(b@),
            None => ipv4_of(s@) is None,
        },
{
    let chars = chars_of(s);
    let p: usize = find_dot(&chars, 0);
    proof {
        assert forall|b: Seq<u8>| #[trigger] is_text_of(s@, b) implies {
            let q = next_dot(s@, p + 1);
            let r = next_dot(s@, q + 1);
            &&& p < q < r < s@.len()
            &&& next_dot(s@, r + 1) == s@.len()
            &&& s@.subrange(0, p as int) == text::decimal(b[0] as nat)
            &&& s@.subrange(p + 1, q) == text::decimal(b[1] as nat)
            &&& s@.subrange(q + 1, r) == text::decimal(b[2] as nat)
            &&& s@.subrange(r + 1, s@.len() as int) == text::decimal(b[3] as nat)
        } by {
            parts_of_text(b);
        }
    }
    if p >= chars.len() {
        return None;
    }
    let q: usize = find_dot(&chars, p + 1);
    if q >= chars.len() {
        return None;
    }
    let r: usize = find_dot(&chars, q + 1);
    if r >= chars.len() {
        return None;
    }
    let a = read_number(&chars, 0, p);
    let b = read_number(&chars, p + 1, q);
    let c = read_number(&chars, q + 1, r);
    let d = read_number(&chars, r + 1, chars.len());
    match (a, b, c, d) {
        (Some(a), Some(b), Some(c), Some(d)) => {
            let ip: Ipv4 = [a, b, c, d];
            proof {
                assert(chars@[p as int] == '.') by {
                    dot_is_found(chars@, 0);
                }
                assert(chars@[q as int] == '.') by {
                    dot_is_found(chars@, p + 1);
                }
                assert(chars@[r as int] == '.') by {
                    dot_is_found(chars@, q + 1);
                }
                assert(ip@ =~= seq![a, b, c, d]);
                assert(s@ =~= ipv4_text(ip@));
                ipv4_text_is_read_back(ip@);
            }
            Some(ip)
        },
        _ => None,
    }
}

proof fn dot_is_found(s: Seq<char>, from: int)
    requires
        0 <= from <= s.len(),
        next_dot(s, from) < s.len(),
    ensures
        s[next_dot(s, from)] == '.',
    decreases s.len() - from,
{
    if from < s.len() && s[from] != '.' {
        dot_is_found(s, from + 1);
    }
}

/// The block of private addresses that an address belongs to: `10/8`,
/// `172.16/12` or `192.168/16`, named by its first number.
pub open spec fn private_scope(ip: Seq<u8>) -> Option<u8> {
    if ip[0] == 10 {
        Some(10u8)
    } else if ip[0] == 172 && 16 <= ip[1] <= 31 {
        Some(172u8)
    } else if ip[0] == 192 && ip[1] == 168 {
        Some(192u8)
    } else {
        None
    }
}

/// Two addresses may be on one local network: they are in the same block of
/// private addresses, or neither is in one.
pub open spec fn same_scope(a: Seq<u8>, b: Seq<u8>) -> bool {
    private_scope(a) == private_scope(b)
}

/// An address that a device can be reached at: no loopback, link-local,
/// unspecified, broadcast, benchmark or multicast address.
pub open spec fn is_usable(ip: Seq<u8>) -> bool {
    &&& ip[0] != 127
    &&& !(ip[0] == 169 && ip[1] == 254)
    &&& !(ip[0] == 0 && ip[1] == 0 && ip[2] == 0 && ip[3] == 0)
    &&& !(ip[0] == 255 && ip[1] == 255 && ip[2] == 255 && ip[3] == 255)
    &&& !(ip[0] == 198 && (ip[1] == 18 || ip[1] == 19))
    &&& !(224 <= ip[0] <= 239)
}

/// The block of private addresses that an address belongs to.
pub fn private_lan_scope(ip: &Ipv4) -> (scope: Option<u8>)
    ensures
        scope == private_scope(ip@),
{
    if ip[0] == 10 {
        Some(10)
    } else if ip[0] == 172 && 16 <= ip[1] && ip[1] <= 31 {
        Some(172)
    } else if ip[0] == 192 && ip[1] == 168 {
        Some(192)
    } else {
        None
    }
}

/// Tells whether two addresses may be on one local network.
pub fn is_same_lan_scope(left: &Ipv4, right: &Ipv4) -> (same: bool)
    ensures
        same == same_scope(left@, right@),
{
    match (private_lan_scope(left), private_lan_scope(right)) {
        (Some(a), Some(b)) => a == b,
        (None, None) => true,
        _ => false,
    }
}

/// Tells whether an address is private.
pub fn is_private_lan_ipv4(ip: &Ipv4) -> (private: bool)
    ensures
        private == (private_scope(ip@) is Some),
{
    private_lan_scope(ip).is_some()
}

/// Tells whether a device can be reached at an address.
pub fn is_usable_ipv4(ip: &Ipv4) -> (usable: bool)
    ensures
        usable == is_usable(ip@),
{
    ip[0] != 127 && !(ip[0] == 169 && ip[1] == 254) && !(ip[0] == 0 && ip[1] == 0 && ip[2] == 0
        && ip[3] == 0) && !(ip[0] == 255 && ip[1] == 255 && ip[2] == 255 && ip[3] == 255) && !(ip[0]
        == 198 && (ip[1] == 18 || ip[1] == 19)) && !(224 <= ip[0] && ip[0] <= 239)
}

/// Being on one local network is an equivalence: it does not depend on the
/// order, and it carries over.
pub proof fn lan_scope_is_an_equivalence(a: Seq<u8>, b: Seq<u8>, c: Seq<u8>)
    ensures
        same_scope(a, a),
        same_scope(a, b) == same_scope(b, a),
        same_scope(a, b) && same_scope(b, c) ==> same_scope(a, c),
{
}

/// A private address is usable.
pub proof fn private_addresses_are_usable(ip: Seq<u8>)
    requires
        private_scope(ip) is Some,
    ensures
        is_usable(ip),
{
}

/// Addresses that begin with 10 are on one network; so are those from 172.16 to 172.31, those
/// that begin with 192.168, and all that are in none of these blocks. No two from different
/// ones are.
pub proof fn private_blocks_are_networks(a: Seq<u8>, b: Seq<u8>)
    ensures
        ({
            let ten = |ip: Seq<u8>| ip[0] == 10;
            let twelve = |ip: Seq<u8>| ip[0] == 172 && 16 <= ip[1] < 32;
            let sixteen = |ip: Seq<u8>| ip[0] == 192 && ip[1] == 168;
            same_scope(a, b) <==> ten(a) == ten(b) && twelve(a) == twelve(b) && sixteen(a)
                == sixteen(b)
        }),
{
}

/// Every address can be used whose first number is from 1 to 223, but for 127, for 169.254,
/// and for 198.18 and 198.19. Of the others those from 240 on can, but for 255.255.255.255,
/// and those that begin with 0, but for 0.0.0.0.
pub proof fn ordinary_addresses_are_usable(ip: Seq<u8>)
    requires
        ip.len() == 4,
    ensures
        1 <= ip[0] < 224 ==> (is_usable(ip) <==> ip[0] != 127 && !(ip[0] == 169 && ip[1] == 254)
            && !(ip[0] == 198 && 18 <= ip[1] <= 19)),
        224 <= ip[0] < 240 ==> !is_usable(ip),
        240 <= ip[0] ==> (is_usable(ip) <==> ip != seq![255u8, 255, 255, 255]),
        ip[0] == 0 ==> (is_usable(ip) <==> ip != seq![0u8, 0, 0, 0]),
{
    if ip[0] == 255 && ip[1] == 255 && ip[2] == 255 && ip[3] == 255 {
        assert(ip =~= seq![255u8, 255, 255, 255]);
    }
    if ip[0] == 0 && ip[1] == 0 && ip[2] == 0 && ip[3] == 0 {
        assert(ip =~= seq![0u8, 0, 0, 0]);
    }
}

/// Only the usual text of an address stands for one: four decimal numbers without leading zeros,
/// with dots between them and nothing around them.
pub proof fn only_usual_texts_are_addresses(s: Seq<char>)
    requires
        ipv4_of(s) is Some,
    ensures
        ipv4_of(s)->Some_0.len() == 4,
        s == ipv4_text(ipv4_of(s)->Some_0),
{
}

} // verus!
