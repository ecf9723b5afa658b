//! Byte strings: big-endian integers, hexadecimal text, fixed-size copies.

use vstd::prelude::*;

verus! {

/// The four bytes of `n`, most significant first.
#[verifier::opaque]
pub open spec fn be32(n: u32) -> Seq<u8> {
    seq![
        (n as int / 0x100_0000) as u8,
        (n as int / 0x1_0000 % 0x100) as u8,
        (n as int / 0x100 % 0x100) as u8,
        (n as int % 0x100) as u8,
    ]
}

/// The number that four bytes stand for, most significant first.
#[verifier::opaque]
pub open spec fn number32(b: Seq<u8>) -> int {
    b[0] * 0x100_0000 + b[1] * 0x1_0000 + b[2] * 0x100 + b[3]
}

/// The eight bytes of `n`, most significant first.
#[verifier::opaque]
pub open spec fn be64(n: u64) -> Seq<u8> {
    be32((n as int / 0x1_0000_0000) as u32) + be32((n as int % 0x1_0000_0000) as u32)
}

/// The number that eight bytes stand for, most significant first.
#[verifier::opaque]
pub open spec fn number64(b: Seq<u8>) -> int {
    number32(b.subrange(0, 4)) * 0x1_0000_0000 + number32(b.subrange(4, 8))
}

/// Reading back what `be32` wrote gives the number.
pub proof fn be32_is_read_back(n: u32)
    ensures
        be32(n).len() == 4,
        number32(be32(n)) == n,
{
    reveal(be32);
    reveal(number32);
}

/// Reading back what `be64` wrote gives the number.
pub proof fn be64_is_read_back(n: u64)
    ensures
        be64(n).len() == 8,
        number64(be64(n)) == n,
{
    reveal(be64);
    reveal(number64);
    let high = (n as int / 0x1_0000_0000) as u32;
    let low = (n as int % 0x1_0000_0000) as u32;
    be32_is_read_back(high);
    be32_is_read_back(low);
    assert(be64(n).subrange(0, 4) =~= be32(high));
    assert(be64(n).subrange(4, 8) =~= be32(low));
}

/// Appends the big-endian bytes of `n` to `out`.
pub fn push_be32(out: &mut Vec<u8>, n: u32)
    ensures
        final(out)@ == old(out)@ + be32(n),
        be32(n).len() == 4,
{
    proof {
        reveal(be32);
    }
    out.push((n / 0x100_0000) as u8);
    out.push((n / 0x1_0000 % 0x100) as u8);
    out.push((n / 0x100 % 0x100) as u8);
    out.push((n % 0x100) as u8);
}

/// Appends the big-endian bytes of `n` to `out`.
pub fn push_be64(out: &mut Vec<u8>, n: u64)
    ensures
        final(out)@ == old(out)@ + be64(n),
        be64(n).len() == 8,
{
    proof {
        reveal(be64);
    }
    push_be32(out, (n / 0x1_0000_0000) as u32);
    push_be32(out, (n % 0x1_0000_0000) as u32);
}

/// Reads a big-endian number of four bytes at `at`.
pub fn read_be32(b: &[u8], at: usize) -> (n: u32)
    requires
        at + 4 <= b.len(),
    ensures
        n == number32(b@.subrange(at as int, at + 4)),
{
    proof {
        reveal(number32);
    }
    b[at] as u32 * 0x100_0000 + b[at + 1] as u32 * 0x1_0000 + b[at + 2] as u32 * 0x100
        + b[at + 3] as u32
}

/// Reads a big-endian number of eight bytes at `at`.
pub fn read_be64(b: &[u8], at: usize) -> (n: u64)
    requires
        at + 8 <= b.len(),
    ensures
        n == number64(b@.subrange(at as int, at + 8)),
{
    let high: u32 = read_be32(b, at);
    let low: u32 = read_be32(b, at + 4);
    proof {
        reveal(number64);
        let part = b@.subrange(at as int, at + 8);
        assert(part.subrange(0, 4) =~= b@.subrange(at as int, at + 4));
        assert(part.subrange(4, 8) =~= b@.subrange(at + 4, at + 8));
    }
    high as u64 * 0x1_0000_0000 + low as u64
}

/// The number that two bytes at a place stand for, least significant first.
pub open spec fn little16(b: Seq<u8>, at: int) -> int {
    b[at] + b[at + 1] * 0x100
}

/// The number that four bytes at a place stand for, least significant first.
pub open spec fn little32(b: Seq<u8>, at: int) -> int {
    b[at] + b[at + 1] * 0x100 + b[at + 2] * 0x1_0000 + b[at + 3] * 0x100_0000
}

/// Reads a number of two bytes, least significant first.
pub fn read_little16(b: &[u8], at: usize) -> (n: u16)
    requires
        at + 2 <= b.len(),
    ensures
        n == little16(b@, at as int),
{
    b[at] as u16 + b[at + 1] as u16 * 0x100
}

/// Reads a number of four bytes, least significant first.
pub fn read_little32(b: &[u8], at: usize) -> (n: u32)
    requires
        at + 4 <= b.len(),
    ensures
        n == little32(b@, at as int),
{
    b[at] as u32 + b[at + 1] as u32 * 0x100 + b[at + 2] as u32 * 0x1_0000 + b[at + 3] as u32
        * 0x100_0000
}

/// The bytes of a number, least significant first.
pub open spec fn le32(n: u32) -> Seq<u8> {
    be32(n).reverse()
}

/// Appends the bytes of a number, least significant first.
pub fn push_le32(out: &mut Vec<u8>, n: u32)
    ensures
        final(out)@ == old(out)@ + le32(n),
        le32(n).len() == 4,
{
    proof {
        reveal(be32);
    }
    out.push((n % 0x100) as u8);
    out.push((n / 0x100 % 0x100) as u8);
    out.push((n / 0x1_0000 % 0x100) as u8);
    out.push((n / 0x100_0000) as u8);
    assert(out@ =~= old(out)@ + le32(n));
}

/// Appends `part` to `out`.
pub fn push_all(out: &mut Vec<u8>, part: &[u8])
    ensures
        final(out)@ == old(out)@ + part@,
{
    out.extend_from_slice(part);
    assert(out@ =~= old(out)@ + part@);
}

/// Tells whether two byte strings are the same.
pub fn same_bytes(a: &[u8], b: &[u8]) -> (same: bool)
    ensures
        same == (a@ == b@),
{
    if a.len() != b.len() {
        return false;
    }
    let mut i: usize = 0;
    while i < a.len()
        invariant
            i <= a.len() == b.len(),
            forall|j: int| 0 <= j < i ==> a@[j] == b@[j],
        decreases a.len() - i,
    {
        if a[i] != b[i] {
            return false;
        }
        i = i + 1;
    }
    assert(a@ =~= b@);
    true
}

/// Copies the `N` bytes of `b` from `at` on.
pub fn copy_array<const N: usize>(b: &[u8], at: usize) -> (copy: [u8; N])
    requires
        at + N <= b.len(),
    ensures
        copy@ == b@.subrange(at as int, at + N),
{
    let mut copy: [u8; N] = [0u8; N];
    let mut i: usize = 0;
    while i < N
        invariant
            i <= N,
            at + N <= b.len(),
            forall|j: int| 0 <= j < i ==> copy@[j] == b@[at + j],
        decreases N - i,
    {
        copy[i] = b[at + i];
        i = i + 1;
    }
    assert(copy@ =~= b@.subrange(at as int, at + N));
    copy
}

/// Copies `b[from..to]`.
pub fn copy_range(b: &[u8], from: usize, to: usize) -> (copy: Vec<u8>)
    requires
        from <= to <= b.len(),
    ensures
        copy@ == b@.subrange(from as int, to as int),
{
    let mut copy: Vec<u8> = Vec::new();
    push_all(&mut copy, vstd::slice::slice_subrange(b, from, to));
    copy
}

/// The lowercase hexadecimal digit of a value below sixteen.
pub open spec fn hex_digit(v: int) -> char {
    if v < 10 {
        ('0' as int + v) as char
    } else {
        ('a' as int + (v - 10)) as char
    }
}

/// The value of a hexadecimal digit of either case.
pub open spec fn hex_value(c: char) -> Option<int> {
    if '0' <= c <= '9' {
        Some(c as int - '0' as int)
    } else if 'a' <= c <= 'f' {
        Some(c as int - 'a' as int + 10)
    } else if 'A' <= c <= 'F' {
        Some(c as int - 'A' as int + 10)
    } else {
        None
    }
}

/// The lowercase hexadecimal text of `b`, two digits for each byte.
pub open spec fn hex_text(b: Seq<u8>) -> Seq<char> {
    Seq::new(
        2 * b.len(),
        |i: int| hex_digit(if i % 2 == 0 { b[i / 2] as int / 16 } else { b[i / 2] as int % 16 }),
    )
}

/// The lowercase hexadecimal digit of `v`.
pub fn hex_digit_of(v: u8) -> (c: char)
    requires
        v < 16,
    ensures
        c == hex_digit(v as int),
{
    if v < 10 {
        (48 + v) as char
    } else {
        (87 + v) as char
    }
}

/// Writes `b` as lowercase hexadecimal text.
pub fn hex_of(b: &[u8]) -> (text: String)
    ensures
        text@ == hex_text(b@),
{
    let mut text: String = String::new();
    let mut i: usize = 0;
    while i < b.len()
        invariant
            i <= b.len(),
            text@ == hex_text(b@.take(i as int)),
        decreases b.len() - i,
    {
        text.push(hex_digit_of(b[i] / 16));
        text.push(hex_digit_of(b[i] % 16));
        i = i + 1;
        assert(text@ =~= hex_text(b@.take(i as int)));
    }
    assert(b@.take(i as int) =~= b@);
    text
}

/// A digit is read back as its value.
pub proof fn hex_digit_is_read_back(v: int)
    requires
        0 <= v < 16,
    ensures
        hex_value(hex_digit(v)) == Some(v),
{
}

/// Numbers are written with their highest byte first; least significant first where that is
/// said.
pub proof fn numbers_start_with_their_highest_byte(n: u32, m: u64)
    ensures
        be32(n).len() == 4,
        be32(n)[0] == n as int / 16_777_216,
        be32(n)[3] == n as int % 256,
        le32(n).len() == 4,
        le32(n)[0] == n as int % 256,
        le32(n)[3] == n as int / 16_777_216,
        be64(m).len() == 8,
        be64(m)[0] == m as int / 72_057_594_037_927_936,
        be64(m)[7] == m as int % 256,
{
    reveal(be32);
    reveal(be64);
}

/// A hexadecimal digit stands for its value, in either case; nothing else is one.
pub proof fn hexadecimal_digits_have_values(c: char)
    ensures
        '0' <= c <= '9' ==> hex_value(c) == Some(c as int - 48),
        'a' <= c <= 'f' ==> hex_value(c) == Some(c as int - 87),
        'A' <= c <= 'F' ==> hex_value(c) == Some(c as int - 55),
        hex_value(c) is Some ==> '0' <= c <= '9' || 'a' <= c <= 'f' || 'A' <= c <= 'F',
        0 <= c as int - 48 < 10 ==> hex_digit(c as int - 48) == c,
{
}

} // verus!
