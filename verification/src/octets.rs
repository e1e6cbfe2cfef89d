//! Fixed-width unsigned integers as byte strings, in both byte orders.

use vstd::prelude::*;

verus! {

/// The number whose four bytes, least significant first, stand at `at`.
#[verifier::opaque]
pub open spec fn u32_le_at(bytes: Seq<u8>, at: int) -> u32 {
    (bytes[at] + 0x100 * bytes[at + 1] + 0x1_0000 * bytes[at + 2] + 0x100_0000 * bytes[at
        + 3]) as u32
}

/// The number whose two bytes, least significant first, stand at `at`.
#[verifier::opaque]
pub open spec fn u16_le_at(bytes: Seq<u8>, at: int) -> u16 {
    (bytes[at] + 0x100 * bytes[at + 1]) as u16
}

/// The number whose four bytes, most significant first, stand at `at`.
#[verifier::opaque]
pub open spec fn u32_be_at(bytes: Seq<u8>, at: int) -> u32 {
    (0x100_0000 * bytes[at] + 0x1_0000 * bytes[at + 1] + 0x100 * bytes[at + 2] + bytes[at
        + 3]) as u32
}

/// The four bytes of `x`, least significant first.
#[verifier::opaque]
pub open spec fn u32_le_bytes(x: u32) -> Seq<u8> {
    seq![
        (x % 0x100) as u8,
        (x / 0x100 % 0x100) as u8,
        (x / 0x1_0000 % 0x100) as u8,
        (x / 0x100_0000) as u8,
    ]
}

/// The two bytes of `x`, least significant first.
#[verifier::opaque]
pub open spec fn u16_le_bytes(x: u16) -> Seq<u8> {
    seq![(x % 0x100) as u8, (x / 0x100) as u8]
}

/// The four bytes of `x`, most significant first.
#[verifier::opaque]
pub open spec fn u32_be_bytes(x: u32) -> Seq<u8> {
    seq![
        (x / 0x100_0000) as u8,
        (x / 0x1_0000 % 0x100) as u8,
        (x / 0x100 % 0x100) as u8,
        (x % 0x100) as u8,
    ]
}

/// A `u32` takes four bytes, in either byte order.
pub proof fn lemma_u32_width(x: u32)
    ensures
        u32_le_bytes(x).len() == 4,
        u32_be_bytes(x).len() == 4,
{
    reveal(u32_le_bytes);
    reveal(u32_be_bytes);
}

/// A `u16` takes two bytes.
pub proof fn lemma_u16_width(x: u16)
    ensures
        u16_le_bytes(x).len() == 2,
{
    reveal(u16_le_bytes);
}

/// A big-endian number read at `at` is the number that the four bytes
/// standing there spell on their own.
pub proof fn lemma_u32_be_at_slice(bytes: Seq<u8>, at: int)
    requires
        0 <= at,
        at + 4 <= bytes.len(),
    ensures
        u32_be_at(bytes, at) == u32_be_at(bytes.subrange(at, at + 4), 0),
{
    reveal(u32_be_at);
}

/// Two strings that hold the same four bytes at `at` spell the same
/// big-endian number there.
pub proof fn lemma_u32_be_at_agrees(a: Seq<u8>, b: Seq<u8>, at: int)
    requires
        0 <= at,
        at + 4 <= a.len(),
        at + 4 <= b.len(),
        forall|i: int| at <= i < at + 4 ==> a[i] == b[i],
    ensures
        u32_be_at(a, at) == u32_be_at(b, at),
{
    reveal(u32_be_at);
}

/// Reading back what `u32_le_bytes` wrote gives the number again, wherever
/// the four bytes stand inside a longer string.
pub proof fn lemma_u32_le_round_trip(x: u32, before: Seq<u8>, after: Seq<u8>)
    ensures
        u32_le_at(before + u32_le_bytes(x) + after, before.len() as int) == x,
{
    reveal(u32_le_at);
    reveal(u32_le_bytes);
    let s = before + u32_le_bytes(x) + after;
    let at = before.len() as int;
    assert(s[at] == u32_le_bytes(x)[0]);
    assert(s[at + 1] == u32_le_bytes(x)[1]);
    assert(s[at + 2] == u32_le_bytes(x)[2]);
    assert(s[at + 3] == u32_le_bytes(x)[3]);
}

/// Reading back what `u16_le_bytes` wrote gives the number again, wherever
/// the two bytes stand inside a longer string.
pub proof fn lemma_u16_le_round_trip(x: u16, before: Seq<u8>, after: Seq<u8>)
    ensures
        u16_le_at(before + u16_le_bytes(x) + after, before.len() as int) == x,
{
    reveal(u16_le_at);
    reveal(u16_le_bytes);
    let s = before + u16_le_bytes(x) + after;
    let at = before.len() as int;
    assert(s[at] == u16_le_bytes(x)[0]);
    assert(s[at + 1] == u16_le_bytes(x)[1]);
}

/// Reading back what `u32_be_bytes` wrote gives the number again, wherever
/// the four bytes stand inside a longer string.
pub proof fn lemma_u32_be_round_trip(x: u32, before: Seq<u8>, after: Seq<u8>)
    ensures
        u32_be_at(before + u32_be_bytes(x) + after, before.len() as int) == x,
{
    reveal(u32_be_at);
    reveal(u32_be_bytes);
    let s = before + u32_be_bytes(x) + after;
    let at = before.len() as int;
    assert(s[at] == u32_be_bytes(x)[0]);
    assert(s[at + 1] == u32_be_bytes(x)[1]);
    assert(s[at + 2] == u32_be_bytes(x)[2]);
    assert(s[at + 3] == u32_be_bytes(x)[3]);
}

/// Reads a little-endian `u32` out of `buf` at `at`.
pub(crate) fn read_u32_le(buf: &[u8], at: usize) -> (value: u32)
    requires
        at + 4 <= buf@.len(),
    ensures
        value == u32_le_at(buf@, at as int),
{
    proof {
        reveal(u32_le_at);
    }
    let b0: u32 = buf[at] as u32;
    let b1: u32 = buf[at + 1] as u32;
    let b2: u32 = buf[at + 2] as u32;
    let b3: u32 = buf[at + 3] as u32;
    b0 + 0x100 * b1 + 0x1_0000 * b2 + 0x100_0000 * b3
}

/// Reads a little-endian `u16` out of `buf` at `at`.
pub(crate) fn read_u16_le(buf: &[u8], at: usize) -> (value: u16)
    requires
        at + 2 <= buf@.len(),
    ensures
        value == u16_le_at(buf@, at as int),
{
    proof {
        reveal(u16_le_at);
    }
    let b0: u16 = buf[at] as u16;
    let b1: u16 = buf[at + 1] as u16;
    b0 + 0x100 * b1
}

/// Reads a big-endian `u32` out of `buf` at `at`.
pub(crate) fn read_u32_be(buf: &[u8], at: usize) -> (value: u32)
    requires
        at + 4 <= buf@.len(),
    ensures
        value == u32_be_at(buf@, at as int),
{
    proof {
        reveal(u32_be_at);
    }
    let b0: u32 = buf[at] as u32;
    let b1: u32 = buf[at + 1] as u32;
    let b2: u32 = buf[at + 2] as u32;
    let b3: u32 = buf[at + 3] as u32;
    0x100_0000 * b0 + 0x1_0000 * b1 + 0x100 * b2 + b3
}

/// Appends the four big-endian bytes of `x` to `out`.
pub(crate) fn push_u32_be(out: &mut Vec<u8>, x: u32)
    ensures
        final(out)@ == old(out)@ + u32_be_bytes(x),
{
    proof {
        reveal(u32_be_bytes);
    }
    out.push((x / 0x100_0000) as u8);
    out.push((x / 0x1_0000 % 0x100) as u8);
    out.push((x / 0x100 % 0x100) as u8);
    out.push((x % 0x100) as u8);
    assert(out@ =~= old(out)@ + u32_be_bytes(x));
}

} // verus!
