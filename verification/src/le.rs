//! Little-endian integers, and fixed-size pieces of byte strings.

use vstd::prelude::*;

verus! {

/// Two bytes, least significant first.
#[verifier::opaque]
pub open spec fn le16(x: u16) -> Seq<u8> {
    seq![(x % 256) as u8, (x / 256) as u8]
}

/// Four bytes, least significant first.
#[verifier::opaque]
pub open spec fn le32(x: u32) -> Seq<u8> {
    seq![
        (x % 256) as u8,
        (x / 0x100 % 256) as u8,
        (x / 0x1_0000 % 256) as u8,
        (x / 0x100_0000) as u8,
    ]
}

/// Eight bytes, least significant first.
#[verifier::opaque]
pub open spec fn le64(x: u64) -> Seq<u8> {
    seq![
        (x % 256) as u8,
        (x / 0x100 % 256) as u8,
        (x / 0x1_0000 % 256) as u8,
        (x / 0x100_0000 % 256) as u8,
        (x / 0x1_0000_0000 % 256) as u8,
        (x / 0x100_0000_0000 % 256) as u8,
        (x / 0x1_0000_0000_0000 % 256) as u8,
        (x / 0x100_0000_0000_0000) as u8,
    ]
}

/// The number that two bytes stand for.
#[verifier::opaque]
pub open spec fn un16(s: Seq<u8>) -> u16 {
    (s[0] + 0x100 * s[1]) as u16
}

/// The number that four bytes stand for.
#[verifier::opaque]
pub open spec fn un32(s: Seq<u8>) -> u32 {
    (s[0] + 0x100 * s[1] + 0x1_0000 * s[2] + 0x100_0000 * s[3]) as u32
}

/// The number that eight bytes stand for.
#[verifier::opaque]
pub open spec fn un64(s: Seq<u8>) -> u64 {
    (s[0] + 0x100 * s[1] + 0x1_0000 * s[2] + 0x100_0000 * s[3] + 0x1_0000_0000 * s[4]
        + 0x100_0000_0000 * s[5] + 0x1_0000_0000_0000 * s[6] + 0x100_0000_0000_0000 * s[7]) as u64
}

/// A signed number as the unsigned number with the same two's complement bits.
pub open spec fn bits64(x: i64) -> u64 {
    if x >= 0 {
        x as u64
    } else {
        (x + 0x1_0000_0000_0000_0000) as u64
    }
}

/// A number takes two bytes, and reading them back gives it.
pub broadcast proof fn lemma_un16_le16(x: u16)
    ensures
        un16(#[trigger] le16(x)) == x,
        le16(x).len() == 2,
{
    reveal(le16);
    reveal(un16);
}

/// A number takes four bytes, and reading them back gives it.
pub broadcast proof fn lemma_un32_le32(x: u32)
    ensures
        un32(#[trigger] le32(x)) == x,
        le32(x).len() == 4,
{
    reveal(le32);
    reveal(un32);
}

/// A number takes eight bytes, and reading them back gives it.
pub broadcast proof fn lemma_un64_le64(x: u64)
    ensures
        un64(#[trigger] le64(x)) == x,
        le64(x).len() == 8,
{
    reveal(le64);
    reveal(un64);
    assert(x == (x % 256) + 0x100 * (x / 0x100 % 256) + 0x1_0000 * (x / 0x1_0000 % 256)
        + 0x100_0000 * (x / 0x100_0000 % 256) + 0x1_0000_0000 * (x / 0x1_0000_0000 % 256)
        + 0x100_0000_0000 * (x / 0x100_0000_0000 % 256) + 0x1_0000_0000_0000 * (x
        / 0x1_0000_0000_0000 % 256) + 0x100_0000_0000_0000 * (x / 0x100_0000_0000_0000))
        by (bit_vector);
}

/// What writing a number and reading it back comes to.
pub broadcast group group_le {
    lemma_un16_le16,
    lemma_un32_le32,
    lemma_un64_le64,
}

/// Writing the number that eight bytes stand for gives the eight bytes.
pub proof fn lemma_le64_un64(s: Seq<u8>)
    requires
        s.len() == 8,
    ensures
        le64(un64(s)) == s,
{
    reveal(le64);
    reveal(un64);
    let x = un64(s);
    let (a, b, c, d) = (s[0], s[1], s[2], s[3]);
    let (e, f, g, h) = (s[4], s[5], s[6], s[7]);
    assert(x % 256 == a && x / 0x100 % 256 == b && x / 0x1_0000 % 256 == c && x / 0x100_0000 % 256
        == d && x / 0x1_0000_0000 % 256 == e && x / 0x100_0000_0000 % 256 == f && x
        / 0x1_0000_0000_0000 % 256 == g && x / 0x100_0000_0000_0000 == h) by (bit_vector)
        requires
            x == a + 0x100 * b + 0x1_0000 * c + 0x100_0000 * d + 0x1_0000_0000 * e
                + 0x100_0000_0000 * f + 0x1_0000_0000_0000 * g + 0x100_0000_0000_0000 * h,
    ;
}

/// Appends a number as two bytes.
pub fn put16(out: &mut Vec<u8>, x: u16)
    ensures
        final(out)@ == old(out)@ + le16(x),
{
    proof {
        reveal(le16);
    }
    out.push((x % 256) as u8);
    out.push((x / 256) as u8);
}

/// Appends a number as four bytes.
pub fn put32(out: &mut Vec<u8>, x: u32)
    ensures
        final(out)@ == old(out)@ + le32(x),
{
    proof {
        reveal(le32);
    }
    out.push((x % 256) as u8);
    out.push((x / 0x100 % 256) as u8);
    out.push((x / 0x1_0000 % 256) as u8);
    out.push((x / 0x100_0000) as u8);
}

/// Appends a number as eight bytes.
pub fn put64(out: &mut Vec<u8>, x: u64)
    ensures
        final(out)@ == old(out)@ + le64(x),
{
    proof {
        reveal(le64);
    }
    out.push((x % 256) as u8);
    out.push((x / 0x100 % 256) as u8);
    out.push((x / 0x1_0000 % 256) as u8);
    out.push((x / 0x100_0000 % 256) as u8);
    out.push((x / 0x1_0000_0000 % 256) as u8);
    out.push((x / 0x100_0000_0000 % 256) as u8);
    out.push((x / 0x1_0000_0000_0000 % 256) as u8);
    out.push((x / 0x100_0000_0000_0000) as u8);
}

/// Appends a signed number as eight bytes, in two's complement.
pub fn put_signed64(out: &mut Vec<u8>, x: i64)
    ensures
        final(out)@ == old(out)@ + le64(bits64(x)),
{
    let bits: u64 = if x >= 0 {
        x as u64
    } else {
        u64::MAX - (-(x + 1)) as u64
    };
    put64(out, bits);
}

/// Reads two bytes at a position.
pub fn get16(b: &[u8], at: usize) -> (x: u16)
    requires
        at + 2 <= b@.len(),
    ensures
        x == un16(b@.subrange(at as int, at + 2)),
{
    proof {
        reveal(un16);
    }
    b[at] as u16 + 0x100 * (b[at + 1] as u16)
}

/// Reads four bytes at a position.
pub fn get32(b: &[u8], at: usize) -> (x: u32)
    requires
        at + 4 <= b@.len(),
    ensures
        x == un32(b@.subrange(at as int, at + 4)),
{
    proof {
        reveal(un32);
    }
    b[at] as u32 + 0x100 * (b[at + 1] as u32) + 0x1_0000 * (b[at + 2] as u32) + 0x100_0000 * (b[at
        + 3] as u32)
}

/// Reads eight bytes at a position.
pub fn get64(b: &[u8], at: usize) -> (x: u64)
    requires
        at + 8 <= b@.len(),
    ensures
        x == un64(b@.subrange(at as int, at + 8)),
{
    proof {
        reveal(un32);
        reveal(un64);
    }
    assert(at + 8 <= b.len());
    let low: u64 = get32(b, at) as u64;
    let high: u64 = get32(b, at + 4) as u64;
    low + 0x1_0000_0000 * high
}

/// Copies `N` bytes out of a byte string.
pub fn array_at<const N: usize>(b: &[u8], at: usize) -> (r: [u8; N])
    requires
        at + N <= b@.len(),
    ensures
        r@ == b@.subrange(at as int, at + N),
{
    assert(at + N <= b.len());
    let mut r: [u8; N] = [0u8;N];
    let mut i: usize = 0;
    while i < N
        invariant
            i <= N,
            at + N <= b@.len() <= usize::MAX,
            forall|j: int| 0 <= j < i ==> r@[j] == b@[at + j],
        decreases N - i,
    {
        r[i] = b[at + i];
        i += 1;
    }
    r
}

/// Appends bytes.
pub fn put_bytes(out: &mut Vec<u8>, bytes: &[u8])
    ensures
        final(out)@ == old(out)@ + bytes@,
{
    out.extend_from_slice(bytes);
}

/// Whether two byte strings are the same.
pub fn same_bytes(a: &[u8], b: &[u8]) -> (r: bool)
    ensures
        r == (a@ == b@),
{
    if a.len() != b.len() {
        return false;
    }
    let mut i: usize = 0;
    while i < a.len()
        invariant
            i <= a@.len(),
            a@.len() == b@.len(),
            forall|j: int| 0 <= j < i ==> a@[j] == b@[j],
        decreases a@.len() - i,
    {
        if a[i] != b[i] {
            return false;
        }
        i += 1;
    }
    assert(a@ =~= b@);
    true
}

/// Numbers are stored with the least significant byte first: a longer number is
/// its lower half and then its upper half.
pub proof fn law_lower_half_first(s: Seq<u8>)
    requires
        s.len() == 8,
    ensures
        un16(s) == s[0] + 256 * s[1],
        un32(s) == un16(s) + 65536 * un16(s.skip(2)),
        un64(s) == un32(s) + 4294967296 * un32(s.skip(4)),
{
    reveal(un16);
    reveal(un32);
    reveal(un64);
}

/// Signed numbers keep their order within each sign, and a number and its bits
/// agree but for the sign.
pub proof fn law_bits_of_a_signed_number(x: i64)
    ensures
        x >= 0 ==> bits64(x) == x,
        x < 0 ==> bits64(x) - x == 0x1_0000_0000_0000_0000,
{
}

} // verus!
