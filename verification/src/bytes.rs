//! Big-endian byte order: what the wire format stores, and the executable
//! helpers that produce and read it.
use vstd::prelude::*;

verus! {

/// The two big-endian bytes of `v`, for `0 <= v < 2^16`.
pub open spec fn be16(v: int) -> Seq<u8> {
    seq![(v / 0x100) as u8, (v % 0x100) as u8]
}

/// The four big-endian bytes of `v`, for `0 <= v < 2^32`.
pub open spec fn be32(v: int) -> Seq<u8> {
    be16(v / 0x1_0000) + be16(v % 0x1_0000)
}

/// The eight big-endian bytes of `v`, for `0 <= v < 2^64`.
pub open spec fn be64(v: int) -> Seq<u8> {
    be32(v / 0x1_0000_0000) + be32(v % 0x1_0000_0000)
}

/// The value of the two big-endian bytes of `s` at `i`.
pub open spec fn be16_at(s: Seq<u8>, i: int) -> int {
    s[i] * 0x100 + s[i + 1]
}

/// The value of the four big-endian bytes of `s` at `i`.
pub open spec fn be32_at(s: Seq<u8>, i: int) -> int {
    be16_at(s, i) * 0x1_0000 + be16_at(s, i + 2)
}

/// The value of the eight big-endian bytes of `s` at `i`.
pub open spec fn be64_at(s: Seq<u8>, i: int) -> int {
    be32_at(s, i) * 0x1_0000_0000 + be32_at(s, i + 4)
}

pub proof fn lemma_be_at_bounds(s: Seq<u8>, i: int)
    ensures
        0 <= i && i + 2 <= s.len() ==> 0 <= be16_at(s, i) < 0x1_0000,
        0 <= i && i + 4 <= s.len() ==> 0 <= be32_at(s, i) < 0x1_0000_0000,
        0 <= i && i + 8 <= s.len() ==> 0 <= be64_at(s, i) < 0x1_0000_0000_0000_0000,
{
}

/// Reading back the bytes of `be16` gives the value.
pub proof fn lemma_be16_roundtrip(s: Seq<u8>, i: int, v: int)
    requires
        0 <= i,
        0 <= v < 0x1_0000,
        i + 2 <= s.len(),
        s.subrange(i, i + 2) == be16(v),
    ensures
        be16_at(s, i) == v,
{
    assert(s[i] == s.subrange(i, i + 2)[0]);
    assert(s[i + 1] == s.subrange(i, i + 2)[1]);
}

/// Reading back the bytes of `be32` gives the value.
pub proof fn lemma_be32_roundtrip(s: Seq<u8>, i: int, v: int)
    requires
        0 <= i,
        0 <= v < 0x1_0000_0000,
        i + 4 <= s.len(),
        s.subrange(i, i + 4) == be32(v),
    ensures
        be32_at(s, i) == v,
{
    let hi = v / 0x1_0000;
    let lo = v % 0x1_0000;
    assert(s.subrange(i, i + 2) == s.subrange(i, i + 4).subrange(0, 2));
    assert(s.subrange(i + 2, i + 4) == s.subrange(i, i + 4).subrange(2, 4));
    assert(be32(v).subrange(0, 2) == be16(hi));
    assert(be32(v).subrange(2, 4) == be16(lo));
    lemma_be16_roundtrip(s, i, hi);
    lemma_be16_roundtrip(s, i + 2, lo);
}

/// Reading back the bytes of `be64` gives the value.
pub proof fn lemma_be64_roundtrip(s: Seq<u8>, i: int, v: int)
    requires
        0 <= i,
        0 <= v < 0x1_0000_0000_0000_0000,
        i + 8 <= s.len(),
        s.subrange(i, i + 8) == be64(v),
    ensures
        be64_at(s, i) == v,
{
    let hi = v / 0x1_0000_0000;
    let lo = v % 0x1_0000_0000;
    assert(s.subrange(i, i + 4) == s.subrange(i, i + 8).subrange(0, 4));
    assert(s.subrange(i + 4, i + 8) == s.subrange(i, i + 8).subrange(4, 8));
    assert(be64(v).subrange(0, 4) == be32(hi));
    assert(be64(v).subrange(4, 8) == be32(lo));
    lemma_be32_roundtrip(s, i, hi);
    lemma_be32_roundtrip(s, i + 4, lo);
}

/// `s` with the bytes from `at` on replaced by `x`.
pub open spec fn splice(s: Seq<u8>, at: int, x: Seq<u8>) -> Seq<u8> {
    s.subrange(0, at) + x + s.subrange(at + x.len(), s.len() as int)
}

/// Writing `x` and then `y` right after it is writing `x + y`.
pub proof fn lemma_splice_concat(s: Seq<u8>, at: int, x: Seq<u8>, y: Seq<u8>)
    requires
        0 <= at,
        at + x.len() + y.len() <= s.len(),
    ensures
        splice(splice(s, at, x), at + x.len(), y) == splice(s, at, x + y),
        splice(s, at, x).len() == s.len(),
{
    assert(splice(splice(s, at, x), at + x.len(), y) =~= splice(s, at, x + y));
}

/// Writes `b` at `at`.
pub fn put_byte(buf: &mut Vec<u8>, at: usize, b: u8)
    requires
        at + 1 <= old(buf)@.len(),
    ensures
        final(buf)@ == splice(old(buf)@, at as int, seq![b]),
{
    buf[at] = b;
    assert(final(buf)@ =~= splice(old(buf)@, at as int, seq![b]));
}

/// Writes the bytes of `src` from `at` on.
pub fn put_bytes(buf: &mut Vec<u8>, at: usize, src: &[u8])
    requires
        at + src@.len() <= old(buf)@.len(),
    ensures
        final(buf)@ == splice(old(buf)@, at as int, src@),
{
    let ghost orig = buf@;
    let mut i: usize = 0;
    while i < src.len()
        invariant
            i <= src@.len(),
            at + src@.len() <= orig.len(),
            orig.len() == old(buf)@.len(),
            buf@.len() == orig.len(),
            buf@ == orig.subrange(0, at as int) + src@.subrange(0, i as int) + orig.subrange(
                at + i,
                orig.len() as int,
            ),
        decreases src@.len() - i,
    {
        assert(at + i < buf.len());
        buf[at + i] = src[i];
        i = i + 1;
        assert(buf@ =~= orig.subrange(0, at as int) + src@.subrange(0, i as int) + orig.subrange(
            at + i,
            orig.len() as int,
        ));
    }
    assert(src@.subrange(0, i as int) =~= src@);
}

/// Writes the big-endian bytes of `v` at `at`.
pub fn put_be16(buf: &mut Vec<u8>, at: usize, v: u16)
    requires
        at + 2 <= old(buf)@.len(),
    ensures
        final(buf)@ == splice(old(buf)@, at as int, be16(v as int)),
{
    proof {
        assert(buf@.len() == buf.len());
    }
    buf[at] = (v / 0x100) as u8;
    buf[at + 1] = (v % 0x100) as u8;
    assert(final(buf)@ =~= splice(old(buf)@, at as int, be16(v as int)));
}

pub fn put_be32(buf: &mut Vec<u8>, at: usize, v: u32)
    requires
        at + 4 <= old(buf)@.len(),
    ensures
        final(buf)@ == splice(old(buf)@, at as int, be32(v as int)),
{
    proof {
        assert(buf@.len() == buf.len());
    }
    let ghost s = buf@;
    put_be16(buf, at, (v / 0x1_0000) as u16);
    put_be16(buf, at + 2, (v % 0x1_0000) as u16);
    proof {
        lemma_splice_concat(s, at as int, be16((v / 0x1_0000) as int), be16((v % 0x1_0000) as int));
    }
}

pub fn put_be64(buf: &mut Vec<u8>, at: usize, v: u64)
    requires
        at + 8 <= old(buf)@.len(),
    ensures
        final(buf)@ == splice(old(buf)@, at as int, be64(v as int)),
{
    proof {
        assert(buf@.len() == buf.len());
    }
    let ghost s = buf@;
    put_be32(buf, at, (v / 0x1_0000_0000) as u32);
    put_be32(buf, at + 4, (v % 0x1_0000_0000) as u32);
    proof {
        lemma_splice_concat(s, at as int, be32((v / 0x1_0000_0000) as int), be32((v % 0x1_0000_0000) as int));
    }
}

pub fn load_be16(buf: &Vec<u8>, i: usize) -> (r: u16)
    requires
        i + 2 <= buf.len(),
    ensures
        r == be16_at(buf@, i as int),
{
    (buf[i] as u16) * 0x100 + (buf[i + 1] as u16)
}

pub fn load_be32(buf: &Vec<u8>, i: usize) -> (r: u32)
    requires
        i + 4 <= buf.len(),
    ensures
        r == be32_at(buf@, i as int),
{
    let hi = load_be16(buf, i);
    let lo = load_be16(buf, i + 2);
    (hi as u32) * 0x1_0000 + (lo as u32)
}

pub fn load_be64(buf: &Vec<u8>, i: usize) -> (r: u64)
    requires
        i + 8 <= buf.len(),
    ensures
        r == be64_at(buf@, i as int),
{
    let hi = load_be32(buf, i);
    let lo = load_be32(buf, i + 4);
    (hi as u64) * 0x1_0000_0000 + (lo as u64)
}

} // verus!
