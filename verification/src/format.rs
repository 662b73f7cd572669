//! The MessagePack encodings the packer produces: what each value becomes
//! on the wire, and the executable builders of those bytes.
use crate::bytes::{
    be16, be32, be64, lemma_splice_concat, put_be16, put_be32, put_be64, put_byte, splice,
};
use crate::types::i64_as_u64;
use vstd::prelude::*;

verus! {

/// The largest payload a str, bin or ext item can carry: its length is
/// recorded in at most 32 bits.
pub open spec fn max_payload() -> nat {
    0xffff_ffff
}

/// The byte that holds an ext type.
pub open spec fn ext_type_byte(t: i8) -> u8 {
    ((t as int) % 0x100) as u8
}

pub open spec fn enc_nil() -> Seq<u8> {
    seq![0xc0u8]
}

pub open spec fn enc_boolean(b: bool) -> Seq<u8> {
    if b {
        seq![0xc3u8]
    } else {
        seq![0xc2u8]
    }
}

/// The shortest encoding of an unsigned integer: positive fixint, uint8,
/// uint16, uint32 or uint64.
pub open spec fn enc_unsigned(v: u64) -> Seq<u8> {
    if v < 0x80 {
        seq![v as u8]
    } else if v < 0x100 {
        seq![0xccu8, v as u8]
    } else if v < 0x1_0000 {
        seq![0xcdu8] + be16(v as int)
    } else if v < 0x1_0000_0000 {
        seq![0xceu8] + be32(v as int)
    } else {
        seq![0xcfu8] + be64(v as int)
    }
}

/// The encoding of a signed integer: values above 127 as unsigned, values
/// in -32..=127 as fixint, then int8, int16, int32 or int64 in two's
/// complement.
pub open spec fn enc_signed(i: i64) -> Seq<u8> {
    if i > 127 {
        enc_unsigned(i as u64)
    } else if i >= -32 {
        seq![((i as int) % 0x100) as u8]
    } else if i >= -128 {
        seq![0xd0u8, ((i as int) % 0x100) as u8]
    } else if i >= -32768 {
        seq![0xd1u8] + be16((i as int) % 0x1_0000)
    } else if i >= -0x8000_0000 {
        seq![0xd2u8] + be32((i as int) % 0x1_0000_0000)
    } else {
        seq![0xd3u8] + be64((i as int) % 0x1_0000_0000_0000_0000)
    }
}

pub open spec fn enc_float_bits(bits: u32) -> Seq<u8> {
    seq![0xcau8] + be32(bits as int)
}

pub open spec fn enc_double_bits(bits: u64) -> Seq<u8> {
    seq![0xcbu8] + be64(bits as int)
}

/// fixarray, array16 or array32 header.
pub open spec fn enc_array_size(n: u32) -> Seq<u8> {
    if n < 16 {
        seq![(0x90 + n) as u8]
    } else if n < 0x1_0000 {
        seq![0xdcu8] + be16(n as int)
    } else {
        seq![0xddu8] + be32(n as int)
    }
}

/// fixmap, map16 or map32 header.
pub open spec fn enc_map_size(n: u32) -> Seq<u8> {
    if n < 16 {
        seq![(0x80 + n) as u8]
    } else if n < 0x1_0000 {
        seq![0xdeu8] + be16(n as int)
    } else {
        seq![0xdfu8] + be32(n as int)
    }
}

/// fixstr, str8, str16 or str32 header for `l` bytes; the compatibility mode
/// has no str8.
pub open spec fn str_head(l: nat, compat: bool) -> Seq<u8> {
    if l < 32 {
        seq![(0xa0 + l) as u8]
    } else if l < 0x100 && !compat {
        seq![0xd9u8, l as u8]
    } else if l < 0x1_0000 {
        seq![0xdau8] + be16(l as int)
    } else {
        seq![0xdbu8] + be32(l as int)
    }
}

/// bin8, bin16 or bin32 header for `l` bytes.
pub open spec fn bin_head(l: nat) -> Seq<u8> {
    if l < 0x100 {
        seq![0xc4u8, l as u8]
    } else if l < 0x1_0000 {
        seq![0xc5u8] + be16(l as int)
    } else {
        seq![0xc6u8] + be32(l as int)
    }
}

/// fixext 1/2/4/8/16, ext8, ext16 or ext32 header for `l` bytes of type `t`.
pub open spec fn ext_head(t: i8, l: nat) -> Seq<u8> {
    let tb = ext_type_byte(t);
    if l == 1 {
        seq![0xd4u8, tb]
    } else if l == 2 {
        seq![0xd5u8, tb]
    } else if l == 4 {
        seq![0xd6u8, tb]
    } else if l == 8 {
        seq![0xd7u8, tb]
    } else if l == 16 {
        seq![0xd8u8, tb]
    } else if l < 0x100 {
        seq![0xc7u8, l as u8, tb]
    } else if l < 0x1_0000 {
        seq![0xc8u8] + be16(l as int) + seq![tb]
    } else {
        seq![0xc9u8] + be32(l as int) + seq![tb]
    }
}

/// A str item holding `data` (of at most `max_payload()` bytes).
pub open spec fn enc_str(data: Seq<u8>, compat: bool) -> Seq<u8> {
    str_head(data.len(), compat) + data
}

/// A bin item holding `data` (of at most `max_payload()` bytes).
pub open spec fn enc_bin(data: Seq<u8>) -> Seq<u8> {
    bin_head(data.len()) + data
}

/// An ext item of type `t` holding `data` (of at most `max_payload()`
/// bytes).
pub open spec fn enc_ext(t: i8, data: Seq<u8>) -> Seq<u8> {
    ext_head(t, data.len()) + data
}

/// The timestamp extension (type -1) for `sec` seconds and `nsec`
/// nanoseconds, `nsec < 10^9`: timestamp32 when `nsec == 0` and `sec` fits
/// in 32 unsigned bits, timestamp64 when `sec` fits in 34 unsigned bits,
/// timestamp96 otherwise.
pub open spec fn enc_time(sec: i64, nsec: u32) -> Seq<u8> {
    let s = i64_as_u64(sec) as int;
    if s >= 0x4_0000_0000 {
        seq![0xc7u8, 12u8, 0xffu8] + be32(nsec as int) + be64(s)
    } else {
        let d = nsec * 0x4_0000_0000 + s;
        if d >= 0x1_0000_0000 {
            seq![0xd7u8, 0xffu8] + be64(d)
        } else {
            seq![0xd6u8, 0xffu8] + be32(d)
        }
    }
}

fn put_two(buf: &mut Vec<u8>, at: usize, a: u8, b: u8)
    requires
        at + 2 <= old(buf)@.len(),
    ensures
        final(buf)@ == splice(old(buf)@, at as int, seq![a, b]),
{
    proof {
        assert(buf@.len() == buf.len());
    }
    let ghost s = buf@;
    put_byte(buf, at, a);
    put_byte(buf, at + 1, b);
    proof {
        lemma_splice_concat(s, at as int, seq![a], seq![b]);
        assert(seq![a] + seq![b] =~= seq![a, b]);
    }
}

fn put_tag_be16(buf: &mut Vec<u8>, at: usize, tag: u8, v: u16)
    requires
        at + 3 <= old(buf)@.len(),
    ensures
        final(buf)@ == splice(old(buf)@, at as int, seq![tag] + be16(v as int)),
{
    proof {
        assert(buf@.len() == buf.len());
    }
    let ghost s = buf@;
    put_byte(buf, at, tag);
    put_be16(buf, at + 1, v);
    proof {
        lemma_splice_concat(s, at as int, seq![tag], be16(v as int));
    }
}

fn put_tag_be32(buf: &mut Vec<u8>, at: usize, tag: u8, v: u32)
    requires
        at + 5 <= old(buf)@.len(),
    ensures
        final(buf)@ == splice(old(buf)@, at as int, seq![tag] + be32(v as int)),
{
    proof {
        assert(buf@.len() == buf.len());
    }
    let ghost s = buf@;
    put_byte(buf, at, tag);
    put_be32(buf, at + 1, v);
    proof {
        lemma_splice_concat(s, at as int, seq![tag], be32(v as int));
    }
}

fn put_tag_be64(buf: &mut Vec<u8>, at: usize, tag: u8, v: u64)
    requires
        at + 9 <= old(buf)@.len(),
    ensures
        final(buf)@ == splice(old(buf)@, at as int, seq![tag] + be64(v as int)),
{
    proof {
        assert(buf@.len() == buf.len());
    }
    let ghost s = buf@;
    put_byte(buf, at, tag);
    put_be64(buf, at + 1, v);
    proof {
        lemma_splice_concat(s, at as int, seq![tag], be64(v as int));
    }
}

pub fn unsigned_len(v: u64) -> (n: usize)
    ensures
        n == enc_unsigned(v).len(),
{
    if v < 0x80 {
        1
    } else if v < 0x100 {
        2
    } else if v < 0x1_0000 {
        3
    } else if v < 0x1_0000_0000 {
        5
    } else {
        9
    }
}

/// Writes `enc_unsigned(v)` at `at`.
pub fn put_unsigned(buf: &mut Vec<u8>, at: usize, v: u64)
    requires
        at + enc_unsigned(v).len() <= old(buf)@.len(),
    ensures
        final(buf)@ == splice(old(buf)@, at as int, enc_unsigned(v)),
{
    if v < 0x80 {
        put_byte(buf, at, v as u8);
    } else if v < 0x100 {
        put_two(buf, at, 0xcc, v as u8);
    } else if v < 0x1_0000 {
        put_tag_be16(buf, at, 0xcd, v as u16);
    } else if v < 0x1_0000_0000 {
        put_tag_be32(buf, at, 0xce, v as u32);
    } else {
        put_tag_be64(buf, at, 0xcf, v);
    }
}

pub fn signed_len(i: i64) -> (n: usize)
    ensures
        n == enc_signed(i).len(),
{
    if i > 127 {
        unsigned_len(i as u64)
    } else if i >= -32 {
        1
    } else if i >= -128 {
        2
    } else if i >= -32768 {
        3
    } else if i >= -0x8000_0000 {
        5
    } else {
        9
    }
}

/// Writes `enc_signed(i)` at `at`.
#[verifier::rlimit(40)]
pub fn put_signed(buf: &mut Vec<u8>, at: usize, i: i64)
    requires
        at + enc_signed(i).len() <= old(buf)@.len(),
    ensures
        final(buf)@ == splice(old(buf)@, at as int, enc_signed(i)),
{
    if i > 127 {
        put_unsigned(buf, at, i as u64);
    } else if i >= 0 {
        assert((i as int) % 0x100 == i);
        put_byte(buf, at, i as u8);
    } else if i >= -32 {
        assert((i as int) % 0x100 == i + 0x100);
        put_byte(buf, at, (i + 0x100) as u8);
    } else if i >= -128 {
        assert((i as int) % 0x100 == i + 0x100);
        put_two(buf, at, 0xd0, (i + 0x100) as u8);
    } else if i >= -32768 {
        assert((i as int) % 0x1_0000 == i + 0x1_0000);
        put_tag_be16(buf, at, 0xd1, (i + 0x1_0000) as u16);
    } else if i >= -0x8000_0000 {
        assert((i as int) % 0x1_0000_0000 == i + 0x1_0000_0000);
        put_tag_be32(buf, at, 0xd2, (i + 0x1_0000_0000) as u32);
    } else {
        let shifted: i64 = i + 0x4000_0000_0000_0000 + 0x4000_0000_0000_0000;
        let bits: u64 = (shifted as u64) + 0x8000_0000_0000_0000;
        assert(bits == (i as int) % 0x1_0000_0000_0000_0000);
        put_tag_be64(buf, at, 0xd3, bits);
    }
}

/// Writes `enc_float_bits(bits)` (5 bytes) at `at`.
pub fn put_float_bits(buf: &mut Vec<u8>, at: usize, bits: u32)
    requires
        at + 5 <= old(buf)@.len(),
    ensures
        final(buf)@ == splice(old(buf)@, at as int, enc_float_bits(bits)),
{
    put_tag_be32(buf, at, 0xca, bits);
}

/// Writes `enc_double_bits(bits)` (9 bytes) at `at`.
pub fn put_double_bits(buf: &mut Vec<u8>, at: usize, bits: u64)
    requires
        at + 9 <= old(buf)@.len(),
    ensures
        final(buf)@ == splice(old(buf)@, at as int, enc_double_bits(bits)),
{
    put_tag_be64(buf, at, 0xcb, bits);
}

pub fn container_len(n: u32) -> (r: usize)
    ensures
        r == enc_array_size(n).len(),
        r == enc_map_size(n).len(),
{
    if n < 16 {
        1
    } else if n < 0x1_0000 {
        3
    } else {
        5
    }
}

/// Writes `enc_array_size(n)` at `at`.
pub fn put_array_size(buf: &mut Vec<u8>, at: usize, n: u32)
    requires
        at + enc_array_size(n).len() <= old(buf)@.len(),
    ensures
        final(buf)@ == splice(old(buf)@, at as int, enc_array_size(n)),
{
    if n < 16 {
        put_byte(buf, at, (0x90 + n) as u8);
    } else if n < 0x1_0000 {
        put_tag_be16(buf, at, 0xdc, n as u16);
    } else {
        put_tag_be32(buf, at, 0xdd, n);
    }
}

/// Writes `enc_map_size(n)` at `at`.
pub fn put_map_size(buf: &mut Vec<u8>, at: usize, n: u32)
    requires
        at + enc_map_size(n).len() <= old(buf)@.len(),
    ensures
        final(buf)@ == splice(old(buf)@, at as int, enc_map_size(n)),
{
    if n < 16 {
        put_byte(buf, at, (0x80 + n) as u8);
    } else if n < 0x1_0000 {
        put_tag_be16(buf, at, 0xde, n as u16);
    } else {
        put_tag_be32(buf, at, 0xdf, n);
    }
}

pub fn str_head_len(l: u32, compat: bool) -> (r: usize)
    ensures
        r == str_head(l as nat, compat).len(),
{
    if l < 32 {
        1
    } else if l < 0x100 && !compat {
        2
    } else if l < 0x1_0000 {
        3
    } else {
        5
    }
}

/// Writes `str_head(l, compat)` at `at`.
pub fn put_str_head(buf: &mut Vec<u8>, at: usize, l: u32, compat: bool)
    requires
        at + str_head(l as nat, compat).len() <= old(buf)@.len(),
    ensures
        final(buf)@ == splice(old(buf)@, at as int, str_head(l as nat, compat)),
{
    if l < 32 {
        put_byte(buf, at, (0xa0 + l) as u8);
    } else if l < 0x100 && !compat {
        put_two(buf, at, 0xd9, l as u8);
    } else if l < 0x1_0000 {
        put_tag_be16(buf, at, 0xda, l as u16);
    } else {
        put_tag_be32(buf, at, 0xdb, l);
    }
}

pub fn bin_head_len(l: u32) -> (r: usize)
    ensures
        r == bin_head(l as nat).len(),
{
    if l < 0x100 {
        2
    } else if l < 0x1_0000 {
        3
    } else {
        5
    }
}

/// Writes `bin_head(l)` at `at`.
pub fn put_bin_head(buf: &mut Vec<u8>, at: usize, l: u32)
    requires
        at + bin_head(l as nat).len() <= old(buf)@.len(),
    ensures
        final(buf)@ == splice(old(buf)@, at as int, bin_head(l as nat)),
{
    if l < 0x100 {
        put_two(buf, at, 0xc4, l as u8);
    } else if l < 0x1_0000 {
        put_tag_be16(buf, at, 0xc5, l as u16);
    } else {
        put_tag_be32(buf, at, 0xc6, l);
    }
}

pub fn ext_byte(t: i8) -> (r: u8)
    ensures
        r == ext_type_byte(t),
{
    if t >= 0 {
        t as u8
    } else {
        ((t as i16) + 0x100) as u8
    }
}

pub fn ext_head_len(t: i8, l: u32) -> (r: usize)
    ensures
        r == ext_head(t, l as nat).len(),
{
    if l == 1 || l == 2 || l == 4 || l == 8 || l == 16 {
        2
    } else if l < 0x100 {
        3
    } else if l < 0x1_0000 {
        4
    } else {
        6
    }
}

/// Writes `ext_head(t, l)` at `at`.
pub fn put_ext_head(buf: &mut Vec<u8>, at: usize, t: i8, l: u32)
    requires
        at + ext_head(t, l as nat).len() <= old(buf)@.len(),
    ensures
        final(buf)@ == splice(old(buf)@, at as int, ext_head(t, l as nat)),
{
    proof {
        assert(buf@.len() == buf.len());
    }
    let tb = ext_byte(t);
    let ghost s = buf@;
    if l == 1 {
        put_two(buf, at, 0xd4, tb);
    } else if l == 2 {
        put_two(buf, at, 0xd5, tb);
    } else if l == 4 {
        put_two(buf, at, 0xd6, tb);
    } else if l == 8 {
        put_two(buf, at, 0xd7, tb);
    } else if l == 16 {
        put_two(buf, at, 0xd8, tb);
    } else if l < 0x100 {
        put_two(buf, at, 0xc7, l as u8);
        put_byte(buf, at + 2, tb);
        proof {
            lemma_splice_concat(s, at as int, seq![0xc7u8, l as u8], seq![tb]);
            assert(seq![0xc7u8, l as u8] + seq![tb] =~= seq![0xc7u8, l as u8, tb]);
        }
    } else if l < 0x1_0000 {
        put_tag_be16(buf, at, 0xc8, l as u16);
        put_byte(buf, at + 3, tb);
        proof {
            lemma_splice_concat(s, at as int, seq![0xc8u8] + be16(l as int), seq![tb]);
        }
    } else {
        put_tag_be32(buf, at, 0xc9, l);
        put_byte(buf, at + 5, tb);
        proof {
            lemma_splice_concat(s, at as int, seq![0xc9u8] + be32(l as int), seq![tb]);
        }
    }
}

fn seconds_bits(sec: i64) -> (s: u64)
    ensures
        s == i64_as_u64(sec),
{
    if sec >= 0 {
        sec as u64
    } else {
        let shifted: i64 = sec + 0x4000_0000_0000_0000 + 0x4000_0000_0000_0000;
        (shifted as u64) + 0x8000_0000_0000_0000
    }
}

pub fn time_len(sec: i64, nsec: u32) -> (r: usize)
    requires
        nsec < 1_000_000_000,
    ensures
        r == enc_time(sec, nsec).len(),
{
    let s = seconds_bits(sec);
    if s >= 0x4_0000_0000 {
        15
    } else if (nsec as u64) * 0x4_0000_0000 + s >= 0x1_0000_0000 {
        10
    } else {
        6
    }
}

/// Writes `enc_time(sec, nsec)` at `at`.
pub fn put_time(buf: &mut Vec<u8>, at: usize, sec: i64, nsec: u32)
    requires
        nsec < 1_000_000_000,
        at + enc_time(sec, nsec).len() <= old(buf)@.len(),
    ensures
        final(buf)@ == splice(old(buf)@, at as int, enc_time(sec, nsec)),
{
    proof {
        assert(buf@.len() == buf.len());
    }
    let s = seconds_bits(sec);
    let ghost orig = buf@;
    if s >= 0x4_0000_0000 {
        put_two(buf, at, 0xc7, 12);
        put_byte(buf, at + 2, 0xff);
        put_be32(buf, at + 3, nsec);
        put_be64(buf, at + 7, s);
        proof {
            let a = seq![0xc7u8, 12u8];
            let b = seq![0xffu8];
            let c = be32(nsec as int);
            let d = be64(s as int);
            lemma_splice_concat(orig, at as int, a, b);
            lemma_splice_concat(orig, at as int, a + b, c);
            lemma_splice_concat(orig, at as int, a + b + c, d);
            assert(a + b =~= seq![0xc7u8, 12u8, 0xffu8]);
        }
    } else {
        let d: u64 = (nsec as u64) * 0x4_0000_0000 + s;
        if d >= 0x1_0000_0000 {
            put_two(buf, at, 0xd7, 0xff);
            put_be64(buf, at + 2, d);
            proof {
                lemma_splice_concat(orig, at as int, seq![0xd7u8, 0xffu8], be64(d as int));
            }
        } else {
            put_two(buf, at, 0xd6, 0xff);
            put_be32(buf, at + 2, d as u32);
            proof {
                lemma_splice_concat(orig, at as int, seq![0xd6u8, 0xffu8], be32(d as int));
            }
        }
    }
}

} // verus!
