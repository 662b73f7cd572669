//! What holds of the packer and the unpacker together: every value the
//! packer encodes is unpacked as that value, skipping agrees with unpacking,
//! and looking ahead agrees with unpacking.
use crate::bytes::{be16, be32, be64, lemma_be16_roundtrip, lemma_be32_roundtrip, lemma_be64_roundtrip};
use crate::decode::{
    decode_at, done, lemma_decode_tag, peek_at, skip_run, skip_step, Outcome, SkipStep,
};
use crate::format::{
    bin_head, enc_array_size, enc_bin, enc_boolean, enc_double_bits, enc_ext, enc_float_bits,
    enc_map_size, enc_nil, enc_signed, enc_str, enc_time, enc_unsigned, ext_head, ext_type_byte,
    max_payload, str_head,
};
use crate::bytes::splice;
use crate::pack::PackContext;
use crate::unpack::UnpackContext;
use crate::types::{
    i64_as_u64, Blob, Container, ItemValue, TimeSpec, ITEM_ARRAY, ITEM_BIN, ITEM_BOOLEAN,
    ITEM_DOUBLE, ITEM_FLOAT, ITEM_MAP, ITEM_NEGATIVE_INTEGER, ITEM_NIL, ITEM_POSITIVE_INTEGER,
    ITEM_STR, ITEM_TIMESTAMP, RC_OK,
};
use vstd::prelude::*;

verus! {

/// `enc` lies in `s` from `p` on.
pub open spec fn placed(s: Seq<u8>, p: int, enc: Seq<u8>) -> bool {
    &&& 0 <= p
    &&& p + enc.len() <= s.len()
    &&& s.subrange(p, p + enc.len()) == enc
}

proof fn lemma_placed_part(s: Seq<u8>, p: int, enc: Seq<u8>, k: int, m: int)
    requires
        placed(s, p, enc),
        0 <= k,
        0 <= m,
        k + m <= enc.len(),
    ensures
        s.subrange(p + k, p + k + m) == enc.subrange(k, k + m),
        forall|i: int| 0 <= i < enc.len() ==> s[p + i] == enc[i],
        enc.len() > 0 ==> s[p] == enc[0],
        enc.len() > 1 ==> s[p + 1] == enc[1],
        enc.len() > 2 ==> s[p + 2] == enc[2],
{
    assert forall|i: int| 0 <= i < enc.len() implies s[p + i] == enc[i] by {
        assert(s.subrange(p, p + enc.len())[i] == s[p + i]);
    }
    assert(s.subrange(p + k, p + k + m) =~= enc.subrange(k, k + m));
    if enc.len() > 0 {
        assert(s[p + 0] == enc[0]);
    }
}

proof fn lemma_uint_tail(s: Seq<u8>, p: int, v: u64, c: u8, w: int)
    requires
        (w == 1 && 0x80 <= v < 0x100 && c == 0xcc) || (w == 2 && 0x100 <= v < 0x1_0000 && c == 0xcd)
            || (w == 4 && 0x1_0000 <= v < 0x1_0000_0000 && c == 0xce) || (w == 8 && 0x1_0000_0000
            <= v && c == 0xcf),
        placed(s, p, enc_unsigned(v)),
    ensures
        s[p] == c,
        enc_unsigned(v).len() == w + 1,
        decode_at(s, p) == crate::decode::decode_fixed(s, p + 1, c),
        p + 1 + w <= s.len(),
        crate::decode::uint_at(s, p + 1, w) == v,
{
    let enc = enc_unsigned(v);
    lemma_placed_part(s, p, enc, 1, w);
    lemma_decode_tag(s, c, p + 1);
    if w == 1 {
    } else if w == 2 {
        assert(enc.subrange(1, 3) =~= be16(v as int));
        lemma_be16_roundtrip(s, p + 1, v as int);
    } else if w == 4 {
        assert(enc.subrange(1, 5) =~= be32(v as int));
        lemma_be32_roundtrip(s, p + 1, v as int);
    } else {
        assert(enc.subrange(1, 9) =~= be64(v as int));
        lemma_be64_roundtrip(s, p + 1, v as int);
    }
}

/// Unpacking what `pack_unsigned(v)` wrote gives back `v`, as a positive
/// integer (a fixint payload is held signed, the others unsigned).
pub proof fn law_unsigned_roundtrip(s: Seq<u8>, p: int, v: u64)
    requires
        placed(s, p, enc_unsigned(v)),
    ensures
        decode_at(s, p) == done(
            p + enc_unsigned(v).len(),
            ITEM_POSITIVE_INTEGER,
            if v < 0x80 {
                ItemValue::I64(v as i64)
            } else {
                ItemValue::U64(v)
            },
        ),
        decode_at(s, p).value.unwrap().spec_u64() == v,
{
    let enc = enc_unsigned(v);
    lemma_placed_part(s, p, enc, 0, 0);
    lemma_decode_tag(s, s[p], p + 1);
    if v < 0x80 {
        assert(s[p] == v);
    } else if v < 0x100 {
        lemma_uint_tail(s, p, v, 0xcc, 1);
    } else if v < 0x1_0000 {
        lemma_uint_tail(s, p, v, 0xcd, 2);
    } else if v < 0x1_0000_0000 {
        lemma_uint_tail(s, p, v, 0xce, 4);
    } else {
        lemma_uint_tail(s, p, v, 0xcf, 8);
    }
}

proof fn lemma_sint8_tail(s: Seq<u8>, p: int, i: i64)
    requires
        -128 <= i < -32,
        placed(s, p, enc_signed(i)),
    ensures
        s[p] == 0xd0,
        enc_signed(i).len() == 2,
        decode_at(s, p) == crate::decode::decode_fixed(s, p + 1, 0xd0u8),
        p + 2 <= s.len(),
        crate::decode::uint_at(s, p + 1, 1) == i + 0x100,
{
    let enc = enc_signed(i);
    lemma_decode_tag(s, 0xd0u8, p + 1);
    assert((i as int) % 0x100 == i + 0x100);
    assert(enc == seq![0xd0u8, (i + 0x100) as u8]);
    lemma_placed_part(s, p, enc, 1, 1);
}

proof fn lemma_sint16_tail(s: Seq<u8>, p: int, i: i64)
    requires
        -32768 <= i < -128,
        placed(s, p, enc_signed(i)),
    ensures
        s[p] == 0xd1,
        enc_signed(i).len() == 3,
        decode_at(s, p) == crate::decode::decode_fixed(s, p + 1, 0xd1u8),
        p + 3 <= s.len(),
        crate::decode::uint_at(s, p + 1, 2) == i + 0x1_0000,
{
    let enc = enc_signed(i);
    lemma_decode_tag(s, 0xd1u8, p + 1);
    assert((i as int) % 0x1_0000 == i + 0x1_0000);
    assert(enc == seq![0xd1u8] + be16(i + 0x1_0000));
    lemma_placed_part(s, p, enc, 1, 2);
    assert(enc.subrange(1, 3) =~= be16(i + 0x1_0000));
    lemma_be16_roundtrip(s, p + 1, i + 0x1_0000);
}

proof fn lemma_sint32_tail(s: Seq<u8>, p: int, i: i64)
    requires
        -0x8000_0000 <= i < -32768,
        placed(s, p, enc_signed(i)),
    ensures
        s[p] == 0xd2,
        enc_signed(i).len() == 5,
        decode_at(s, p) == crate::decode::decode_fixed(s, p + 1, 0xd2u8),
        p + 5 <= s.len(),
        crate::decode::uint_at(s, p + 1, 4) == i + 0x1_0000_0000,
{
    let enc = enc_signed(i);
    lemma_decode_tag(s, 0xd2u8, p + 1);
    assert((i as int) % 0x1_0000_0000 == i + 0x1_0000_0000);
    assert(enc == seq![0xd2u8] + be32(i + 0x1_0000_0000));
    lemma_placed_part(s, p, enc, 1, 4);
    assert(enc.subrange(1, 5) =~= be32(i + 0x1_0000_0000));
    lemma_be32_roundtrip(s, p + 1, i + 0x1_0000_0000);
}

proof fn lemma_sint64_tail(s: Seq<u8>, p: int, i: i64)
    requires
        i < -0x8000_0000,
        placed(s, p, enc_signed(i)),
    ensures
        s[p] == 0xd3,
        enc_signed(i).len() == 9,
        decode_at(s, p) == crate::decode::decode_fixed(s, p + 1, 0xd3u8),
        p + 9 <= s.len(),
        crate::decode::uint_at(s, p + 1, 8) == i + 0x1_0000_0000_0000_0000,
{
    let enc = enc_signed(i);
    lemma_decode_tag(s, 0xd3u8, p + 1);
    assert((i as int) % 0x1_0000_0000_0000_0000 == i + 0x1_0000_0000_0000_0000);
    assert(enc == seq![0xd3u8] + be64(i + 0x1_0000_0000_0000_0000));
    lemma_placed_part(s, p, enc, 1, 8);
    assert(enc.subrange(1, 9) =~= be64(i + 0x1_0000_0000_0000_0000));
    lemma_be64_roundtrip(s, p + 1, i + 0x1_0000_0000_0000_0000);
}

/// Unpacking what `pack_signed(i)` wrote gives back `i`: a positive
/// integer for `i >= 0`, a negative one otherwise (values above 127 travel
/// as unsigned and are held unsigned).
pub proof fn law_signed_roundtrip(s: Seq<u8>, p: int, i: i64)
    requires
        placed(s, p, enc_signed(i)),
    ensures
        decode_at(s, p) == done(
            p + enc_signed(i).len(),
            if i >= 0 {
                ITEM_POSITIVE_INTEGER
            } else {
                ITEM_NEGATIVE_INTEGER
            },
            if i > 127 {
                ItemValue::U64(i as u64)
            } else {
                ItemValue::I64(i)
            },
        ),
        decode_at(s, p).value.unwrap().spec_i64() == i,
{
    let enc = enc_signed(i);
    lemma_placed_part(s, p, enc, 0, 0);
    lemma_decode_tag(s, s[p], p + 1);
    if i > 127 {
        law_unsigned_roundtrip(s, p, i as u64);
    } else if i >= 0 {
        assert(s[p] == i);
    } else if i >= -32 {
        assert(s[p] == i + 0x100);
    } else if i >= -128 {
        lemma_sint8_tail(s, p, i);
    } else if i >= -32768 {
        lemma_sint16_tail(s, p, i);
    } else if i >= -0x8000_0000 {
        lemma_sint32_tail(s, p, i);
    } else {
        lemma_sint64_tail(s, p, i);
    }
}

/// Unpacking what `pack_nil` wrote gives nil, the payload left as it was.
pub proof fn law_nil_roundtrip(s: Seq<u8>, p: int)
    requires
        placed(s, p, enc_nil()),
    ensures
        decode_at(s, p) == (Outcome { rc: RC_OK, pos: p + 1, type_: ITEM_NIL, value: None }),
{
    lemma_placed_part(s, p, enc_nil(), 0, 0);
    lemma_decode_tag(s, s[p], p + 1);
}

/// Unpacking what `pack_boolean(b)` (or `pack_true`, `pack_false`) wrote
/// gives back `b`.
pub proof fn law_boolean_roundtrip(s: Seq<u8>, p: int, b: bool)
    requires
        placed(s, p, enc_boolean(b)),
    ensures
        decode_at(s, p) == done(p + 1, ITEM_BOOLEAN, ItemValue::Boolean(b)),
{
    lemma_placed_part(s, p, enc_boolean(b), 0, 0);
    lemma_decode_tag(s, s[p], p + 1);
}

/// Unpacking what `pack_float_bits(bits)` wrote gives back the bits.
pub proof fn law_float_roundtrip(s: Seq<u8>, p: int, bits: u32)
    requires
        placed(s, p, enc_float_bits(bits)),
    ensures
        decode_at(s, p) == done(p + 5, ITEM_FLOAT, ItemValue::Real(bits)),
{
    let enc = enc_float_bits(bits);
    lemma_placed_part(s, p, enc, 1, 4);
    assert(enc.subrange(1, 5) =~= be32(bits as int));
    lemma_be32_roundtrip(s, p + 1, bits as int);
    assert(s[p] == 0xca);
    lemma_decode_tag(s, s[p], p + 1);
}

/// Unpacking what `pack_double_bits(bits)` wrote gives back the bits.
pub proof fn law_double_roundtrip(s: Seq<u8>, p: int, bits: u64)
    requires
        placed(s, p, enc_double_bits(bits)),
    ensures
        decode_at(s, p) == done(p + 9, ITEM_DOUBLE, ItemValue::LongReal(bits)),
{
    let enc = enc_double_bits(bits);
    lemma_placed_part(s, p, enc, 1, 8);
    assert(enc.subrange(1, 9) =~= be64(bits as int));
    lemma_be64_roundtrip(s, p + 1, bits as int);
    assert(s[p] == 0xcb);
    lemma_decode_tag(s, s[p], p + 1);
}

/// Unpacking what `pack_array_size(n)` wrote gives an array of `n`
/// elements.
#[verifier::rlimit(60)]
pub proof fn law_array_size_roundtrip(s: Seq<u8>, p: int, n: u32)
    requires
        placed(s, p, enc_array_size(n)),
    ensures
        decode_at(s, p) == done(
            p + enc_array_size(n).len(),
            ITEM_ARRAY,
            ItemValue::Array(Container { size: n }),
        ),
{
    let enc = enc_array_size(n);
    lemma_placed_part(s, p, enc, 0, 0);
    lemma_decode_tag(s, s[p], p + 1);
    if n < 16 {
        assert(s[p] == 0x90 + n);
    } else if n < 0x1_0000 {
        lemma_placed_part(s, p, enc, 1, 2);
        assert(enc.subrange(1, 3) =~= be16(n as int));
        lemma_be16_roundtrip(s, p + 1, n as int);
        assert(s[p] == 0xdc);
    } else {
        lemma_placed_part(s, p, enc, 1, 4);
        assert(enc.subrange(1, 5) =~= be32(n as int));
        lemma_be32_roundtrip(s, p + 1, n as int);
        assert(s[p] == 0xdd);
    }
}

/// Unpacking what `pack_map_size(n)` wrote gives a map of `n` pairs.
#[verifier::rlimit(60)]
pub proof fn law_map_size_roundtrip(s: Seq<u8>, p: int, n: u32)
    requires
        placed(s, p, enc_map_size(n)),
    ensures
        decode_at(s, p) == done(
            p + enc_map_size(n).len(),
            ITEM_MAP,
            ItemValue::Mapping(Container { size: n }),
        ),
{
    let enc = enc_map_size(n);
    lemma_placed_part(s, p, enc, 0, 0);
    lemma_decode_tag(s, s[p], p + 1);
    if n < 16 {
        assert(s[p] == 0x80 + n);
    } else if n < 0x1_0000 {
        lemma_placed_part(s, p, enc, 1, 2);
        assert(enc.subrange(1, 3) =~= be16(n as int));
        lemma_be16_roundtrip(s, p + 1, n as int);
        assert(s[p] == 0xde);
    } else {
        lemma_placed_part(s, p, enc, 1, 4);
        assert(enc.subrange(1, 5) =~= be32(n as int));
        lemma_be32_roundtrip(s, p + 1, n as int);
        assert(s[p] == 0xdf);
    }
}

/// The length field of a str, bin or ext header: one byte at `q`, or the
/// big-endian `be16`/`be32` there.
proof fn lemma_length_field(s: Seq<u8>, p: int, enc: Seq<u8>, q: int, w: int, l: nat)
    requires
        placed(s, p, enc),
        1 <= q,
        q + w <= enc.len(),
        w == 1 ==> l < 0x100 && enc[q] == l,
        w == 2 ==> l < 0x1_0000 && enc.subrange(q, q + 2) == be16(l as int),
        w == 4 ==> l < 0x1_0000_0000 && enc.subrange(q, q + 4) == be32(l as int),
        w == 1 || w == 2 || w == 4,
    ensures
        crate::decode::uint_at(s, p + q, w) == l,
{
    lemma_placed_part(s, p, enc, q, w);
    if w == 1 {
        assert(s[p + q] == enc[q]);
    } else if w == 2 {
        lemma_be16_roundtrip(s, p + q, l as int);
    } else {
        lemma_be32_roundtrip(s, p + q, l as int);
    }
}

/// Unpacking what `pack_str(data)` wrote gives a str blob that covers the
/// bytes of `data` right after the header.
#[verifier::rlimit(100)]
pub proof fn law_str_roundtrip(s: Seq<u8>, p: int, data: Seq<u8>, compat: bool)
    requires
        data.len() <= max_payload(),
        placed(s, p, enc_str(data, compat)),
    ensures
        ({
            let l = data.len();
            let h = str_head(l, compat).len();
            &&& decode_at(s, p) == done(
                p + h + l,
                ITEM_STR,
                ItemValue::Str(Blob { start: (p + h) as usize, length: l as u32 }),
            )
            &&& s.subrange(p + h, p + h + l) == data
        }),
{
    let l = data.len();
    let head = str_head(l, compat);
    let enc = enc_str(data, compat);
    let h = head.len() as int;
    lemma_placed_part(s, p, enc, 0, 0);
    lemma_placed_part(s, p, enc, h, l as int);
    assert(enc.subrange(h, h + l) =~= data);
    lemma_decode_tag(s, s[p], p + 1);
    if l < 32 {
    } else if l < 0x100 && !compat {
        lemma_length_field(s, p, enc, 1, 1, l);
    } else if l < 0x1_0000 {
        assert(enc.subrange(1, 3) =~= be16(l as int));
        lemma_length_field(s, p, enc, 1, 2, l);
    } else {
        assert(enc.subrange(1, 5) =~= be32(l as int));
        lemma_length_field(s, p, enc, 1, 4, l);
    }
}

/// Unpacking what `pack_bin(data)` wrote outside the compatibility mode
/// gives a bin blob that covers the bytes of `data` right after the header.
#[verifier::rlimit(100)]
pub proof fn law_bin_roundtrip(s: Seq<u8>, p: int, data: Seq<u8>)
    requires
        data.len() <= max_payload(),
        placed(s, p, enc_bin(data)),
    ensures
        ({
            let l = data.len();
            let h = bin_head(l).len();
            &&& decode_at(s, p) == done(
                p + h + l,
                ITEM_BIN,
                ItemValue::Bin(Blob { start: (p + h) as usize, length: l as u32 }),
            )
            &&& s.subrange(p + h, p + h + l) == data
        }),
{
    let l = data.len();
    let head = bin_head(l);
    let enc = enc_bin(data);
    let h = head.len() as int;
    lemma_placed_part(s, p, enc, 0, 0);
    lemma_placed_part(s, p, enc, h, l as int);
    assert(enc.subrange(h, h + l) =~= data);
    lemma_decode_tag(s, s[p], p + 1);
    if l < 0x100 {
        lemma_length_field(s, p, enc, 1, 1, l);
    } else if l < 0x1_0000 {
        assert(enc.subrange(1, 3) =~= be16(l as int));
        lemma_length_field(s, p, enc, 1, 2, l);
    } else {
        assert(enc.subrange(1, 5) =~= be32(l as int));
        lemma_length_field(s, p, enc, 1, 4, l);
    }
}

/// The type byte of an ext header reads back as the type.
proof fn lemma_ext_type_byte(t: i8)
    ensures
        crate::decode::sign8(ext_type_byte(t) as int) == t,
{
}

/// Unpacking what `pack_ext(t, data)` wrote gives an ext blob of type `t`
/// that covers the bytes of `data` right after the header. Type -1 is the
/// timestamp's: its bytes decode as a timestamp or are refused.
#[verifier::rlimit(60)]
pub proof fn law_ext_roundtrip(s: Seq<u8>, p: int, t: i8, data: Seq<u8>)
    requires
        t != -1,
        data.len() <= max_payload(),
        placed(s, p, enc_ext(t, data)),
    ensures
        ({
            let l = data.len();
            let h = ext_head(t, l).len();
            &&& decode_at(s, p) == done(
                p + h + l,
                t as i32,
                ItemValue::Ext(Blob { start: (p + h) as usize, length: l as u32 }),
            )
            &&& s.subrange(p + h, p + h + l) == data
        }),
{
    let l = data.len();
    let head = ext_head(t, l);
    let enc = enc_ext(t, data);
    let h = head.len() as int;
    lemma_ext_type_byte(t);
    lemma_placed_part(s, p, enc, 0, 0);
    lemma_placed_part(s, p, enc, h, l as int);
    assert(enc.subrange(h, h + l) =~= data);
    lemma_decode_tag(s, s[p], p + 1);
    if l == 1 || l == 2 || l == 4 || l == 8 || l == 16 {
        assert(s[p + 1] == ext_type_byte(t));
    } else if l < 0x100 {
        lemma_length_field(s, p, enc, 1, 1, l);
        assert(s[p + 2] == ext_type_byte(t));
    } else if l < 0x1_0000 {
        assert(enc.subrange(1, 3) =~= be16(l as int));
        lemma_length_field(s, p, enc, 1, 2, l);
        assert(s[p + 3] == enc[3]);
    } else {
        assert(enc.subrange(1, 5) =~= be32(l as int));
        lemma_length_field(s, p, enc, 1, 4, l);
        assert(s[p + 5] == enc[5]);
    }
}

/// Unpacking what `pack_time(sec, nsec)` wrote gives back `sec` and `nsec`,
/// for every `sec` (negative ones and those of 2^32 or more included: the
/// seconds of a timestamp32 are read unsigned).
#[verifier::rlimit(60)]
pub proof fn law_time_roundtrip(s: Seq<u8>, p: int, sec: i64, nsec: u32)
    requires
        nsec < 1_000_000_000,
        placed(s, p, enc_time(sec, nsec)),
    ensures
        decode_at(s, p) == done(
            p + enc_time(sec, nsec).len(),
            ITEM_TIMESTAMP,
            ItemValue::Time(TimeSpec { tv_sec: sec, tv_nsec: nsec }),
        ),
{
    let enc = enc_time(sec, nsec);
    let u = i64_as_u64(sec) as int;
    lemma_placed_part(s, p, enc, 0, 0);
    lemma_decode_tag(s, s[p], p + 1);
    if u >= 0x4_0000_0000 {
        assert(enc.len() == 15);
        assert(s[p] == 0xc7);
        assert(s[p + 1] == 12);
        assert(s[p + 2] == 0xff);
        lemma_placed_part(s, p, enc, 3, 4);
        assert(enc.subrange(3, 7) =~= be32(nsec as int));
        lemma_be32_roundtrip(s, p + 3, nsec as int);
        lemma_placed_part(s, p, enc, 7, 8);
        assert(enc.subrange(7, 15) =~= be64(u));
        lemma_be64_roundtrip(s, p + 7, u);
        assert(crate::decode::sign64(u) == sec);
    } else {
        let d = nsec * 0x4_0000_0000 + u;
        assert(sec >= 0);
        assert(u == sec);
        assert(d % 0x4_0000_0000 == u) by (nonlinear_arith)
            requires
                d == nsec * 0x4_0000_0000 + u,
                0 <= u < 0x4_0000_0000,
                0 <= nsec,
        ;
        assert(d / 0x4_0000_0000 == nsec) by (nonlinear_arith)
            requires
                d == nsec * 0x4_0000_0000 + u,
                0 <= u < 0x4_0000_0000,
                0 <= nsec,
        ;
        if d >= 0x1_0000_0000 {
            assert(enc.len() == 10);
            assert(s[p] == 0xd7);
            assert(s[p + 1] == 0xff);
            lemma_placed_part(s, p, enc, 2, 8);
            assert(enc.subrange(2, 10) =~= be64(d));
            lemma_be64_roundtrip(s, p + 2, d);
        } else {
            assert(nsec == 0);
            assert(enc.len() == 6);
            assert(s[p] == 0xd6);
            assert(s[p + 1] == 0xff);
            lemma_placed_part(s, p, enc, 2, 4);
            assert(enc.subrange(2, 6) =~= be32(d));
            lemma_be32_roundtrip(s, p + 2, d);
        }
    }
}

/// The number of further items that an item's header announces: the
/// elements of an array, the keys and values of a map, none otherwise.
pub open spec fn announced(out: Outcome) -> int {
    match out.value {
        Some(ItemValue::Array(c)) => c.size as int,
        Some(ItemValue::Mapping(c)) => 2 * c.size,
        _ => 0,
    }
}

/// Whether a type code is one of the two integer type codes.
pub open spec fn is_integer_type(t: i32) -> bool {
    t == ITEM_POSITIVE_INTEGER || t == ITEM_NEGATIVE_INTEGER
}

/// Skipping an item that unpacks ends where unpacking it ends, and
/// announces the contents of arrays and maps; skipping one item that is not
/// a container is the same walk as unpacking it.
#[verifier::rlimit(100)]
pub proof fn law_skip_agrees_with_unpack(s: Seq<u8>, p: int)
    requires
        0 <= p,
        decode_at(s, p).rc == RC_OK,
    ensures
        skip_step(s, p) == (SkipStep {
            rc: RC_OK,
            pos: decode_at(s, p).pos,
            add: announced(decode_at(s, p)),
        }),
        announced(decode_at(s, p)) == 0 ==> skip_run(s, p, 1) == (RC_OK, decode_at(s, p).pos),
{
    let c = s[p];
    let q = p + 1;
    lemma_decode_tag(s, c, q);
    crate::bytes::lemma_be_at_bounds(s, q);
    if c == 0xc7 || c == 0xc8 || c == 0xc9 {
        let w: int = if c == 0xc7 {
            1
        } else if c == 0xc8 {
            2
        } else {
            4
        };
        assert(skip_step(s, p) == crate::decode::skip_sized(s, q, w, 1));
    }
    assert(skip_step(s, p) == (SkipStep {
        rc: RC_OK,
        pos: decode_at(s, p).pos,
        add: announced(decode_at(s, p)),
    }));
    crate::decode::lemma_skip_step_advances(s, p);
    if announced(decode_at(s, p)) == 0 {
        lemma_skip_one_item(s, p);
    }
}

proof fn lemma_skip_one_item(s: Seq<u8>, p: int)
    requires
        0 <= p,
        skip_step(s, p).rc == RC_OK,
        skip_step(s, p).add == 0,
    ensures
        skip_run(s, p, 1) == (RC_OK, skip_step(s, p).pos),
{
    crate::decode::lemma_skip_step_advances(s, p);
    reveal_with_fuel(skip_run, 2);
}

/// Looking at an item that unpacks announces the type that unpacking gives,
/// but for integers, where the sized signed formats are announced negative
/// whatever their value.
#[verifier::rlimit(100)]
pub proof fn law_look_ahead_agrees_with_unpack(s: Seq<u8>, p: int)
    requires
        0 <= p,
        decode_at(s, p).rc == RC_OK,
    ensures
        peek_at(s, p).0 == RC_OK,
        peek_at(s, p).1 == decode_at(s, p).type_ || (is_integer_type(peek_at(s, p).1)
            && is_integer_type(decode_at(s, p).type_)),
{
    let c = s[p];
    let q = p + 1;
    lemma_decode_tag(s, c, q);
}

/// A write that fit puts the encoding at the old cursor and keeps the bytes
/// written before it, so that unpacking from the old cursor reads it back.
pub proof fn law_write_keeps_earlier_bytes(pre: PackContext, post: PackContext, enc: Seq<u8>)
    requires
        pre.room_for(enc.len() as int),
        pre.wrote(post, enc),
    ensures
        placed(post.buffer@, pre.current as int, enc),
        post.buffer@.subrange(0, pre.current as int) == pre.buffer@.subrange(0, pre.current as int),
        post.buffer@.len() == pre.buffer@.len(),
{
    let b = post.buffer@;
    assert(b == splice(pre.buffer@, pre.current as int, enc));
    assert(b.subrange(pre.current as int, pre.current + enc.len()) =~= enc);
    assert(b.subrange(0, pre.current as int) =~= pre.buffer@.subrange(0, pre.current as int));
}

/// Unsigned integers take the shortest of the five forms.
pub proof fn law_unsigned_is_shortest(v: u64)
    ensures
        enc_unsigned(v).len() == (if v < 0x80 {
            1int
        } else if v < 0x100 {
            2
        } else if v < 0x1_0000 {
            3
        } else if v < 0x1_0000_0000 {
            5
        } else {
            9
        }),
{
}

/// Signed integers from 0 to 127 take the one-byte fixint form, those from
/// -32 to -1 the negative fixint form.
pub proof fn law_small_signed_is_fixint(i: i64)
    requires
        -32 <= i <= 127,
    ensures
        enc_signed(i) == seq![((i as int) % 0x100) as u8],
        i >= 0 ==> enc_signed(i) == seq![i as u8],
{
}

/// The compatibility mode never produces str8.
pub proof fn law_compat_has_no_str8(l: nat)
    ensures
        str_head(l, true)[0] != 0xd9,
{
}

/// Which timestamp form `pack_time` picks: timestamp32 (6 bytes) for whole
/// seconds from 0 below 2^32, timestamp64 (10 bytes) for other seconds from
/// 0 below 2^34, timestamp96 (15 bytes) for all the rest, negative seconds
/// included.
pub proof fn law_time_form(sec: i64, nsec: u32)
    requires
        nsec < 1_000_000_000,
    ensures
        enc_time(sec, nsec).len() == (if nsec == 0 && 0 <= sec < 0x1_0000_0000 {
            6int
        } else if 0 <= sec < 0x4_0000_0000 {
            10
        } else {
            15
        }),
{
    let u = i64_as_u64(sec) as int;
    if u < 0x4_0000_0000 {
        assert(nsec * 0x4_0000_0000 + u >= 0x1_0000_0000 <==> !(nsec == 0 && u < 0x1_0000_0000))
            by (nonlinear_arith)
            requires
                0 <= u < 0x4_0000_0000,
                0 <= nsec,
        ;
    }
}

/// A value as one pack call writes it.
pub enum PackedValue {
    Nil,
    Boolean(bool),
    Unsigned(u64),
    Signed(i64),
    FloatBits(u32),
    DoubleBits(u64),
    ArraySize(u32),
    MapSize(u32),
    /// A str (`pack_str`, or `pack_bin` in compatibility mode) and the mode.
    Str(Seq<u8>, bool),
    Bin(Seq<u8>),
    Ext(i8, Seq<u8>),
    Time(i64, u32),
}

/// The bytes that the pack call writes for `v`.
pub open spec fn packed_bytes(v: PackedValue) -> Seq<u8> {
    match v {
        PackedValue::Nil => enc_nil(),
        PackedValue::Boolean(b) => enc_boolean(b),
        PackedValue::Unsigned(u) => enc_unsigned(u),
        PackedValue::Signed(i) => enc_signed(i),
        PackedValue::FloatBits(bits) => enc_float_bits(bits),
        PackedValue::DoubleBits(bits) => enc_double_bits(bits),
        PackedValue::ArraySize(n) => enc_array_size(n),
        PackedValue::MapSize(n) => enc_map_size(n),
        PackedValue::Str(data, compat) => enc_str(data, compat),
        PackedValue::Bin(data) => enc_bin(data),
        PackedValue::Ext(t, data) => enc_ext(t, data),
        PackedValue::Time(sec, nsec) => enc_time(sec, nsec),
    }
}

/// The calls whose items unpack: payloads the packer accepts, timestamps
/// with `nsec < 10^9`, and ext types other than the timestamp's (an ext of
/// type -1 is read as a timestamp).
pub open spec fn packable(v: PackedValue) -> bool {
    match v {
        PackedValue::Str(data, _) => data.len() <= max_payload(),
        PackedValue::Bin(data) => data.len() <= max_payload(),
        PackedValue::Ext(t, data) => t != -1 && data.len() <= max_payload(),
        PackedValue::Time(_, nsec) => nsec < 1_000_000_000,
        _ => true,
    }
}

/// Looking ahead at an item that the packer wrote announces exactly the
/// type that unpacking it then gives, and unpacking it succeeds.
#[verifier::rlimit(100)]
pub proof fn law_look_ahead_types_packed_items(s: Seq<u8>, p: int, v: PackedValue)
    requires
        packable(v),
        placed(s, p, packed_bytes(v)),
    ensures
        decode_at(s, p).rc == RC_OK,
        peek_at(s, p) == (RC_OK, decode_at(s, p).type_),
{
    let enc = packed_bytes(v);
    lemma_placed_part(s, p, enc, 0, 0);
    match v {
        PackedValue::Nil => law_nil_roundtrip(s, p),
        PackedValue::Boolean(b) => law_boolean_roundtrip(s, p, b),
        PackedValue::Unsigned(u) => law_unsigned_roundtrip(s, p, u),
        PackedValue::Signed(i) => law_signed_roundtrip(s, p, i),
        PackedValue::FloatBits(bits) => law_float_roundtrip(s, p, bits),
        PackedValue::DoubleBits(bits) => law_double_roundtrip(s, p, bits),
        PackedValue::ArraySize(n) => law_array_size_roundtrip(s, p, n),
        PackedValue::MapSize(n) => law_map_size_roundtrip(s, p, n),
        PackedValue::Str(data, compat) => law_str_roundtrip(s, p, data, compat),
        PackedValue::Bin(data) => law_bin_roundtrip(s, p, data),
        PackedValue::Ext(t, data) => {
            law_ext_roundtrip(s, p, t, data);
            lemma_ext_type_byte(t);
            let h = ext_head(t, data.len()).len() as int;
            assert(enc[h - 1] == ext_type_byte(t));
            assert(s[p + h - 1] == enc[h - 1]);
        },
        PackedValue::Time(sec, nsec) => {
            law_time_roundtrip(s, p, sec, nsec);
            assert(s[p + 1] == enc[1]);
            assert(s[p + 2] == enc[2]);
        },
    }
}

/// `look_ahead` consumes nothing, also when the underflow handler refilled
/// the buffer: after it announced `r` with `RC_OK` (the cursor at the start
/// of the bytes it looked at), the next `unpack_next` on an item the packer
/// wrote there succeeds with an item of type `r`.
pub proof fn law_unpack_after_look_ahead(
    looked: UnpackContext,
    r: i32,
    unpacked: UnpackContext,
    v: PackedValue,
)
    requires
        looked.return_code == RC_OK,
        peek_at(looked.buffer@, looked.current as int) == (RC_OK, r),
        packable(v),
        placed(looked.buffer@, looked.current as int, packed_bytes(v)),
        looked.stepped(unpacked, decode_at(looked.buffer@, looked.current as int)),
    ensures
        unpacked.return_code == RC_OK,
        unpacked.item.type_ == r,
        unpacked.current == looked.current + packed_bytes(v).len(),
{
    let s = looked.buffer@;
    let p = looked.current as int;
    law_look_ahead_types_packed_items(s, p, v);
    lemma_placed_part(s, p, packed_bytes(v), 0, 0);
    match v {
        PackedValue::Nil => law_nil_roundtrip(s, p),
        PackedValue::Boolean(b) => law_boolean_roundtrip(s, p, b),
        PackedValue::Unsigned(u) => law_unsigned_roundtrip(s, p, u),
        PackedValue::Signed(i) => law_signed_roundtrip(s, p, i),
        PackedValue::FloatBits(bits) => law_float_roundtrip(s, p, bits),
        PackedValue::DoubleBits(bits) => law_double_roundtrip(s, p, bits),
        PackedValue::ArraySize(n) => law_array_size_roundtrip(s, p, n),
        PackedValue::MapSize(n) => law_map_size_roundtrip(s, p, n),
        PackedValue::Str(data, compat) => law_str_roundtrip(s, p, data, compat),
        PackedValue::Bin(data) => law_bin_roundtrip(s, p, data),
        PackedValue::Ext(t, data) => law_ext_roundtrip(s, p, t, data),
        PackedValue::Time(sec, nsec) => law_time_roundtrip(s, p, sec, nsec),
    }
}

proof fn lemma_packed_settled(pre: PackContext, post1: PackContext, post2: PackContext, enc: Seq<u8>)
    requires
        pre.packed(post1, enc),
        pre.packed(post2, enc),
        pre.decides_alone(enc),
    ensures
        post1.same_outcome(post2),
{
}

/// `pack_signed(i)` with `i >= 0` writes the bytes that `pack_unsigned(i)`
/// writes, and from one context both leave the same context wherever the
/// overflow handler does not decide.
pub proof fn law_nonnegative_signed_is_unsigned(
    i: i64,
    pre: PackContext,
    post_signed: PackContext,
    post_unsigned: PackContext,
)
    requires
        0 <= i,
        pre.packed(post_signed, enc_signed(i)),
        pre.packed(post_unsigned, enc_unsigned(i as u64)),
    ensures
        enc_signed(i) == enc_unsigned(i as u64),
        pre.decides_alone(enc_signed(i)) ==> post_signed.same_outcome(post_unsigned),
{
    assert(enc_signed(i) =~= enc_unsigned(i as u64));
    if pre.decides_alone(enc_signed(i)) {
        lemma_packed_settled(pre, post_signed, post_unsigned, enc_signed(i));
    }
}

/// In compatibility mode `pack_bin(data)` writes what `pack_str(data)`
/// writes, and from one context both leave the same context wherever the
/// overflow handler does not decide.
pub proof fn law_compat_bin_is_str(
    data: Seq<u8>,
    pre: PackContext,
    post_bin: PackContext,
    post_str: PackContext,
)
    requires
        pre.be_compatible,
        pre.packed_payload(post_bin, enc_str(data, true), data.len()),
        pre.packed_payload(post_str, enc_str(data, pre.be_compatible), data.len()),
    ensures
        pre.overflow_handler is None || (data.len() <= max_payload() && pre.room_for(
            enc_str(data, true).len() as int,
        )) ==> post_bin.same_outcome(post_str),
{
}

/// `pack_boolean(b)` writes what `pack_true` (for `b`) or `pack_false`
/// writes, the byte 0xc3 or 0xc2, and from one context both leave the same
/// context wherever the overflow handler does not decide.
pub proof fn law_boolean_is_true_or_false(
    b: bool,
    pre: PackContext,
    post_boolean: PackContext,
    post_literal: PackContext,
)
    requires
        pre.packed(post_boolean, enc_boolean(b)),
        pre.packed(
            post_literal,
            if b {
                enc_boolean(true)
            } else {
                enc_boolean(false)
            },
        ),
    ensures
        enc_boolean(b) == (if b {
            seq![0xc3u8]
        } else {
            seq![0xc2u8]
        }),
        pre.decides_alone(enc_boolean(b)) ==> post_boolean.same_outcome(post_literal),
{
    if pre.decides_alone(enc_boolean(b)) {
        lemma_packed_settled(pre, post_boolean, post_literal, enc_boolean(b));
    }
}

} // verus!
