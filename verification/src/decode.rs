//! What the unpacker reads from a byte sequence: the outcome of one unpack
//! step, of skipping items, and of looking at the next item's type.
use crate::bytes::{be16_at, be32_at, be64_at};
use crate::types::{
    Blob, Container, ItemValue, TimeSpec, ITEM_ARRAY, ITEM_BIN, ITEM_BOOLEAN, ITEM_DOUBLE,
    ITEM_EXT, ITEM_FLOAT, ITEM_MAP, ITEM_NEGATIVE_INTEGER, ITEM_NIL, ITEM_NOT_AN_ITEM,
    ITEM_POSITIVE_INTEGER, ITEM_STR, ITEM_TIMESTAMP, RC_BUFFER_UNDERFLOW, RC_END_OF_INPUT,
    RC_MALFORMED_INPUT, RC_OK, RC_WRONG_TIMESTAMP_LENGTH,
};
use vstd::prelude::*;

verus! {

/// The effect of one unpack step: the return code, where the cursor ends,
/// the item's new type code, and its new payload (`None`: the payload is
/// left as it was).
pub struct Outcome {
    pub rc: i32,
    pub pos: int,
    pub type_: i32,
    pub value: Option<ItemValue>,
}

/// A step that decoded an item.
pub open spec fn done(pos: int, type_: i32, v: ItemValue) -> Outcome {
    Outcome { rc: RC_OK, pos, type_, value: Some(v) }
}

/// A step that stopped with `rc`, leaving no item.
pub open spec fn stop(rc: i32, pos: int) -> Outcome {
    Outcome { rc, pos, type_: ITEM_NOT_AN_ITEM, value: None }
}

/// The return codes that say the input ran out.
pub open spec fn is_shortfall(rc: i32) -> bool {
    rc == RC_END_OF_INPUT || rc == RC_BUFFER_UNDERFLOW
}

/// Two's-complement value of an 8-, 16-, 32- or 64-bit pattern.
pub open spec fn sign8(b: int) -> int {
    if b < 0x80 {
        b
    } else {
        b - 0x100
    }
}

pub open spec fn sign16(v: int) -> int {
    if v < 0x8000 {
        v
    } else {
        v - 0x1_0000
    }
}

pub open spec fn sign32(v: int) -> int {
    if v < 0x8000_0000 {
        v
    } else {
        v - 0x1_0000_0000
    }
}

pub open spec fn sign64(v: int) -> int {
    if v < 0x8000_0000_0000_0000 {
        v
    } else {
        v - 0x1_0000_0000_0000_0000
    }
}

/// The unsigned value of the `w` big-endian bytes of `s` at `q`
/// (`w` is 1, 2, 4 or 8).
pub open spec fn uint_at(s: Seq<u8>, q: int, w: int) -> int {
    if w == 1 {
        s[q] as int
    } else if w == 2 {
        be16_at(s, q)
    } else if w == 4 {
        be32_at(s, q)
    } else {
        be64_at(s, q)
    }
}

/// Whether format byte `c` has a payload of fixed width (floats, sized
/// integers, array16/32 and map16/32).
pub open spec fn is_fixed_format(c: u8) -> bool {
    (0xca <= c && c <= 0xd3) || (0xdc <= c && c <= 0xdf)
}

/// The payload width of such a format byte.
pub open spec fn fixed_width(c: u8) -> int {
    if c == 0xcc || c == 0xd0 {
        1
    } else if c == 0xcd || c == 0xd1 || c == 0xdc || c == 0xde {
        2
    } else if c == 0xca || c == 0xce || c == 0xd2 || c == 0xdd || c == 0xdf {
        4
    } else {
        8
    }
}

/// The type code for a signed value.
pub open spec fn signed_type(x: int) -> i32 {
    if x >= 0 {
        ITEM_POSITIVE_INTEGER
    } else {
        ITEM_NEGATIVE_INTEGER
    }
}

/// The item that fixed-width payload `v` makes under format byte `c`.
pub open spec fn fixed_item(c: u8, v: int) -> (i32, ItemValue) {
    if c == 0xca {
        (ITEM_FLOAT, ItemValue::Real(v as u32))
    } else if c == 0xcb {
        (ITEM_DOUBLE, ItemValue::LongReal(v as u64))
    } else if 0xcc <= c && c <= 0xcf {
        (ITEM_POSITIVE_INTEGER, ItemValue::U64(v as u64))
    } else if c == 0xd0 {
        (signed_type(sign8(v)), ItemValue::I64(sign8(v) as i64))
    } else if c == 0xd1 {
        (signed_type(sign16(v)), ItemValue::I64(sign16(v) as i64))
    } else if c == 0xd2 {
        (signed_type(sign32(v)), ItemValue::I64(sign32(v) as i64))
    } else if c == 0xd3 {
        (signed_type(sign64(v)), ItemValue::I64(sign64(v) as i64))
    } else if c == 0xdc || c == 0xdd {
        (ITEM_ARRAY, ItemValue::Array(Container { size: v as u32 }))
    } else {
        (ITEM_MAP, ItemValue::Mapping(Container { size: v as u32 }))
    }
}

pub open spec fn decode_fixed(s: Seq<u8>, q: int, c: u8) -> Outcome {
    let w = fixed_width(c);
    if q + w <= s.len() {
        let (t, v) = fixed_item(c, uint_at(s, q, w));
        done(q + w, t, v)
    } else {
        stop(RC_BUFFER_UNDERFLOW, q)
    }
}

/// The payload for a blob of kind `ITEM_STR`, `ITEM_BIN` or (any other)
/// ext.
pub open spec fn blob_value(kind: i32, b: Blob) -> ItemValue {
    if kind == ITEM_STR {
        ItemValue::Str(b)
    } else if kind == ITEM_BIN {
        ItemValue::Bin(b)
    } else {
        ItemValue::Ext(b)
    }
}

/// `len` bytes at `r` as a blob item of type `type_`.
pub open spec fn decode_blob(s: Seq<u8>, r: int, len: int, type_: i32, kind: i32) -> Outcome {
    if r + len <= s.len() {
        done(r + len, type_, blob_value(kind, Blob { start: r as usize, length: len as u32 }))
    } else {
        stop(RC_BUFFER_UNDERFLOW, r)
    }
}

/// A str or bin whose length takes `w` bytes at `q`.
pub open spec fn decode_sized_blob(s: Seq<u8>, q: int, w: int, kind: i32) -> Outcome {
    if q + w <= s.len() {
        decode_blob(s, q + w, uint_at(s, q, w), kind, kind)
    } else {
        stop(RC_BUFFER_UNDERFLOW, q)
    }
}

/// ext8 (`w == 1`, where type -1 is a timestamp96), ext16 or ext32.
pub open spec fn decode_ext(s: Seq<u8>, q: int, w: int) -> Outcome {
    if q + w > s.len() {
        stop(RC_BUFFER_UNDERFLOW, q)
    } else {
        let len = uint_at(s, q, w);
        let r = q + w;
        if r + 1 > s.len() {
            stop(RC_BUFFER_UNDERFLOW, r)
        } else {
            let t = sign8(s[r] as int);
            let d = r + 1;
            if w == 1 && t == -1 {
                if len == 12 {
                    if d + 4 > s.len() {
                        stop(RC_BUFFER_UNDERFLOW, d)
                    } else if d + 12 > s.len() {
                        stop(RC_BUFFER_UNDERFLOW, d + 4)
                    } else {
                        done(
                            d + 12,
                            ITEM_TIMESTAMP,
                            ItemValue::Time(
                                TimeSpec {
                                    tv_sec: sign64(be64_at(s, d + 4)) as i64,
                                    tv_nsec: be32_at(s, d) as u32,
                                },
                            ),
                        )
                    }
                } else {
                    stop(RC_WRONG_TIMESTAMP_LENGTH, d)
                }
            } else {
                decode_blob(s, d, len, t as i32, ITEM_EXT)
            }
        }
    }
}

/// fixext of `n` bytes: type byte at `q`, data after it; type -1 is a
/// timestamp32 (`n == 4`) or timestamp64 (`n == 8`).
pub open spec fn decode_fixext(s: Seq<u8>, q: int, n: int) -> Outcome {
    if q + n + 1 > s.len() {
        stop(RC_BUFFER_UNDERFLOW, q)
    } else {
        let t = sign8(s[q] as int);
        let d = q + 1;
        if t == -1 {
            if n == 4 {
                done(
                    d + n,
                    ITEM_TIMESTAMP,
                    ItemValue::Time(TimeSpec { tv_sec: be32_at(s, d) as i64, tv_nsec: 0 }),
                )
            } else if n == 8 {
                let raw = be64_at(s, d);
                done(
                    d + n,
                    ITEM_TIMESTAMP,
                    ItemValue::Time(
                        TimeSpec {
                            tv_sec: (raw % 0x4_0000_0000) as i64,
                            tv_nsec: (raw / 0x4_0000_0000) as u32,
                        },
                    ),
                )
            } else {
                stop(RC_WRONG_TIMESTAMP_LENGTH, d + n)
            }
        } else {
            done(d + n, t as i32, ItemValue::Ext(Blob { start: d as usize, length: n as u32 }))
        }
    }
}

/// The item that follows format byte `c`, whose next byte is at `q`.
#[verifier::opaque]
pub open spec fn decode_tag(s: Seq<u8>, c: u8, q: int) -> Outcome {
    if c <= 0x7f {
        done(q, ITEM_POSITIVE_INTEGER, ItemValue::I64(c as i64))
    } else if c <= 0x8f {
        done(q, ITEM_MAP, ItemValue::Mapping(Container { size: (c - 0x80) as u32 }))
    } else if c <= 0x9f {
        done(q, ITEM_ARRAY, ItemValue::Array(Container { size: (c - 0x90) as u32 }))
    } else if c <= 0xbf {
        decode_blob(s, q, c - 0xa0, ITEM_STR, ITEM_STR)
    } else if c == 0xc0 {
        Outcome { rc: RC_OK, pos: q, type_: ITEM_NIL, value: None }
    } else if c == 0xc1 {
        stop(RC_MALFORMED_INPUT, q)
    } else if c == 0xc2 {
        done(q, ITEM_BOOLEAN, ItemValue::Boolean(false))
    } else if c == 0xc3 {
        done(q, ITEM_BOOLEAN, ItemValue::Boolean(true))
    } else if c == 0xc4 {
        decode_sized_blob(s, q, 1, ITEM_BIN)
    } else if c == 0xc5 {
        decode_sized_blob(s, q, 2, ITEM_BIN)
    } else if c == 0xc6 {
        decode_sized_blob(s, q, 4, ITEM_BIN)
    } else if c == 0xc7 {
        decode_ext(s, q, 1)
    } else if c == 0xc8 {
        decode_ext(s, q, 2)
    } else if c == 0xc9 {
        decode_ext(s, q, 4)
    } else if c <= 0xd3 {
        decode_fixed(s, q, c)
    } else if c == 0xd4 {
        decode_fixext(s, q, 1)
    } else if c == 0xd5 {
        decode_fixext(s, q, 2)
    } else if c == 0xd6 {
        decode_fixext(s, q, 4)
    } else if c == 0xd7 {
        decode_fixext(s, q, 8)
    } else if c == 0xd8 {
        decode_fixext(s, q, 16)
    } else if c == 0xd9 {
        decode_sized_blob(s, q, 1, ITEM_STR)
    } else if c == 0xda {
        decode_sized_blob(s, q, 2, ITEM_STR)
    } else if c == 0xdb {
        decode_sized_blob(s, q, 4, ITEM_STR)
    } else if c <= 0xdf {
        decode_fixed(s, q, c)
    } else {
        done(q, ITEM_NEGATIVE_INTEGER, ItemValue::I64((c - 0x100) as i64))
    }
}

/// `decode_tag` by ranges of the format byte.
pub proof fn lemma_decode_tag(s: Seq<u8>, c: u8, q: int)
    ensures
        c <= 0x7f ==> decode_tag(s, c, q) == done(
            q,
            ITEM_POSITIVE_INTEGER,
            ItemValue::I64(c as i64),
        ),
        0x80 <= c <= 0x8f ==> decode_tag(s, c, q) == done(
            q,
            ITEM_MAP,
            ItemValue::Mapping(Container { size: (c - 0x80) as u32 }),
        ),
        0x90 <= c <= 0x9f ==> decode_tag(s, c, q) == done(
            q,
            ITEM_ARRAY,
            ItemValue::Array(Container { size: (c - 0x90) as u32 }),
        ),
        0xa0 <= c <= 0xbf ==> decode_tag(s, c, q) == decode_blob(s, q, c - 0xa0, ITEM_STR, ITEM_STR),
        c == 0xc0 ==> decode_tag(s, c, q) == (Outcome {
            rc: RC_OK,
            pos: q,
            type_: ITEM_NIL,
            value: None,
        }),
        c == 0xc1 ==> decode_tag(s, c, q) == stop(RC_MALFORMED_INPUT, q),
        c == 0xc2 ==> decode_tag(s, c, q) == done(q, ITEM_BOOLEAN, ItemValue::Boolean(false)),
        c == 0xc3 ==> decode_tag(s, c, q) == done(q, ITEM_BOOLEAN, ItemValue::Boolean(true)),
        c == 0xc4 ==> decode_tag(s, c, q) == decode_sized_blob(s, q, 1, ITEM_BIN),
        c == 0xc5 ==> decode_tag(s, c, q) == decode_sized_blob(s, q, 2, ITEM_BIN),
        c == 0xc6 ==> decode_tag(s, c, q) == decode_sized_blob(s, q, 4, ITEM_BIN),
        c == 0xc7 ==> decode_tag(s, c, q) == decode_ext(s, q, 1),
        c == 0xc8 ==> decode_tag(s, c, q) == decode_ext(s, q, 2),
        c == 0xc9 ==> decode_tag(s, c, q) == decode_ext(s, q, 4),
        is_fixed_format(c) ==> decode_tag(s, c, q) == decode_fixed(s, q, c),
        c == 0xd4 ==> decode_tag(s, c, q) == decode_fixext(s, q, 1),
        c == 0xd5 ==> decode_tag(s, c, q) == decode_fixext(s, q, 2),
        c == 0xd6 ==> decode_tag(s, c, q) == decode_fixext(s, q, 4),
        c == 0xd7 ==> decode_tag(s, c, q) == decode_fixext(s, q, 8),
        c == 0xd8 ==> decode_tag(s, c, q) == decode_fixext(s, q, 16),
        c == 0xd9 ==> decode_tag(s, c, q) == decode_sized_blob(s, q, 1, ITEM_STR),
        c == 0xda ==> decode_tag(s, c, q) == decode_sized_blob(s, q, 2, ITEM_STR),
        c == 0xdb ==> decode_tag(s, c, q) == decode_sized_blob(s, q, 4, ITEM_STR),
        c >= 0xe0 ==> decode_tag(s, c, q) == done(
            q,
            ITEM_NEGATIVE_INTEGER,
            ItemValue::I64((c - 0x100) as i64),
        ),
{
    reveal(decode_tag);
}

/// The outcome of unpacking the item that starts at `p` in `s`.
pub open spec fn decode_at(s: Seq<u8>, p: int) -> Outcome {
    if p + 1 > s.len() {
        stop(RC_END_OF_INPUT, p)
    } else {
        decode_tag(s, s[p], p + 1)
    }
}


/// The effect of skipping the one item that starts at `p`: the return
/// code, where the cursor ends, and how many more items its header
/// announces (the elements of an array, the keys and values of a map).
pub struct SkipStep {
    pub rc: i32,
    pub pos: int,
    pub add: int,
}

/// `n` bytes at `q` skipped, announcing `add` more items.
pub open spec fn skip_need(s: Seq<u8>, q: int, n: int, add: int) -> SkipStep {
    if q + n <= s.len() {
        SkipStep { rc: RC_OK, pos: q + n, add }
    } else {
        SkipStep { rc: RC_BUFFER_UNDERFLOW, pos: q, add: 0 }
    }
}

/// A length of `w` bytes at `q`, then that many bytes plus `extra` skipped.
pub open spec fn skip_sized(s: Seq<u8>, q: int, w: int, extra: int) -> SkipStep {
    if q + w <= s.len() {
        skip_need(s, q + w, uint_at(s, q, w) + extra, 0)
    } else {
        SkipStep { rc: RC_BUFFER_UNDERFLOW, pos: q, add: 0 }
    }
}

/// A count of `w` bytes at `q`, announcing `factor` items per unit.
pub open spec fn skip_count(s: Seq<u8>, q: int, w: int, factor: int) -> SkipStep {
    if q + w <= s.len() {
        SkipStep { rc: RC_OK, pos: q + w, add: factor * uint_at(s, q, w) }
    } else {
        SkipStep { rc: RC_BUFFER_UNDERFLOW, pos: q, add: 0 }
    }
}

/// Skipping the item whose format byte is at `p`; the contents of arrays
/// and maps are not skipped here but announced.
pub open spec fn skip_step(s: Seq<u8>, p: int) -> SkipStep {
    if p + 1 > s.len() {
        SkipStep { rc: RC_END_OF_INPUT, pos: p, add: 0 }
    } else {
        let c = s[p];
        let q = p + 1;
        if c <= 0x7f || c >= 0xe0 || c == 0xc0 || c == 0xc2 || c == 0xc3 {
            SkipStep { rc: RC_OK, pos: q, add: 0 }
        } else if c == 0xcc || c == 0xd0 {
            skip_need(s, q, 1, 0)
        } else if c == 0xcd || c == 0xd1 || c == 0xd4 {
            skip_need(s, q, 2, 0)
        } else if c == 0xd5 {
            skip_need(s, q, 3, 0)
        } else if c == 0xca || c == 0xce || c == 0xd2 {
            skip_need(s, q, 4, 0)
        } else if c == 0xd6 {
            skip_need(s, q, 5, 0)
        } else if c == 0xcb || c == 0xcf || c == 0xd3 {
            skip_need(s, q, 8, 0)
        } else if c == 0xd7 {
            skip_need(s, q, 9, 0)
        } else if c == 0xd8 {
            skip_need(s, q, 17, 0)
        } else if 0xa0 <= c && c <= 0xbf {
            skip_need(s, q, c - 0xa0, 0)
        } else if c == 0xd9 || c == 0xc4 {
            skip_sized(s, q, 1, 0)
        } else if c == 0xda || c == 0xc5 {
            skip_sized(s, q, 2, 0)
        } else if c == 0xdb || c == 0xc6 {
            skip_sized(s, q, 4, 0)
        } else if 0x80 <= c && c <= 0x8f {
            SkipStep { rc: RC_OK, pos: q, add: 2 * (c - 0x80) }
        } else if 0x90 <= c && c <= 0x9f {
            SkipStep { rc: RC_OK, pos: q, add: c - 0x90 }
        } else if c == 0xdc {
            skip_count(s, q, 2, 1)
        } else if c == 0xde {
            skip_count(s, q, 2, 2)
        } else if c == 0xdd {
            skip_count(s, q, 4, 1)
        } else if c == 0xdf {
            skip_count(s, q, 4, 2)
        } else if c == 0xc7 {
            skip_sized(s, q, 1, 1)
        } else if c == 0xc8 {
            skip_sized(s, q, 2, 1)
        } else if c == 0xc9 {
            skip_sized(s, q, 4, 1)
        } else {
            SkipStep { rc: RC_MALFORMED_INPUT, pos: q, add: 0 }
        }
    }
}

/// A successful skip step moves forward and stays inside `s`.
pub proof fn lemma_skip_step_advances(s: Seq<u8>, p: int)
    requires
        0 <= p,
    ensures
        skip_step(s, p).rc == RC_OK ==> p < skip_step(s, p).pos <= s.len(),
        skip_step(s, p).rc == RC_OK ==> 0 <= skip_step(s, p).add <= 2 * 0xffff_ffff,
        p <= skip_step(s, p).pos,
{
    if p + 1 <= s.len() {
        crate::bytes::lemma_be_at_bounds(s, p + 1);
    }
}

/// An item count after a step: one item fewer, the announced ones more,
/// held at `i64::MAX` at most.
pub open spec fn next_count(count: int, add: int) -> int {
    if count - 1 + add > i64::MAX {
        i64::MAX as int
    } else {
        count - 1 + add
    }
}

/// Skipping `count` items from `p`: the return code and the final cursor.
pub open spec fn skip_run(s: Seq<u8>, p: int, count: int) -> (i32, int)
    decreases s.len() - p,
{
    if count <= 0 || p < 0 {
        (RC_OK, p)
    } else {
        let st = skip_step(s, p);
        if st.rc != RC_OK {
            (st.rc, st.pos)
        } else {
            proof {
                lemma_skip_step_advances(s, p);
            }
            skip_run(s, st.pos, next_count(count, st.add))
        }
    }
}

/// The type code that the item at `p` announces, and the return code that
/// looking at it leaves: format bytes that need more bytes to tell (the
/// ext formats) need them in `s`.
pub open spec fn peek_at(s: Seq<u8>, p: int) -> (i32, i32) {
    if p + 1 > s.len() {
        (RC_END_OF_INPUT, ITEM_NOT_AN_ITEM)
    } else {
        let c = s[p];
        if c <= 0x7f {
            (RC_OK, ITEM_POSITIVE_INTEGER)
        } else if c <= 0x8f {
            (RC_OK, ITEM_MAP)
        } else if c <= 0x9f {
            (RC_OK, ITEM_ARRAY)
        } else if c <= 0xbf {
            (RC_OK, ITEM_STR)
        } else if c == 0xc0 {
            (RC_OK, ITEM_NIL)
        } else if c == 0xc1 {
            (RC_OK, ITEM_NOT_AN_ITEM)
        } else if c <= 0xc3 {
            (RC_OK, ITEM_BOOLEAN)
        } else if c <= 0xc6 {
            (RC_OK, ITEM_BIN)
        } else if c == 0xc7 {
            peek_ext_type(s, p, 3)
        } else if c == 0xc8 {
            peek_ext_type(s, p, 4)
        } else if c == 0xc9 {
            peek_ext_type(s, p, 6)
        } else if c == 0xca {
            (RC_OK, ITEM_FLOAT)
        } else if c == 0xcb {
            (RC_OK, ITEM_DOUBLE)
        } else if c <= 0xcf {
            (RC_OK, ITEM_POSITIVE_INTEGER)
        } else if c <= 0xd3 {
            (RC_OK, ITEM_NEGATIVE_INTEGER)
        } else if c <= 0xd8 {
            peek_ext_type(s, p, 2)
        } else if c <= 0xdb {
            (RC_OK, ITEM_STR)
        } else if c <= 0xdd {
            (RC_OK, ITEM_ARRAY)
        } else if c <= 0xdf {
            (RC_OK, ITEM_MAP)
        } else {
            (RC_OK, ITEM_NEGATIVE_INTEGER)
        }
    }
}

/// The ext type in the last of the `n` bytes from `p`.
pub open spec fn peek_ext_type(s: Seq<u8>, p: int, n: int) -> (i32, i32) {
    if p + n > s.len() {
        (RC_BUFFER_UNDERFLOW, ITEM_NOT_AN_ITEM)
    } else {
        (RC_OK, sign8(s[p + n - 1] as int) as i32)
    }
}

} // verus!
