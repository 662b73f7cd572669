//! Where each field sits in the bytes of the integer and timestamp formats,
//! stated byte by byte on each side on its own: what the packer puts at
//! each offset, and what the unpacker reads from each offset of any input.
use crate::bytes::{be32_at, be64_at, lemma_be32_roundtrip, lemma_be64_roundtrip};
use crate::decode::{decode_at, done, lemma_decode_tag, stop, Outcome};
use crate::format::enc_time;
use crate::types::{
    Blob, Container, ItemValue, TimeSpec, ITEM_ARRAY, ITEM_BIN, ITEM_BOOLEAN, ITEM_DOUBLE,
    ITEM_FLOAT, ITEM_MAP, ITEM_NEGATIVE_INTEGER, ITEM_NIL, ITEM_POSITIVE_INTEGER, ITEM_STR,
    ITEM_TIMESTAMP, RC_MALFORMED_INPUT, RC_OK,
};
use vstd::prelude::*;

verus! {

/// A signed integer item ending at `pos` whose `m`-valued bit pattern is
/// `raw` (`m` = 2^8, 2^16, 2^32 or 2^64): the two's-complement value, typed
/// positive exactly when it is not negative.
pub open spec fn signed_read(pos: int, raw: int, m: int) -> Outcome {
    let x = if raw < m / 2 {
        raw
    } else {
        raw - m
    };
    done(
        pos,
        if raw < m / 2 {
            ITEM_POSITIVE_INTEGER
        } else {
            ITEM_NEGATIVE_INTEGER
        },
        ItemValue::I64(x as i64),
    )
}

/// Every integer format reads as its value, for every input: the fixints
/// by their byte, uint 8/16/32/64 as the unsigned big-endian value after
/// the format byte, int 8/16/32/64 as the two's-complement value of the
/// bytes after the format byte, a positive integer whenever that value is
/// not negative (int8 `0xd0 0x05` is 5).
#[verifier::rlimit(60)]
pub proof fn law_integer_formats_read_by_value(s: Seq<u8>, p: int)
    requires
        0 <= p < s.len(),
    ensures
        s[p] <= 0x7f ==> decode_at(s, p) == done(
            p + 1,
            ITEM_POSITIVE_INTEGER,
            ItemValue::I64(s[p] as i64),
        ),
        s[p] >= 0xe0 ==> decode_at(s, p) == done(
            p + 1,
            ITEM_NEGATIVE_INTEGER,
            ItemValue::I64((s[p] - 0x100) as i64),
        ),
        s[p] == 0xcc && p + 2 <= s.len() ==> decode_at(s, p) == done(
            p + 2,
            ITEM_POSITIVE_INTEGER,
            ItemValue::U64(s[p + 1] as u64),
        ),
        s[p] == 0xcd && p + 3 <= s.len() ==> decode_at(s, p) == done(
            p + 3,
            ITEM_POSITIVE_INTEGER,
            ItemValue::U64((s[p + 1] * 0x100 + s[p + 2]) as u64),
        ),
        s[p] == 0xce && p + 5 <= s.len() ==> decode_at(s, p) == done(
            p + 5,
            ITEM_POSITIVE_INTEGER,
            ItemValue::U64(be32_at(s, p + 1) as u64),
        ),
        s[p] == 0xcf && p + 9 <= s.len() ==> decode_at(s, p) == done(
            p + 9,
            ITEM_POSITIVE_INTEGER,
            ItemValue::U64(be64_at(s, p + 1) as u64),
        ),
        s[p] == 0xd0 && p + 2 <= s.len() ==> decode_at(s, p) == signed_read(
            p + 2,
            s[p + 1] as int,
            0x100,
        ),
        s[p] == 0xd1 && p + 3 <= s.len() ==> decode_at(s, p) == signed_read(
            p + 3,
            s[p + 1] * 0x100 + s[p + 2],
            0x1_0000,
        ),
        s[p] == 0xd2 && p + 5 <= s.len() ==> decode_at(s, p) == signed_read(
            p + 5,
            be32_at(s, p + 1),
            0x1_0000_0000,
        ),
        s[p] == 0xd3 && p + 9 <= s.len() ==> decode_at(s, p) == signed_read(
            p + 9,
            be64_at(s, p + 1),
            0x1_0000_0000_0000_0000,
        ),
{
    lemma_decode_tag(s, s[p], p + 1);
    crate::bytes::lemma_be_at_bounds(s, p + 1);
}

/// The three timestamp formats read, for every input, by their layout:
/// timestamp32 `d6 ff` + 4 bytes of unsigned seconds; timestamp64 `d7 ff` +
/// 8 bytes holding the nanoseconds in the upper 30 bits and the seconds in
/// the lower 34; timestamp96 `c7 0c ff` + 4 bytes of nanoseconds (offset 3)
/// + 8 bytes of two's-complement seconds (offset 7).
#[verifier::rlimit(60)]
pub proof fn law_timestamps_read_by_layout(s: Seq<u8>, p: int)
    requires
        0 <= p,
    ensures
        p + 6 <= s.len() && s[p] == 0xd6 && s[p + 1] == 0xff ==> decode_at(s, p) == done(
            p + 6,
            ITEM_TIMESTAMP,
            ItemValue::Time(TimeSpec { tv_sec: be32_at(s, p + 2) as i64, tv_nsec: 0 }),
        ),
        p + 10 <= s.len() && s[p] == 0xd7 && s[p + 1] == 0xff ==> decode_at(s, p) == done(
            p + 10,
            ITEM_TIMESTAMP,
            ItemValue::Time(
                TimeSpec {
                    tv_sec: (be64_at(s, p + 2) % 0x4_0000_0000) as i64,
                    tv_nsec: (be64_at(s, p + 2) / 0x4_0000_0000) as u32,
                },
            ),
        ),
        p + 15 <= s.len() && s[p] == 0xc7 && s[p + 1] == 12 && s[p + 2] == 0xff ==> decode_at(
            s,
            p,
        ) == done(
            p + 15,
            ITEM_TIMESTAMP,
            ItemValue::Time(
                TimeSpec {
                    tv_sec: (if be64_at(s, p + 7) < 0x8000_0000_0000_0000 {
                        be64_at(s, p + 7)
                    } else {
                        be64_at(s, p + 7) - 0x1_0000_0000_0000_0000
                    }) as i64,
                    tv_nsec: be32_at(s, p + 3) as u32,
                },
            ),
        ),
{
    if p < s.len() {
        lemma_decode_tag(s, s[p], p + 1);
    }
}

/// What `pack_time(sec, nsec)` writes, field by field: timestamp32 (`d6 ff`,
/// then `sec` in 4 bytes) for whole seconds in [0, 2^32); timestamp64 (`d7
/// ff`, then `nsec * 2^34 + sec` in 8 bytes) for other seconds in [0, 2^34);
/// otherwise timestamp96: `c7 0c ff`, then `nsec` in the 4 bytes from offset
/// 3, then the two's complement of `sec` in the 8 bytes from offset 7.
#[verifier::rlimit(60)]
pub proof fn law_time_layout(sec: i64, nsec: u32)
    requires
        nsec < 1_000_000_000,
    ensures
        ({
            let e = enc_time(sec, nsec);
            &&& nsec == 0 && 0 <= sec < 0x1_0000_0000 ==> {
                &&& e.len() == 6
                &&& e[0] == 0xd6 && e[1] == 0xff
                &&& be32_at(e, 2) == sec
            }
            &&& !(nsec == 0 && 0 <= sec < 0x1_0000_0000) && 0 <= sec < 0x4_0000_0000 ==> {
                &&& e.len() == 10
                &&& e[0] == 0xd7 && e[1] == 0xff
                &&& be64_at(e, 2) == nsec * 0x4_0000_0000 + sec
            }
            &&& !(0 <= sec < 0x4_0000_0000) ==> {
                &&& e.len() == 15
                &&& e[0] == 0xc7 && e[1] == 12 && e[2] == 0xff
                &&& be32_at(e, 3) == nsec
                &&& be64_at(e, 7) == (if sec >= 0 {
                    sec as int
                } else {
                    sec + 0x1_0000_0000_0000_0000
                })
            }
        }),
{
    let e = enc_time(sec, nsec);
    crate::laws::law_time_form(sec, nsec);
    let u: int = if sec >= 0 {
        sec as int
    } else {
        sec + 0x1_0000_0000_0000_0000
    };
    if !(0 <= sec < 0x4_0000_0000) {
        assert(e.subrange(3, 7) =~= crate::bytes::be32(nsec as int));
        lemma_be32_roundtrip(e, 3, nsec as int);
        assert(e.subrange(7, 15) =~= crate::bytes::be64(u));
        lemma_be64_roundtrip(e, 7, u);
    } else {
        let d = nsec * 0x4_0000_0000 + sec;
        if nsec == 0 && sec < 0x1_0000_0000 {
            assert(e.subrange(2, 6) =~= crate::bytes::be32(d));
            lemma_be32_roundtrip(e, 2, d);
        } else {
            assert(d >= 0x1_0000_0000) by (nonlinear_arith)
                requires
                    d == nsec * 0x4_0000_0000 + sec,
                    0 <= sec,
                    !(nsec == 0 && sec < 0x1_0000_0000),
            ;
            assert(d < 0x1_0000_0000_0000_0000) by (nonlinear_arith)
                requires
                    d == nsec * 0x4_0000_0000 + sec,
                    sec < 0x4_0000_0000,
                    nsec < 1_000_000_000,
            ;
            assert(e.subrange(2, 10) =~= crate::bytes::be64(d));
            lemma_be64_roundtrip(e, 2, d);
        }
    }
}

/// The scalar, container and blob formats read, for every input, by their
/// layout: the format byte, then the size or length (1, 2 or 4 big-endian
/// bytes), then for blobs the bytes themselves, which the item covers.
#[verifier::rlimit(100)]
pub proof fn law_other_formats_read_by_layout(s: Seq<u8>, p: int)
    requires
        0 <= p < s.len(),
    ensures
        s[p] == 0xc0 ==> decode_at(s, p) == (Outcome {
            rc: RC_OK,
            pos: p + 1,
            type_: ITEM_NIL,
            value: None,
        }),
        s[p] == 0xc1 ==> decode_at(s, p) == stop(RC_MALFORMED_INPUT, p + 1),
        s[p] == 0xc2 ==> decode_at(s, p) == done(p + 1, ITEM_BOOLEAN, ItemValue::Boolean(false)),
        s[p] == 0xc3 ==> decode_at(s, p) == done(p + 1, ITEM_BOOLEAN, ItemValue::Boolean(true)),
        s[p] == 0xca && p + 5 <= s.len() ==> decode_at(s, p) == done(
            p + 5,
            ITEM_FLOAT,
            ItemValue::Real(be32_at(s, p + 1) as u32),
        ),
        s[p] == 0xcb && p + 9 <= s.len() ==> decode_at(s, p) == done(
            p + 9,
            ITEM_DOUBLE,
            ItemValue::LongReal(be64_at(s, p + 1) as u64),
        ),
        0x80 <= s[p] <= 0x8f ==> decode_at(s, p) == done(
            p + 1,
            ITEM_MAP,
            ItemValue::Mapping(Container { size: (s[p] - 0x80) as u32 }),
        ),
        0x90 <= s[p] <= 0x9f ==> decode_at(s, p) == done(
            p + 1,
            ITEM_ARRAY,
            ItemValue::Array(Container { size: (s[p] - 0x90) as u32 }),
        ),
        s[p] == 0xdc && p + 3 <= s.len() ==> decode_at(s, p) == done(
            p + 3,
            ITEM_ARRAY,
            ItemValue::Array(Container { size: (s[p + 1] * 0x100 + s[p + 2]) as u32 }),
        ),
        s[p] == 0xdd && p + 5 <= s.len() ==> decode_at(s, p) == done(
            p + 5,
            ITEM_ARRAY,
            ItemValue::Array(Container { size: be32_at(s, p + 1) as u32 }),
        ),
        s[p] == 0xde && p + 3 <= s.len() ==> decode_at(s, p) == done(
            p + 3,
            ITEM_MAP,
            ItemValue::Mapping(Container { size: (s[p + 1] * 0x100 + s[p + 2]) as u32 }),
        ),
        s[p] == 0xdf && p + 5 <= s.len() ==> decode_at(s, p) == done(
            p + 5,
            ITEM_MAP,
            ItemValue::Mapping(Container { size: be32_at(s, p + 1) as u32 }),
        ),
        0xa0 <= s[p] <= 0xbf && p + 1 + (s[p] - 0xa0) <= s.len() ==> decode_at(s, p)
            == done(p + 1 + (s[p] - 0xa0), ITEM_STR, ItemValue::Str(Blob { start: (p + 1) as usize, length: (s[p] - 0xa0) as u32 })),
        s[p] == 0xd9 && p + 2 + s[p + 1] <= s.len() ==> decode_at(s, p) == done(p + 2 + (s[p + 1] as int), ITEM_STR, ItemValue::Str(Blob { start: (p + 2) as usize, length: s[p + 1] as u32 })),
        s[p] == 0xda && p + 3 <= s.len() && p + 3 + s[p + 1] * 0x100 + s[p + 2] <= s.len()
            ==> decode_at(s, p) == done(p + 3 + (s[p + 1] * 0x100 + s[p + 2]), ITEM_STR, ItemValue::Str(
                Blob { start: (p + 3) as usize, length: (s[p + 1] * 0x100 + s[p + 2]) as u32 },
            )),
        s[p] == 0xdb && p + 5 <= s.len() && p + 5 + be32_at(s, p + 1) <= s.len() ==> decode_at(
            s,
            p,
        ) == done(p + 5 + (be32_at(s, p + 1)), ITEM_STR, ItemValue::Str(Blob { start: (p + 5) as usize, length: be32_at(s, p + 1) as u32 })),
        s[p] == 0xc4 && p + 2 + s[p + 1] <= s.len() ==> decode_at(s, p) == done(p + 2 + (s[p + 1] as int), ITEM_BIN, ItemValue::Bin(Blob { start: (p + 2) as usize, length: s[p + 1] as u32 })),
        s[p] == 0xc5 && p + 3 <= s.len() && p + 3 + s[p + 1] * 0x100 + s[p + 2] <= s.len()
            ==> decode_at(s, p) == done(p + 3 + (s[p + 1] * 0x100 + s[p + 2]), ITEM_BIN, ItemValue::Bin(
                Blob { start: (p + 3) as usize, length: (s[p + 1] * 0x100 + s[p + 2]) as u32 },
            )),
        s[p] == 0xc6 && p + 5 <= s.len() && p + 5 + be32_at(s, p + 1) <= s.len() ==> decode_at(
            s,
            p,
        ) == done(p + 5 + (be32_at(s, p + 1)), ITEM_BIN, ItemValue::Bin(Blob { start: (p + 5) as usize, length: be32_at(s, p + 1) as u32 })),
{
    lemma_decode_tag(s, s[p], p + 1);
    crate::bytes::lemma_be_at_bounds(s, p + 1);
}

/// The ext formats read, for every input, by their layout: fixext 1, 2,
/// 4, 8 and 16 (`d4`..`d8`) as the type byte then that many data bytes;
/// ext8, ext16 and ext32 (`c7`..`c9`) as a 1-, 2- or 4-byte length, the
/// type byte, then the data; the type byte read as a signed byte. Type -1
/// is the timestamp's (see `law_timestamps_read_by_layout`).
#[verifier::rlimit(100)]
pub proof fn law_ext_formats_read_by_layout(s: Seq<u8>, p: int)
    requires
        0 <= p < s.len(),
    ensures
        ({
            let c = s[p];
            let n: int = if c == 0xd4 {
                1
            } else if c == 0xd5 {
                2
            } else if c == 0xd6 {
                4
            } else if c == 0xd7 {
                8
            } else {
                16
            };
            0xd4 <= c <= 0xd8 && p + 2 + n <= s.len() && s[p + 1] != 0xff ==> decode_at(s, p)
                == done(p + 2 + (n), (if s[p + 1] < 0x80 {
                    s[p + 1] as int
                } else {
                    s[p + 1] - 0x100
                }) as i32, ItemValue::Ext(Blob { start: (p + 2) as usize, length: n as u32 }))
        }),
        ({
            let c = s[p];
            let w: int = if c == 0xc7 {
                1
            } else if c == 0xc8 {
                2
            } else {
                4
            };
            let len: int = if w == 1 {
                s[p + 1] as int
            } else if w == 2 {
                s[p + 1] * 0x100 + s[p + 2]
            } else {
                be32_at(s, p + 1)
            };
            let tb = s[p + 1 + w];
            0xc7 <= c <= 0xc9 && p + 2 + w + len <= s.len() && tb != 0xff ==> decode_at(s, p)
                == done(p + 2 + w + (len), (if tb < 0x80 {
                    tb as int
                } else {
                    tb - 0x100
                }) as i32, ItemValue::Ext(Blob { start: (p + 2 + w) as usize, length: len as u32 }))
        }),
{
    lemma_decode_tag(s, s[p], p + 1);
    crate::bytes::lemma_be_at_bounds(s, p + 1);
}

} // verus!
