//! Return codes, item type codes and the plain data types shared by the
//! packer and the unpacker.
use vstd::prelude::*;

verus! {

/// Return codes of the pack and unpack contexts.
pub const RC_OK: i32 = 0;
pub const RC_END_OF_INPUT: i32 = -1;
pub const RC_BUFFER_OVERFLOW: i32 = -2;
pub const RC_BUFFER_UNDERFLOW: i32 = -3;
pub const RC_MALFORMED_INPUT: i32 = -4;
pub const RC_WRONG_BYTE_ORDER: i32 = -5;
pub const RC_ERROR_IN_HANDLER: i32 = -6;
pub const RC_ILLEGAL_CALL: i32 = -7;
pub const RC_MALLOC_ERROR: i32 = -8;
pub const RC_STOPPED: i32 = -9;
pub const RC_TYPE_ERROR: i32 = -10;
pub const RC_VALUE_ERROR: i32 = -11;
pub const RC_WRONG_TIMESTAMP_LENGTH: i32 = -12;

/// Item type codes.
/// Values -128..=-1 are reserved ext types (-1 is the timestamp),
/// values 0..=127 are user ext types (the code is the ext type itself),
/// values 300..=310 are the MessagePack value types and
/// 999 marks the absence of an item.
pub const ITEM_MIN_RESERVED_EXT: i32 = -128;
pub const ITEM_TIMESTAMP: i32 = -1;
pub const ITEM_MAX_RESERVED_EXT: i32 = -1;
pub const ITEM_MIN_USER_EXT: i32 = 0;
pub const ITEM_MAX_USER_EXT: i32 = 127;

pub const ITEM_NIL: i32 = 300;
pub const ITEM_BOOLEAN: i32 = 301;
pub const ITEM_POSITIVE_INTEGER: i32 = 302;
pub const ITEM_NEGATIVE_INTEGER: i32 = 303;
pub const ITEM_FLOAT: i32 = 304;
pub const ITEM_DOUBLE: i32 = 305;
pub const ITEM_STR: i32 = 306;
pub const ITEM_BIN: i32 = 307;
pub const ITEM_ARRAY: i32 = 308;
pub const ITEM_MAP: i32 = 309;
pub const ITEM_EXT: i32 = 310;
pub const ITEM_NOT_AN_ITEM: i32 = 999;

/// A run of bytes inside the unpack buffer: `start` is the offset of the
/// first byte in the buffer of the context that decoded it.
#[derive(Clone, Copy, Debug, PartialEq, Eq)]
pub struct Blob {
    pub start: usize,
    pub length: u32,
}

/// The number of elements of an array, or of key/value pairs of a map.
#[derive(Clone, Copy, Debug, PartialEq, Eq)]
pub struct Container {
    pub size: u32,
}

/// Seconds and nanoseconds of a timestamp.
#[derive(Clone, Copy, Debug, PartialEq, Eq)]
pub struct TimeSpec {
    pub tv_sec: i64,
    pub tv_nsec: u32,
}

/// The payload of a decoded item. Floating-point payloads are held as their
/// IEEE-754 bit patterns.
#[derive(Clone, Copy, Debug, PartialEq, Eq)]
pub enum ItemValue {
    Boolean(bool),
    U64(u64),
    I64(i64),
    Real(u32),
    LongReal(u64),
    Array(Container),
    Mapping(Container),
    Str(Blob),
    Bin(Blob),
    Ext(Blob),
    Time(TimeSpec),
}

/// Two's-complement reinterpretation of a `u64` as an `i64`.
pub open spec fn u64_as_i64(v: u64) -> i64 {
    if v < 0x8000_0000_0000_0000 {
        v as i64
    } else {
        (v - 0x1_0000_0000_0000_0000) as i64
    }
}

/// Two's-complement reinterpretation of an `i64` as a `u64`.
pub open spec fn i64_as_u64(v: i64) -> u64 {
    if v >= 0 {
        v as u64
    } else {
        (v + 0x1_0000_0000_0000_0000) as u64
    }
}

pub(crate) fn reinterpret_u64(v: u64) -> (r: i64)
    ensures
        r == u64_as_i64(v),
{
    if v < 0x8000_0000_0000_0000 {
        v as i64
    } else {
        let low: u64 = v - 0x8000_0000_0000_0000;
        (low as i64) - 0x4000_0000_0000_0000 - 0x4000_0000_0000_0000
    }
}

pub(crate) fn reinterpret_i64(v: i64) -> (r: u64)
    ensures
        r == i64_as_u64(v),
{
    if v >= 0 {
        v as u64
    } else {
        let shifted: i64 = v + 0x4000_0000_0000_0000 + 0x4000_0000_0000_0000;
        (shifted as u64) + 0x8000_0000_0000_0000
    }
}

impl ItemValue {
    /// The 64-bit integer payload read as unsigned: an `I64` payload is
    /// reinterpreted bit for bit; payloads that are not integers give 0.
    pub open spec fn spec_u64(self) -> u64 {
        match self {
            ItemValue::U64(v) => v,
            ItemValue::I64(v) => i64_as_u64(v),
            _ => 0,
        }
    }

    /// The 64-bit integer payload read as signed: a `U64` payload is
    /// reinterpreted bit for bit; payloads that are not integers give 0.
    pub open spec fn spec_i64(self) -> i64 {
        match self {
            ItemValue::I64(v) => v,
            ItemValue::U64(v) => u64_as_i64(v),
            _ => 0,
        }
    }

    pub fn u64_(&self) -> (r: u64)
        ensures
            r == self.spec_u64(),
    {
        match self {
            ItemValue::U64(v) => *v,
            ItemValue::I64(v) => reinterpret_i64(*v),
            _ => 0,
        }
    }

    pub fn i64_(&self) -> (r: i64)
        ensures
            r == self.spec_i64(),
    {
        match self {
            ItemValue::I64(v) => *v,
            ItemValue::U64(v) => reinterpret_u64(*v),
            _ => 0,
        }
    }

    /// The timestamp payload; any other payload gives a zero timestamp.
    pub fn time(&self) -> (r: TimeSpec)
        ensures
            self is Time ==> r == self->Time_0,
            !(self is Time) ==> r == (TimeSpec { tv_sec: 0, tv_nsec: 0 }),
    {
        match self {
            ItemValue::Time(t) => *t,
            _ => TimeSpec { tv_sec: 0, tv_nsec: 0 },
        }
    }

    /// The blob payload of a str, bin or ext item; any other payload gives
    /// an empty blob at offset 0.
    pub fn blob(&self) -> (r: Blob)
        ensures
            self is Str ==> r == self->Str_0,
            self is Bin ==> r == self->Bin_0,
            self is Ext ==> r == self->Ext_0,
            !(self is Str || self is Bin || self is Ext) ==> r == (Blob { start: 0, length: 0 }),
    {
        match self {
            ItemValue::Str(b) => *b,
            ItemValue::Bin(b) => *b,
            ItemValue::Ext(b) => *b,
            _ => Blob { start: 0, length: 0 },
        }
    }

    /// The container payload of an array or map item; any other payload
    /// gives size 0.
    pub fn container(&self) -> (r: Container)
        ensures
            self is Array ==> r == self->Array_0,
            self is Mapping ==> r == self->Mapping_0,
            !(self is Array || self is Mapping) ==> r.size == 0,
    {
        match self {
            ItemValue::Array(c) => *c,
            ItemValue::Mapping(c) => *c,
            _ => Container { size: 0 },
        }
    }

    /// The boolean payload; any other payload gives `false`.
    pub fn boolean(&self) -> (r: bool)
        ensures
            r == (*self matches ItemValue::Boolean(b) && b),
    {
        match self {
            ItemValue::Boolean(b) => *b,
            _ => false,
        }
    }

    /// The bit pattern of a single-precision payload (0 for other payloads).
    pub fn real_bits(&self) -> (r: u32)
        ensures
            self is Real ==> r == self->Real_0,
            !(self is Real) ==> r == 0,
    {
        match self {
            ItemValue::Real(b) => *b,
            _ => 0,
        }
    }

    /// The bit pattern of a double-precision payload (0 for other payloads).
    pub fn long_real_bits(&self) -> (r: u64)
        ensures
            self is LongReal ==> r == self->LongReal_0,
            !(self is LongReal) ==> r == 0,
    {
        match self {
            ItemValue::LongReal(b) => *b,
            _ => 0,
        }
    }
}

/// A decoded item: its type code and its payload.
#[derive(Clone, Copy, Debug, PartialEq, Eq)]
pub struct Item {
    pub type_: i32,
    pub as_: ItemValue,
}

impl Default for Item {
    /// The item a fresh unpack context holds: no item, zero payload.
    fn default() -> (r: Item)
        ensures
            r.type_ == ITEM_NOT_AN_ITEM,
            r.as_ == ItemValue::U64(0),
    {
        Item { type_: ITEM_NOT_AN_ITEM, as_: ItemValue::U64(0) }
    }
}

} // verus!
