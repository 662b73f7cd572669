//! The unpacker: a context that decodes one item at a time from a byte
//! buffer, with a sticky return code and an optional underflow handler.
use crate::bytes::{lemma_be_at_bounds, load_be16, load_be32, load_be64};
use crate::decode::{
    blob_value, decode_at, decode_blob, decode_ext, decode_fixed, decode_fixext,
    decode_sized_blob, decode_tag, fixed_item, fixed_width, is_fixed_format, is_shortfall,
    lemma_skip_step_advances, next_count, peek_at, sign8,
    skip_run, skip_step, uint_at, Outcome,
};
use crate::pack::has_room;
use crate::types::{
    reinterpret_u64, Blob, Container, Item, ItemValue, TimeSpec, ITEM_ARRAY, ITEM_BIN,
    ITEM_BOOLEAN, ITEM_DOUBLE, ITEM_EXT, ITEM_FLOAT, ITEM_MAP, ITEM_NEGATIVE_INTEGER, ITEM_NIL,
    ITEM_NOT_AN_ITEM, ITEM_POSITIVE_INTEGER, ITEM_STR, ITEM_TIMESTAMP, RC_BUFFER_UNDERFLOW,
    RC_END_OF_INPUT, RC_MALFORMED_INPUT, RC_OK, RC_STOPPED, RC_WRONG_TIMESTAMP_LENGTH,
};
use vstd::prelude::*;

verus! {

/// What the user supplies to bring in more input.
///
/// It is called with the context's buffer, cursor and `err_no`, and with the
/// number of bytes that must be readable at the cursor. It may replace or
/// refill the buffer and move the cursor. It returns `RC_OK` when it made the
/// bytes available, or an error code: `RC_END_OF_INPUT` is recorded as
/// `RC_BUFFER_UNDERFLOW` when the context was inside an item, any other code
/// as it is.
pub trait UnpackUnderflowHandler {
    fn handle_underflow(
        &mut self,
        buffer: &mut Vec<u8>,
        current: &mut usize,
        err_no: &mut i32,
        more: usize,
    ) -> i32;
}

/// An unpacking context: `buffer` holds the input, `current` is where the
/// next item starts, `item` is the item last decoded.
pub struct UnpackContext {
    pub item: Item,
    pub buffer: Vec<u8>,
    pub current: usize,
    pub return_code: i32,
    pub err_no: i32,
    pub underflow_handler: Option<Box<dyn UnpackUnderflowHandler>>,
}

/// The return code for running out of input: at an item boundary it is the
/// end of the input, inside an item an underflow.
pub open spec fn shortfall_code(mid_item: bool) -> i32 {
    if mid_item {
        RC_BUFFER_UNDERFLOW
    } else {
        RC_END_OF_INPUT
    }
}

fn byte_value_i8(b: u8) -> (r: i8)
    ensures
        r as int == sign8(b as int),
{
    if b < 0x80 {
        b as i8
    } else {
        ((b as i16) - 0x100) as i8
    }
}

fn load_uint(buf: &Vec<u8>, q: usize, w: usize) -> (r: u64)
    requires
        w == 1 || w == 2 || w == 4 || w == 8,
        q + w <= buf@.len(),
    ensures
        r == uint_at(buf@, q as int, w as int),
        w == 1 ==> r < 0x100,
        w == 2 ==> r < 0x1_0000,
        w == 4 ==> r < 0x1_0000_0000,
{
    proof {
        lemma_be_at_bounds(buf@, q as int);
    }
    if w == 1 {
        buf[q] as u64
    } else if w == 2 {
        load_be16(buf, q) as u64
    } else if w == 4 {
        load_be32(buf, q) as u64
    } else {
        load_be64(buf, q)
    }
}

fn width_of(c: u8) -> (w: usize)
    ensures
        w == fixed_width(c),
{
    if c == 0xcc || c == 0xd0 {
        1
    } else if c == 0xcd || c == 0xd1 || c == 0xdc || c == 0xde {
        2
    } else if c == 0xca || c == 0xce || c == 0xd2 || c == 0xdd || c == 0xdf {
        4
    } else {
        8
    }
}

fn make_fixed_item(c: u8, v: u64) -> (r: Item)
    requires
        is_fixed_format(c),
        fixed_width(c) == 1 ==> v < 0x100,
        fixed_width(c) == 2 ==> v < 0x1_0000,
        fixed_width(c) == 4 ==> v < 0x1_0000_0000,
    ensures
        (r.type_, r.as_) == fixed_item(c, v as int),
        r.type_ != ITEM_NOT_AN_ITEM,
{
    if c == 0xca {
        Item { type_: ITEM_FLOAT, as_: ItemValue::Real(v as u32) }
    } else if c == 0xcb {
        Item { type_: ITEM_DOUBLE, as_: ItemValue::LongReal(v) }
    } else if 0xcc <= c && c <= 0xcf {
        Item { type_: ITEM_POSITIVE_INTEGER, as_: ItemValue::U64(v) }
    } else if c <= 0xd3 {
        let x: i64 = if c == 0xd0 {
            if v < 0x80 {
                v as i64
            } else {
                (v as i64) - 0x100
            }
        } else if c == 0xd1 {
            if v < 0x8000 {
                v as i64
            } else {
                (v as i64) - 0x1_0000
            }
        } else if c == 0xd2 {
            if v < 0x8000_0000 {
                v as i64
            } else {
                (v as i64) - 0x1_0000_0000
            }
        } else {
            reinterpret_u64(v)
        };
        let t = if x >= 0 {
            ITEM_POSITIVE_INTEGER
        } else {
            ITEM_NEGATIVE_INTEGER
        };
        Item { type_: t, as_: ItemValue::I64(x) }
    } else if c == 0xdc || c == 0xdd {
        Item { type_: ITEM_ARRAY, as_: ItemValue::Array(Container { size: v as u32 }) }
    } else {
        Item { type_: ITEM_MAP, as_: ItemValue::Mapping(Container { size: v as u32 }) }
    }
}

fn make_blob_value(kind: i32, b: Blob) -> (r: ItemValue)
    ensures
        r == blob_value(kind, b),
{
    if kind == ITEM_STR {
        ItemValue::Str(b)
    } else if kind == ITEM_BIN {
        ItemValue::Bin(b)
    } else {
        ItemValue::Ext(b)
    }
}

impl UnpackContext {
    /// Whether `more` bytes can be read at the cursor.
    pub open spec fn room_for(self, more: int) -> bool {
        has_room(self.buffer@.len() as int, self.current as int, more)
    }

    /// Nothing observable changed.
    pub open spec fn unchanged(self, post: UnpackContext) -> bool {
        &&& post.item == self.item
        &&& post.buffer@ == self.buffer@
        &&& post.current == self.current
        &&& post.return_code == self.return_code
        &&& post.err_no == self.err_no
        &&& (post.underflow_handler is Some <==> self.underflow_handler is Some)
    }

    /// The context went from `self` to `post` exactly as `out` says.
    pub open spec fn applied(self, post: UnpackContext, out: Outcome) -> bool {
        &&& post.return_code == out.rc
        &&& post.current == out.pos
        &&& post.item.type_ == out.type_
        &&& post.item.as_ == (match out.value {
            Some(v) => v,
            None => self.item.as_,
        })
        &&& post.buffer@ == self.buffer@
        &&& post.err_no == self.err_no
    }

    /// One unpack step whose outcome on the buffer alone is `out`: exact
    /// unless the input ran out and an underflow handler was there to
    /// decide; in every case an item is left exactly when the return code is
    /// `RC_OK`.
    pub open spec fn stepped(self, post: UnpackContext, out: Outcome) -> bool {
        &&& (post.underflow_handler is Some <==> self.underflow_handler is Some)
        &&& (self.underflow_handler is None || !is_shortfall(out.rc)) ==> self.applied(post, out)
        &&& (post.return_code == RC_OK <==> post.item.type_ != ITEM_NOT_AN_ITEM)
    }

    /// A context on a copy of `buf`, cursor at 0, no item, no handler.
    pub fn new(buf: &[u8]) -> (r: UnpackContext)
        ensures
            r.buffer@ == buf@,
            r.current == 0,
            r.return_code == RC_OK,
            r.err_no == 0,
            r.item.type_ == ITEM_NOT_AN_ITEM,
            r.item.as_ == ItemValue::U64(0),
            r.underflow_handler is None,
    {
        UnpackContext {
            item: Item { type_: ITEM_NOT_AN_ITEM, as_: ItemValue::U64(0) },
            buffer: vstd::slice::slice_to_vec(buf),
            current: 0,
            return_code: RC_OK,
            err_no: 0,
            underflow_handler: None,
        }
    }

    /// A context on a copy of `buf` with an underflow handler.
    pub fn with_underflow_handler(buf: &[u8], handler: Box<dyn UnpackUnderflowHandler>) -> (r:
        UnpackContext)
        ensures
            r.buffer@ == buf@,
            r.current == 0,
            r.return_code == RC_OK,
            r.err_no == 0,
            r.item.type_ == ITEM_NOT_AN_ITEM,
            r.item.as_ == ItemValue::U64(0),
            r.underflow_handler is Some,
    {
        UnpackContext {
            item: Item { type_: ITEM_NOT_AN_ITEM, as_: ItemValue::U64(0) },
            buffer: vstd::slice::slice_to_vec(buf),
            current: 0,
            return_code: RC_OK,
            err_no: 0,
            underflow_handler: Some(handler),
        }
    }

    /// The number of bytes read so far.
    pub fn current_pos(&self) -> (r: usize)
        ensures
            r == self.current,
    {
        self.current
    }

    /// The bytes of a blob in the buffer (none if the blob is not inside it).
    pub fn blob_bytes(&self, b: &Blob) -> (r: &[u8])
        ensures
            b.start + b.length <= self.buffer@.len() ==> r@ == self.buffer@.subrange(
                b.start as int,
                b.start + b.length,
            ),
            b.start + b.length > self.buffer@.len() ==> r@.len() == 0,
    {
        let len = b.length as usize;
        if b.start <= self.buffer.len() && len <= self.buffer.len() - b.start {
            vstd::slice::slice_subrange(self.buffer.as_slice(), b.start, b.start + len)
        } else {
            vstd::slice::slice_subrange(self.buffer.as_slice(), 0, 0)
        }
    }

    /// What follows a call of the underflow handler that returned
    /// `handler_rc` when `more` bytes were needed: an error code is recorded
    /// (`RC_END_OF_INPUT` turned into the shortfall code of `mid_item`);
    /// `RC_OK` with the bytes now readable takes them and gives their start;
    /// `RC_OK` without them records the shortfall code. A failure leaves no
    /// item.
    pub fn resume_after_underflow_handler(
        &mut self,
        handler_rc: i32,
        more: usize,
        mid_item: bool,
    ) -> (r: Option<usize>)
        ensures
            final(self).buffer@ == old(self).buffer@,
            final(self).err_no == old(self).err_no,
            final(self).underflow_handler is Some <==> old(self).underflow_handler is Some,
            r is None ==> final(self).current == old(self).current && final(self).item.type_
                == ITEM_NOT_AN_ITEM && final(self).item.as_ == old(self).item.as_,
            handler_rc != RC_OK ==> r is None && final(self).return_code == (if handler_rc
                == RC_END_OF_INPUT {
                shortfall_code(mid_item)
            } else {
                handler_rc
            }),
            handler_rc == RC_OK && old(self).room_for(more as int) ==> r == Some(old(self).current)
                && final(self).current == old(self).current + more && final(self).return_code
                == old(self).return_code && final(self).item == old(self).item,
            handler_rc == RC_OK && !old(self).room_for(more as int) ==> r is None && final(self).return_code == shortfall_code(mid_item),
    {
        let err = if mid_item {
            RC_BUFFER_UNDERFLOW
        } else {
            RC_END_OF_INPUT
        };
        if handler_rc != RC_OK {
            self.item.type_ = ITEM_NOT_AN_ITEM;
            self.return_code = if handler_rc == RC_END_OF_INPUT {
                err
            } else {
                handler_rc
            };
            return None;
        }
        if self.current <= self.buffer.len() && more <= self.buffer.len() - self.current {
            let p = self.current;
            self.current = p + more;
            Some(p)
        } else {
            self.item.type_ = ITEM_NOT_AN_ITEM;
            self.return_code = err;
            None
        }
    }

    /// Takes `more` bytes at the cursor, calling the underflow handler when
    /// they are not there; gives the start of the bytes taken.
    fn take(&mut self, more: usize, mid_item: bool) -> (r: Option<usize>)
        ensures
            final(self).underflow_handler is Some <==> old(self).underflow_handler is Some,
            old(self).room_for(more as int) ==> {
                &&& r == Some(old(self).current)
                &&& final(self).current == old(self).current + more
                &&& final(self).buffer@ == old(self).buffer@
                &&& final(self).return_code == old(self).return_code
                &&& final(self).item == old(self).item
                &&& final(self).err_no == old(self).err_no
            },
            !old(self).room_for(more as int) && old(self).underflow_handler is None ==> {
                &&& r is None
                &&& final(self).current == old(self).current
                &&& final(self).buffer@ == old(self).buffer@
                &&& final(self).return_code == shortfall_code(mid_item)
                &&& final(self).item.type_ == ITEM_NOT_AN_ITEM
                &&& final(self).item.as_ == old(self).item.as_
                &&& final(self).err_no == old(self).err_no
            },
            r matches Some(p) ==> p + more == final(self).current <= final(self).buffer@.len()
                && final(self).return_code == old(self).return_code && final(self).item == old(self).item,
            r is None ==> final(self).return_code != RC_OK && final(self).item.type_
                == ITEM_NOT_AN_ITEM,
    {
        if self.current <= self.buffer.len() && more <= self.buffer.len() - self.current {
            let p = self.current;
            self.current = p + more;
            return Some(p);
        }
        let rc = match &mut self.underflow_handler {
            None => {
                self.item.type_ = ITEM_NOT_AN_ITEM;
                self.return_code = if mid_item {
                    RC_BUFFER_UNDERFLOW
                } else {
                    RC_END_OF_INPUT
                };
                return None;
            },
            Some(handler) => handler.handle_underflow(
                &mut self.buffer,
                &mut self.current,
                &mut self.err_no,
                more,
            ),
        };
        self.resume_after_underflow_handler(rc, more, mid_item)
    }

    /// A blob of `len` bytes at the cursor, as an item of type `type_`.
    fn unpack_blob(&mut self, len: usize, type_: i32, kind: i32)
        requires
            old(self).return_code == RC_OK,
            type_ != ITEM_NOT_AN_ITEM,
            len <= u32::MAX,
        ensures
            old(self).stepped(
                *final(self),
                decode_blob(old(self).buffer@, old(self).current as int, len as int, type_, kind),
            ),
    {
        let r = match self.take(len, true) {
            None => return ,
            Some(r) => r,
        };
        let b = Blob { start: r, length: len as u32 };
        self.item = Item { type_, as_: make_blob_value(kind, b) };
    }

    /// A str or bin whose length takes `w` bytes.
    fn unpack_sized_blob(&mut self, w: usize, kind: i32)
        requires
            old(self).return_code == RC_OK,
            w == 1 || w == 2 || w == 4,
            kind == ITEM_STR || kind == ITEM_BIN,
        ensures
            old(self).stepped(
                *final(self),
                decode_sized_blob(old(self).buffer@, old(self).current as int, w as int, kind),
            ),
    {
        let q = match self.take(w, true) {
            None => return ,
            Some(q) => q,
        };
        let len = load_uint(&self.buffer, q, w);
        self.unpack_blob(len as usize, kind, kind);
    }

    /// A fixed-width item under format byte `c`.
    fn unpack_fixed(&mut self, c: u8)
        requires
            old(self).return_code == RC_OK,
            is_fixed_format(c),
        ensures
            old(self).stepped(
                *final(self),
                decode_fixed(old(self).buffer@, old(self).current as int, c),
            ),
    {
        let w = width_of(c);
        let q = match self.take(w, true) {
            None => return ,
            Some(q) => q,
        };
        let v = load_uint(&self.buffer, q, w);
        self.item = make_fixed_item(c, v);
    }

    /// ext8 (`w == 1`), ext16 or ext32.
    fn unpack_ext(&mut self, w: usize)
        requires
            old(self).return_code == RC_OK,
            w == 1 || w == 2 || w == 4,
        ensures
            old(self).stepped(*final(self), decode_ext(old(self).buffer@, old(self).current as int, w as int)),
    {
        let q = match self.take(w, true) {
            None => return ,
            Some(q) => q,
        };
        let len = load_uint(&self.buffer, q, w);
        let r = match self.take(1, true) {
            None => return ,
            Some(r) => r,
        };
        let t = byte_value_i8(self.buffer[r]);
        if w == 1 && t == -1 {
            if len == 12 {
                let d = match self.take(4, true) {
                    None => return ,
                    Some(d) => d,
                };
                let nsec = load_be32(&self.buffer, d);
                let e = match self.take(8, true) {
                    None => return ,
                    Some(e) => e,
                };
                let sec = load_be64(&self.buffer, e);
                self.item = Item {
                    type_: ITEM_TIMESTAMP,
                    as_: ItemValue::Time(TimeSpec { tv_sec: reinterpret_u64(sec), tv_nsec: nsec }),
                };
            } else {
                self.item.type_ = ITEM_NOT_AN_ITEM;
                self.return_code = RC_WRONG_TIMESTAMP_LENGTH;
            }
        } else {
            self.unpack_blob(len as usize, t as i32, ITEM_EXT);
        }
    }

    /// fixext of `n` bytes.
    fn unpack_fixext(&mut self, n: usize)
        requires
            old(self).return_code == RC_OK,
            n == 1 || n == 2 || n == 4 || n == 8 || n == 16,
        ensures
            old(self).stepped(
                *final(self),
                decode_fixext(old(self).buffer@, old(self).current as int, n as int),
            ),
    {
        let q = match self.take(n + 1, true) {
            None => return ,
            Some(q) => q,
        };
        let t = byte_value_i8(self.buffer[q]);
        let d = q + 1;
        if t == -1 {
            if n == 4 {
                let sec = load_be32(&self.buffer, d);
                self.item = Item {
                    type_: ITEM_TIMESTAMP,
                    as_: ItemValue::Time(TimeSpec { tv_sec: sec as i64, tv_nsec: 0 }),
                };
            } else if n == 8 {
                let raw = load_be64(&self.buffer, d);
                self.item = Item {
                    type_: ITEM_TIMESTAMP,
                    as_: ItemValue::Time(
                        TimeSpec {
                            tv_sec: (raw % 0x4_0000_0000) as i64,
                            tv_nsec: (raw / 0x4_0000_0000) as u32,
                        },
                    ),
                };
            } else {
                self.item.type_ = ITEM_NOT_AN_ITEM;
                self.return_code = RC_WRONG_TIMESTAMP_LENGTH;
            }
        } else {
            self.item = Item {
                type_: t as i32,
                as_: ItemValue::Ext(Blob { start: d, length: n as u32 }),
            };
        }
    }

    /// Decodes the next item into `item`. A context in error is left as it
    /// is.
    pub fn unpack_next(&mut self)
        ensures
            old(self).return_code != RC_OK ==> old(self).unchanged(*final(self)),
            old(self).return_code == RC_OK ==> old(self).stepped(
                *final(self),
                decode_at(old(self).buffer@, old(self).current as int),
            ),
    {
        if self.return_code != RC_OK {
            return ;
        }
        let p = match self.take(1, false) {
            None => return ,
            Some(p) => p,
        };
        let c = self.buffer[p];
        let ghost mid = *self;
        if c <= 0x7f {
            self.item = Item { type_: ITEM_POSITIVE_INTEGER, as_: ItemValue::I64(c as i64) };
        } else if c <= 0x8f {
            self.item = Item {
                type_: ITEM_MAP,
                as_: ItemValue::Mapping(Container { size: (c - 0x80) as u32 }),
            };
        } else if c <= 0x9f {
            self.item = Item {
                type_: ITEM_ARRAY,
                as_: ItemValue::Array(Container { size: (c - 0x90) as u32 }),
            };
        } else if c <= 0xbf {
            self.unpack_blob((c - 0xa0) as usize, ITEM_STR, ITEM_STR);
        } else if c == 0xc0 {
            self.item.type_ = ITEM_NIL;
        } else if c == 0xc1 {
            self.item.type_ = ITEM_NOT_AN_ITEM;
            self.return_code = RC_MALFORMED_INPUT;
        } else if c == 0xc2 {
            self.item = Item { type_: ITEM_BOOLEAN, as_: ItemValue::Boolean(false) };
        } else if c == 0xc3 {
            self.item = Item { type_: ITEM_BOOLEAN, as_: ItemValue::Boolean(true) };
        } else if c == 0xc4 {
            self.unpack_sized_blob(1, ITEM_BIN);
        } else if c == 0xc5 {
            self.unpack_sized_blob(2, ITEM_BIN);
        } else if c == 0xc6 {
            self.unpack_sized_blob(4, ITEM_BIN);
        } else if c == 0xc7 {
            self.unpack_ext(1);
        } else if c == 0xc8 {
            self.unpack_ext(2);
        } else if c == 0xc9 {
            self.unpack_ext(4);
        } else if c <= 0xd3 {
            self.unpack_fixed(c);
        } else if c == 0xd4 {
            self.unpack_fixext(1);
        } else if c == 0xd5 {
            self.unpack_fixext(2);
        } else if c == 0xd6 {
            self.unpack_fixext(4);
        } else if c == 0xd7 {
            self.unpack_fixext(8);
        } else if c == 0xd8 {
            self.unpack_fixext(16);
        } else if c == 0xd9 {
            self.unpack_sized_blob(1, ITEM_STR);
        } else if c == 0xda {
            self.unpack_sized_blob(2, ITEM_STR);
        } else if c == 0xdb {
            self.unpack_sized_blob(4, ITEM_STR);
        } else if c <= 0xdf {
            self.unpack_fixed(c);
        } else {
            self.item = Item {
                type_: ITEM_NEGATIVE_INTEGER,
                as_: ItemValue::I64((c as i64) - 0x100),
            };
        }
        proof {
            reveal(decode_tag);
            assert(mid.stepped(*self, decode_tag(mid.buffer@, c, p + 1)));
        }
    }

    /// Takes `n` bytes inside an item (no more than the buffer could ever
    /// hold when `n` exceeds `usize`).
    fn skip_bytes(&mut self, n: u64) -> (r: Option<u64>)
        requires
            old(self).current >= 1,
        ensures
            final(self).underflow_handler is Some <==> old(self).underflow_handler is Some,
            old(self).room_for(n as int) ==> {
                &&& r == Some(0u64)
                &&& final(self).current == old(self).current + n
                &&& final(self).buffer@ == old(self).buffer@
                &&& final(self).return_code == old(self).return_code
                &&& final(self).item == old(self).item
                &&& final(self).err_no == old(self).err_no
            },
            !old(self).room_for(n as int) && old(self).underflow_handler is None ==> {
                &&& r is None
                &&& final(self).current == old(self).current
                &&& final(self).buffer@ == old(self).buffer@
                &&& final(self).return_code == RC_BUFFER_UNDERFLOW
                &&& final(self).item.type_ == ITEM_NOT_AN_ITEM
                &&& final(self).item.as_ == old(self).item.as_
                &&& final(self).err_no == old(self).err_no
            },
            r matches Some(a) ==> a == 0 && final(self).return_code == old(self).return_code
                && final(self).item == old(self).item,
            r is None ==> final(self).return_code != RC_OK && final(self).item.type_
                == ITEM_NOT_AN_ITEM,
    {
        let more: usize = if n <= usize::MAX as u64 {
            n as usize
        } else {
            usize::MAX
        };
        match self.take(more, true) {
            None => None,
            Some(_) => Some(0),
        }
    }

    /// Skips the item at the cursor; gives the number of items its header
    /// announces.
    fn skip_one(&mut self) -> (r: Option<u64>)
        requires
            old(self).return_code == RC_OK,
        ensures
            final(self).underflow_handler is Some <==> old(self).underflow_handler is Some,
            ({
                let st = skip_step(old(self).buffer@, old(self).current as int);
                (old(self).underflow_handler is None || !is_shortfall(st.rc)) ==> {
                    &&& final(self).buffer@ == old(self).buffer@
                    &&& final(self).current == st.pos
                    &&& final(self).err_no == old(self).err_no
                    &&& final(self).return_code == st.rc
                    &&& st.rc == RC_OK ==> r == Some(st.add as u64)
                    &&& st.rc != RC_OK ==> r is None && final(self).item.as_ == old(self).item.as_
                }
            }),
            r is Some ==> final(self).return_code == RC_OK && final(self).item == old(self).item,
            r matches Some(a) ==> a <= 2 * 0xffff_ffffu64,
            r is None ==> final(self).return_code != RC_OK && final(self).item.type_
                == ITEM_NOT_AN_ITEM,
    {
        proof {
            lemma_skip_step_advances(self.buffer@, self.current as int);
        }
        let p = match self.take(1, false) {
            None => return None,
            Some(p) => p,
        };
        let c = self.buffer[p];
        if c <= 0x7f || c >= 0xe0 || c == 0xc0 || c == 0xc2 || c == 0xc3 {
            Some(0)
        } else if c == 0xcc || c == 0xd0 {
            self.skip_bytes(1)
        } else if c == 0xcd || c == 0xd1 || c == 0xd4 {
            self.skip_bytes(2)
        } else if c == 0xd5 {
            self.skip_bytes(3)
        } else if c == 0xca || c == 0xce || c == 0xd2 {
            self.skip_bytes(4)
        } else if c == 0xd6 {
            self.skip_bytes(5)
        } else if c == 0xcb || c == 0xcf || c == 0xd3 {
            self.skip_bytes(8)
        } else if c == 0xd7 {
            self.skip_bytes(9)
        } else if c == 0xd8 {
            self.skip_bytes(17)
        } else if 0xa0 <= c && c <= 0xbf {
            self.skip_bytes((c - 0xa0) as u64)
        } else if c == 0xd9 || c == 0xc4 || c == 0xda || c == 0xc5 || c == 0xdb || c == 0xc6
            || c == 0xc7 || c == 0xc8 || c == 0xc9 {
            let w: usize = if c == 0xd9 || c == 0xc4 || c == 0xc7 {
                1
            } else if c == 0xda || c == 0xc5 || c == 0xc8 {
                2
            } else {
                4
            };
            let extra: u64 = if c == 0xc7 || c == 0xc8 || c == 0xc9 {
                1
            } else {
                0
            };
            let q = match self.take(w, true) {
                None => return None,
                Some(q) => q,
            };
            let len = load_uint(&self.buffer, q, w);
            self.skip_bytes(len + extra)
        } else if 0x80 <= c && c <= 0x8f {
            Some(2 * ((c - 0x80) as u64))
        } else if 0x90 <= c && c <= 0x9f {
            Some((c - 0x90) as u64)
        } else if c == 0xdc || c == 0xde || c == 0xdd || c == 0xdf {
            let w: usize = if c == 0xdc || c == 0xde {
                2
            } else {
                4
            };
            let q = match self.take(w, true) {
                None => return None,
                Some(q) => q,
            };
            let n = load_uint(&self.buffer, q, w);
            if c == 0xde || c == 0xdf {
                Some(2 * n)
            } else {
                Some(n)
            }
        } else {
            self.item.type_ = ITEM_NOT_AN_ITEM;
            self.return_code = RC_MALFORMED_INPUT;
            None
        }
    }

    /// Skips `item_count` items, the contents of arrays and maps included.
    /// A context in error is left as it is; a failure leaves no item.
    ///
    /// The count of items still to skip is held at `i64::MAX` at most, and
    /// the walk stops with `RC_STOPPED` after `u128::MAX` items, a number
    /// that only an underflow handler feeding endless input could reach.
    pub fn skip_items(&mut self, item_count: i64)
        ensures
            old(self).return_code != RC_OK ==> old(self).unchanged(*final(self)),
            old(self).return_code == RC_OK ==> {
                let run = skip_run(old(self).buffer@, old(self).current as int, item_count as int);
                &&& final(self).underflow_handler is Some <==> old(self).underflow_handler is Some
                &&& (old(self).underflow_handler is None || !is_shortfall(run.0)) ==> {
                    &&& final(self).return_code == run.0
                    &&& final(self).current == run.1
                    &&& final(self).buffer@ == old(self).buffer@
                    &&& final(self).err_no == old(self).err_no
                    &&& final(self).item.as_ == old(self).item.as_
                }
                &&& final(self).return_code == RC_OK ==> final(self).item == old(self).item
                &&& final(self).return_code != RC_OK ==> final(self).item.type_ == ITEM_NOT_AN_ITEM
            },
    {
        if self.return_code != RC_OK {
            return ;
        }
        let ghost pre = *self;
        let ghost run = skip_run(pre.buffer@, pre.current as int, item_count as int);
        let ghost exact = pre.underflow_handler is None || !is_shortfall(run.0);
        let mut count = item_count;
        let mut budget: u128 = u128::MAX;
        while count > 0 && budget > 0
            invariant
                pre == *old(self),
                pre.return_code == RC_OK,
                self.underflow_handler is Some <==> pre.underflow_handler is Some,
                exact == (pre.underflow_handler is None || !is_shortfall(run.0)),
                self.return_code == RC_OK ==> self.item == pre.item,
                self.return_code != RC_OK ==> self.item.type_ == ITEM_NOT_AN_ITEM && count == 0,
                exact ==> {
                    &&& self.buffer@ == pre.buffer@
                    &&& self.err_no == pre.err_no
                    &&& self.item.as_ == pre.item.as_
                    &&& self.return_code == RC_OK ==> {
                        &&& pre.current <= self.current
                        &&& self.current > pre.current ==> self.current <= self.buffer@.len()
                        &&& budget + (self.current - pre.current) >= u128::MAX
                        &&& skip_run(pre.buffer@, self.current as int, count as int) == run
                    }
                    &&& self.return_code != RC_OK ==> run == (self.return_code, self.current as int)
                },
            decreases budget,
        {
            budget = budget - 1;
            let ghost before = *self;
            let ghost c0 = count as int;
            proof {
                lemma_skip_step_advances(self.buffer@, self.current as int);
                if exact {
                    assert(skip_run(pre.buffer@, before.current as int, c0) == run);
                }
            }
            match self.skip_one() {
                None => {
                    proof {
                        if exact {
                            let st = skip_step(pre.buffer@, before.current as int);
                            assert(st.rc != RC_OK);
                            assert(run == (st.rc, st.pos));
                        }
                    }
                    count = 0;
                },
                Some(add) => {
                    let rest = count - 1;
                    count = if add > (i64::MAX - rest) as u64 {
                        i64::MAX
                    } else {
                        rest + add as i64
                    };
                    proof {
                        if exact {
                            let st = skip_step(pre.buffer@, before.current as int);
                            assert(st.rc == RC_OK);
                            assert(count == next_count(c0, st.add));
                        }
                    }
                },
            }
        }
        if self.return_code == RC_OK && count > 0 {
            assert(self.buffer@.len() == self.buffer.len());
            assert(!exact);
            self.item.type_ = ITEM_NOT_AN_ITEM;
            self.return_code = RC_STOPPED;
        }
    }

    /// The type of the next item, without consuming it; `ITEM_NOT_AN_ITEM`
    /// for a context in error, at the end of the input or before a malformed
    /// byte. Running out of input is recorded as for `unpack_next`. When it
    /// ends with `RC_OK`, the cursor is at the start of the item it looked at,
    /// in the buffer as the underflow handler may have refilled it, so that
    /// the next `unpack_next` decodes that item.
    pub fn look_ahead(&mut self) -> (r: i32)
        ensures
            old(self).return_code != RC_OK ==> r == ITEM_NOT_AN_ITEM && old(self).unchanged(
                *final(self),
            ),
            old(self).return_code == RC_OK ==> {
                let pk = peek_at(old(self).buffer@, old(self).current as int);
                &&& final(self).underflow_handler is Some <==> old(self).underflow_handler is Some
                &&& (old(self).underflow_handler is None || !is_shortfall(pk.0)) ==> {
                    &&& r == pk.1
                    &&& final(self).return_code == pk.0
                    &&& final(self).current == old(self).current
                    &&& final(self).buffer@ == old(self).buffer@
                    &&& final(self).err_no == old(self).err_no
                    &&& final(self).item.as_ == old(self).item.as_
                }
                &&& final(self).return_code == RC_OK ==> final(self).item == old(self).item
                &&& final(self).return_code == RC_OK ==> peek_at(
                    final(self).buffer@,
                    final(self).current as int,
                ) == (RC_OK, r)
                &&& final(self).return_code != RC_OK ==> final(self).item.type_ == ITEM_NOT_AN_ITEM
                    && r == ITEM_NOT_AN_ITEM
            },
    {
        if self.return_code != RC_OK {
            return ITEM_NOT_AN_ITEM;
        }
        let p = match self.take(1, false) {
            None => return ITEM_NOT_AN_ITEM,
            Some(p) => p,
        };
        self.current = p;
        let (rc, t) = peek_type(&self.buffer, p);
        if rc == RC_OK {
            return t;
        }
        // an ext format whose header runs past the input
        let n = ext_header_len(self.buffer[p]);
        match self.take(n, true) {
            None => ITEM_NOT_AN_ITEM,
            Some(q) => {
                self.current = q;
                let (rc2, t2) = peek_type(&self.buffer, q);
                if rc2 != RC_OK {
                    self.return_code = rc2;
                    self.item.type_ = ITEM_NOT_AN_ITEM;
                }
                t2
            },
        }
    }
}

/// The number of bytes up to and including the type byte of an ext format.
fn ext_header_len(c: u8) -> (n: usize)
    ensures
        1 <= n <= 6,
        c == 0xc7 ==> n == 3,
        c == 0xc8 ==> n == 4,
        c == 0xc9 ==> n == 6,
        0xd4 <= c <= 0xd8 ==> n == 2,
{
    if c == 0xc7 {
        3
    } else if c == 0xc8 {
        4
    } else if c == 0xc9 {
        6
    } else {
        2
    }
}

/// The type announced by the byte at `p`, as `peek_at` says.
fn peek_type(buf: &Vec<u8>, p: usize) -> (r: (i32, i32))
    requires
        p < buf@.len(),
    ensures
        r == peek_at(buf@, p as int),
        r.0 != RC_OK ==> r.0 == RC_BUFFER_UNDERFLOW && r.1 == ITEM_NOT_AN_ITEM && (buf@[p as int]
            == 0xc7 || buf@[p as int] == 0xc8 || buf@[p as int] == 0xc9 || (0xd4 <= buf@[p as int]
            <= 0xd8)),
{
    let c = buf[p];
    if c <= 0x7f {
        (RC_OK, ITEM_POSITIVE_INTEGER)
    } else if c <= 0x8f {
        (RC_OK, ITEM_MAP)
    } else if c <= 0x9f {
        (RC_OK, ITEM_ARRAY)
    } else if c <= 0xbf {
        (RC_OK, ITEM_STR)
    } else if c == 0xc0 {
        (RC_OK, ITEM_NIL)
    } else if c == 0xc1 {
        (RC_OK, ITEM_NOT_AN_ITEM)
    } else if c <= 0xc3 {
        (RC_OK, ITEM_BOOLEAN)
    } else if c <= 0xc6 {
        (RC_OK, ITEM_BIN)
    } else if c == 0xca {
        (RC_OK, ITEM_FLOAT)
    } else if c == 0xcb {
        (RC_OK, ITEM_DOUBLE)
    } else if 0xcc <= c && c <= 0xcf {
        (RC_OK, ITEM_POSITIVE_INTEGER)
    } else if 0xd0 <= c && c <= 0xd3 {
        (RC_OK, ITEM_NEGATIVE_INTEGER)
    } else if 0xd9 <= c && c <= 0xdb {
        (RC_OK, ITEM_STR)
    } else if c == 0xdc || c == 0xdd {
        (RC_OK, ITEM_ARRAY)
    } else if c == 0xde || c == 0xdf {
        (RC_OK, ITEM_MAP)
    } else if c >= 0xe0 {
        (RC_OK, ITEM_NEGATIVE_INTEGER)
    } else {
        // the ext formats: the type byte is the last of the first n bytes
        let n = ext_header_len(c);
        if n > buf.len() - p {
            (RC_BUFFER_UNDERFLOW, ITEM_NOT_AN_ITEM)
        } else {
            (RC_OK, byte_value_i8(buf[p + n - 1]) as i32)
        }
    }
}

} // verus!
