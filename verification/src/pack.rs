//! The packer: a context that encodes values into a byte buffer, with a
//! sticky return code, an optional overflow handler and an optional flush
//! handler.
use crate::bytes::{lemma_splice_concat, put_byte, put_bytes, splice};
use crate::format::{
    bin_head, bin_head_len, container_len, enc_array_size, enc_bin, enc_boolean, enc_double_bits,
    enc_ext, enc_float_bits, enc_map_size, enc_nil, enc_signed, enc_str, enc_time, enc_unsigned,
    ext_head, ext_head_len, max_payload, put_array_size, put_bin_head, put_double_bits,
    put_ext_head, put_float_bits, put_map_size, put_signed, put_str_head, put_time, put_unsigned,
    signed_len, str_head, str_head_len, time_len, unsigned_len,
};
use crate::types::{RC_BUFFER_OVERFLOW, RC_ILLEGAL_CALL, RC_OK, RC_VALUE_ERROR};
use vstd::prelude::*;

verus! {

/// What the user supplies to make room when an encoding does not fit.
///
/// It is called with the context's buffer, cursor and `err_no`, and with
/// the number of bytes that must fit at the cursor. It may grow or replace
/// the buffer and move the cursor (for example after handing the bytes
/// written so far to a sink). It returns `RC_OK` when it made room, or an
/// error code, which becomes the context's return code.
pub trait PackOverflowHandler {
    fn handle_overflow(
        &mut self,
        buffer: &mut Vec<u8>,
        current: &mut usize,
        err_no: &mut i32,
        more: usize,
    ) -> i32;
}

/// What the user supplies to `pack_flush`: it gets the buffer, cursor and
/// `err_no`, and its result becomes the context's return code.
pub trait PackFlushHandler {
    fn handle_flush(&mut self, buffer: &mut Vec<u8>, current: &mut usize, err_no: &mut i32) -> i32;
}

/// A packing context. The encodings go into `buffer` from index 0; the
/// bytes before `current` are the ones written so far.
pub struct PackContext {
    pub buffer: Vec<u8>,
    pub current: usize,
    pub be_compatible: bool,
    pub return_code: i32,
    pub err_no: i32,
    pub overflow_handler: Option<Box<dyn PackOverflowHandler>>,
    pub flush_handler: Option<Box<dyn PackFlushHandler>>,
}

/// Whether `more` bytes fit at `current` in a buffer of `len` bytes.
pub open spec fn has_room(len: int, current: int, more: int) -> bool {
    current <= len && more <= len - current
}

impl PackContext {
    /// Whether `more` bytes fit at the cursor.
    pub open spec fn room_for(self, more: int) -> bool {
        has_room(self.buffer@.len() as int, self.current as int, more)
    }

    /// The mode and the presence of each handler are the same in both.
    pub open spec fn same_settings(self, other: PackContext) -> bool {
        &&& self.be_compatible == other.be_compatible
        &&& (self.overflow_handler is Some <==> other.overflow_handler is Some)
        &&& (self.flush_handler is Some <==> other.flush_handler is Some)
    }

    /// Nothing observable changed.
    pub open spec fn unchanged(self, post: PackContext) -> bool {
        &&& self.same_settings(post)
        &&& post.buffer@ == self.buffer@
        &&& post.current == self.current
        &&& post.return_code == self.return_code
        &&& post.err_no == self.err_no
    }

    /// Only the return code changed, to `rc`.
    pub open spec fn failed_with(self, post: PackContext, rc: i32) -> bool {
        &&& self.same_settings(post)
        &&& post.buffer@ == self.buffer@
        &&& post.current == self.current
        &&& post.return_code == rc
        &&& post.err_no == self.err_no
    }

    /// `enc` was written at the cursor if it fit; otherwise, without an
    /// overflow handler, `RC_BUFFER_OVERFLOW` was recorded and nothing else
    /// changed; with one, the handler decided: either `enc` lies right before
    /// the new cursor and the return code is as before, or an error code was
    /// recorded.
    pub open spec fn wrote(self, post: PackContext, enc: Seq<u8>) -> bool {
        &&& self.same_settings(post)
        &&& if self.room_for(enc.len() as int) {
            &&& post.buffer@ == splice(self.buffer@, self.current as int, enc)
            &&& post.current == self.current + enc.len()
            &&& post.return_code == self.return_code
            &&& post.err_no == self.err_no
        } else if self.overflow_handler is None {
            &&& post.buffer@ == self.buffer@
            &&& post.current == self.current
            &&& post.return_code == RC_BUFFER_OVERFLOW
            &&& post.err_no == self.err_no
        } else {
            ||| {
                &&& enc.len() <= post.current <= post.buffer@.len()
                &&& post.buffer@.subrange(post.current - enc.len(), post.current as int) == enc
                &&& post.return_code == self.return_code
            }
            ||| post.return_code != RC_OK
        }
    }

    /// The sticky pack step: a context in error is left as it is; otherwise
    /// `enc` is written as `wrote` says.
    pub open spec fn packed(self, post: PackContext, enc: Seq<u8>) -> bool {
        if self.return_code != RC_OK {
            self.unchanged(post)
        } else {
            self.wrote(post, enc)
        }
    }

    /// A payload too long for its length to be recorded was refused as one
    /// that does not fit: without an overflow handler `RC_BUFFER_OVERFLOW`
    /// is recorded and nothing else changes; with one, an error code is
    /// recorded after the handler ran.
    pub open spec fn refused(self, post: PackContext) -> bool {
        &&& self.same_settings(post)
        &&& if self.overflow_handler is None {
            self.failed_with(post, RC_BUFFER_OVERFLOW)
        } else {
            post.return_code != RC_OK
        }
    }

    /// The sticky pack step for an item carrying a payload of `len` bytes
    /// encoded as `enc`: a context in error is left as it is; a payload of
    /// more than `max_payload()` bytes is refused; otherwise `enc` is
    /// written as `wrote` says.
    pub open spec fn packed_payload(self, post: PackContext, enc: Seq<u8>, len: nat) -> bool {
        if self.return_code != RC_OK {
            self.unchanged(post)
        } else if len > max_payload() {
            self.refused(post)
        } else {
            self.wrote(post, enc)
        }
    }

    /// The two contexts hold the same bytes, cursor, codes and settings.
    pub open spec fn same_outcome(self, other: PackContext) -> bool {
        &&& self.same_settings(other)
        &&& self.buffer@ == other.buffer@
        &&& self.current == other.current
        &&& self.return_code == other.return_code
        &&& self.err_no == other.err_no
    }

    /// Whether writing `enc` is settled by the context alone: there is no
    /// overflow handler, or `enc` fits, so that the handler is not called.
    pub open spec fn decides_alone(self, enc: Seq<u8>) -> bool {
        self.overflow_handler is None || self.room_for(enc.len() as int)
    }

    /// What `reserve(more)` gives: the start `r` of `more` bytes at the
    /// cursor, or the error it recorded.
    pub open spec fn reserved(self, post: PackContext, more: int, r: Option<usize>) -> bool {
        &&& self.same_settings(post)
        &&& self.room_for(more) ==> {
            &&& r == Some(self.current)
            &&& post.current == self.current + more
            &&& post.buffer@ == self.buffer@
            &&& post.return_code == self.return_code
            &&& post.err_no == self.err_no
        }
        &&& !self.room_for(more) && self.overflow_handler is None ==> {
            &&& r is None
            &&& post.current == self.current
            &&& post.buffer@ == self.buffer@
            &&& post.return_code == RC_BUFFER_OVERFLOW
            &&& post.err_no == self.err_no
        }
        &&& !self.room_for(more) && self.overflow_handler is Some ==> {
            &&& r matches Some(p) ==> p + more == post.current <= post.buffer@.len()
                && post.return_code == self.return_code
            &&& r is None ==> post.return_code != RC_OK
        }
    }

    /// A context on `buf`, cursor at 0, no handlers, compatibility mode off.
    pub fn new(buf: Vec<u8>) -> (r: PackContext)
        ensures
            r.buffer@ == buf@,
            r.current == 0,
            !r.be_compatible,
            r.return_code == RC_OK,
            r.err_no == 0,
            r.overflow_handler is None,
            r.flush_handler is None,
    {
        PackContext {
            buffer: buf,
            current: 0,
            be_compatible: false,
            return_code: RC_OK,
            err_no: 0,
            overflow_handler: None,
            flush_handler: None,
        }
    }

    /// A context on `buf` with an overflow handler.
    pub fn with_overflow_handler(buf: Vec<u8>, handler: Box<dyn PackOverflowHandler>) -> (r:
        PackContext)
        ensures
            r.buffer@ == buf@,
            r.current == 0,
            !r.be_compatible,
            r.return_code == RC_OK,
            r.err_no == 0,
            r.overflow_handler is Some,
            r.flush_handler is None,
    {
        PackContext {
            buffer: buf,
            current: 0,
            be_compatible: false,
            return_code: RC_OK,
            err_no: 0,
            overflow_handler: Some(handler),
            flush_handler: None,
        }
    }

    /// Turns the compatibility mode on or off; allowed in any state.
    pub fn set_compatibility(&mut self, be_compatible: bool)
        ensures
            final(self).be_compatible == be_compatible,
            final(self).buffer@ == old(self).buffer@,
            final(self).current == old(self).current,
            final(self).return_code == old(self).return_code,
            final(self).err_no == old(self).err_no,
            final(self).overflow_handler == old(self).overflow_handler,
            final(self).flush_handler == old(self).flush_handler,
    {
        self.be_compatible = be_compatible;
    }

    /// Installs a flush handler; allowed in any state.
    pub fn set_flush_handler(&mut self, handler: Box<dyn PackFlushHandler>)
        ensures
            final(self).flush_handler is Some,
            final(self).be_compatible == old(self).be_compatible,
            final(self).buffer@ == old(self).buffer@,
            final(self).current == old(self).current,
            final(self).return_code == old(self).return_code,
            final(self).err_no == old(self).err_no,
            final(self).overflow_handler == old(self).overflow_handler,
    {
        self.flush_handler = Some(handler);
    }

    /// The number of bytes written so far.
    pub fn written(&self) -> (r: usize)
        ensures
            r == self.current,
    {
        self.current
    }

    /// The bytes written so far (all of the buffer, should a handler have
    /// left the cursor past its end).
    pub fn written_bytes(&self) -> (r: &[u8])
        ensures
            self.current <= self.buffer@.len() ==> r@ == self.buffer@.subrange(
                0,
                self.current as int,
            ),
            self.current > self.buffer@.len() ==> r@ == self.buffer@,
    {
        let end = if self.current <= self.buffer.len() {
            self.current
        } else {
            self.buffer.len()
        };
        vstd::slice::slice_subrange(self.buffer.as_slice(), 0, end)
    }

    /// What follows a call of the overflow handler that returned
    /// `handler_rc` when `more` bytes were needed: an error code is recorded
    /// as the return code; `RC_OK` with room now at the cursor reserves the
    /// bytes and gives their start; `RC_OK` without room records
    /// `RC_BUFFER_OVERFLOW`.
    pub fn resume_after_overflow_handler(&mut self, handler_rc: i32, more: usize) -> (r: Option<
        usize,
    >)
        ensures
            old(self).same_settings(*final(self)),
            final(self).buffer@ == old(self).buffer@,
            final(self).err_no == old(self).err_no,
            handler_rc != RC_OK ==> r is None && final(self).current == old(self).current
                && final(self).return_code == handler_rc,
            handler_rc == RC_OK && old(self).room_for(more as int) ==> r == Some(old(self).current)
                && final(self).current == old(self).current + more && final(self).return_code
                == old(self).return_code,
            handler_rc == RC_OK && !old(self).room_for(more as int) ==> r is None
                && final(self).current == old(self).current && final(self).return_code
                == RC_BUFFER_OVERFLOW,
    {
        if handler_rc != RC_OK {
            self.return_code = handler_rc;
            return None;
        }
        if self.current <= self.buffer.len() && more <= self.buffer.len() - self.current {
            let p = self.current;
            self.current = p + more;
            Some(p)
        } else {
            self.return_code = RC_BUFFER_OVERFLOW;
            None
        }
    }

    /// Reserves `more` bytes at the cursor, calling the overflow handler when
    /// they do not fit; gives the start of the reserved bytes.
    fn reserve(&mut self, more: usize) -> (r: Option<usize>)
        ensures
            old(self).reserved(*final(self), more as int, r),
    {
        if self.current <= self.buffer.len() && more <= self.buffer.len() - self.current {
            let p = self.current;
            self.current = p + more;
            return Some(p);
        }
        let rc = match &mut self.overflow_handler {
            None => {
                self.return_code = RC_BUFFER_OVERFLOW;
                return None;
            },
            Some(handler) => handler.handle_overflow(
                &mut self.buffer,
                &mut self.current,
                &mut self.err_no,
                more,
            ),
        };
        self.resume_after_overflow_handler(rc, more)
    }

    /// Records that `more` bytes (more than any buffer holds, or a payload
    /// too long to record) do not fit, after giving the overflow handler its
    /// say.
    fn refuse(&mut self, more: usize)
        ensures
            old(self).refused(*final(self)),
    {
        let rc = match &mut self.overflow_handler {
            None => {
                self.return_code = RC_BUFFER_OVERFLOW;
                return ;
            },
            Some(handler) => handler.handle_overflow(
                &mut self.buffer,
                &mut self.current,
                &mut self.err_no,
                more,
            ),
        };
        self.return_code = if rc != RC_OK {
            rc
        } else {
            RC_BUFFER_OVERFLOW
        };
    }

    /// Packs nil.
    pub fn pack_nil(&mut self)
        ensures
            old(self).packed(*final(self), enc_nil()),
    {
        if self.return_code != RC_OK {
            return ;
        }
        self.pack_one_byte(0xc0);
    }

    /// Packs true.
    pub fn pack_true(&mut self)
        ensures
            old(self).packed(*final(self), enc_boolean(true)),
    {
        if self.return_code != RC_OK {
            return ;
        }
        self.pack_one_byte(0xc3);
    }

    /// Packs false.
    pub fn pack_false(&mut self)
        ensures
            old(self).packed(*final(self), enc_boolean(false)),
    {
        if self.return_code != RC_OK {
            return ;
        }
        self.pack_one_byte(0xc2);
    }

    /// Packs a boolean.
    pub fn pack_boolean(&mut self, b: bool)
        ensures
            old(self).packed(*final(self), enc_boolean(b)),
    {
        if self.return_code != RC_OK {
            return ;
        }
        self.pack_one_byte(
            if b {
                0xc3
            } else {
                0xc2
            },
        );
    }

    fn pack_one_byte(&mut self, b: u8)
        ensures
            old(self).wrote(*final(self), seq![b]),
    {
        let ghost pre = *self;
        let r = self.reserve(1);
        let ghost mid = *self;
        if let Some(p) = r {
            put_byte(&mut self.buffer, p, b);
        }
        proof {
            lemma_wrote_after_reserve(pre, mid, *self, seq![b], r);
        }
    }

    /// Packs an unsigned integer in its shortest form.
    pub fn pack_unsigned(&mut self, i: u64)
        ensures
            old(self).packed(*final(self), enc_unsigned(i)),
    {
        if self.return_code != RC_OK {
            return ;
        }
        let ghost pre = *self;
        let r = self.reserve(unsigned_len(i));
        let ghost mid = *self;
        if let Some(p) = r {
            put_unsigned(&mut self.buffer, p, i);
        }
        proof {
            lemma_wrote_after_reserve(pre, mid, *self, enc_unsigned(i), r);
        }
    }

    /// Packs a signed integer: above 127 as unsigned, otherwise in the
    /// shortest signed form.
    pub fn pack_signed(&mut self, i: i64)
        ensures
            old(self).packed(*final(self), enc_signed(i)),
    {
        if self.return_code != RC_OK {
            return ;
        }
        let ghost pre = *self;
        let r = self.reserve(signed_len(i));
        let ghost mid = *self;
        if let Some(p) = r {
            put_signed(&mut self.buffer, p, i);
        }
        proof {
            lemma_wrote_after_reserve(pre, mid, *self, enc_signed(i), r);
        }
    }

    /// Packs a single-precision float given by its bit pattern.
    pub fn pack_float_bits(&mut self, bits: u32)
        ensures
            old(self).packed(*final(self), enc_float_bits(bits)),
    {
        if self.return_code != RC_OK {
            return ;
        }
        let ghost pre = *self;
        let r = self.reserve(5);
        let ghost mid = *self;
        if let Some(p) = r {
            put_float_bits(&mut self.buffer, p, bits);
        }
        proof {
            lemma_wrote_after_reserve(pre, mid, *self, enc_float_bits(bits), r);
        }
    }

    /// Packs a double-precision float given by its bit pattern.
    pub fn pack_double_bits(&mut self, bits: u64)
        ensures
            old(self).packed(*final(self), enc_double_bits(bits)),
    {
        if self.return_code != RC_OK {
            return ;
        }
        let ghost pre = *self;
        let r = self.reserve(9);
        let ghost mid = *self;
        if let Some(p) = r {
            put_double_bits(&mut self.buffer, p, bits);
        }
        proof {
            lemma_wrote_after_reserve(pre, mid, *self, enc_double_bits(bits), r);
        }
    }

    /// Packs an array header for `n` elements.
    pub fn pack_array_size(&mut self, n: u32)
        ensures
            old(self).packed(*final(self), enc_array_size(n)),
    {
        if self.return_code != RC_OK {
            return ;
        }
        let ghost pre = *self;
        let r = self.reserve(container_len(n));
        let ghost mid = *self;
        if let Some(p) = r {
            put_array_size(&mut self.buffer, p, n);
        }
        proof {
            lemma_wrote_after_reserve(pre, mid, *self, enc_array_size(n), r);
        }
    }

    /// Packs a map header for `n` key/value pairs.
    pub fn pack_map_size(&mut self, n: u32)
        ensures
            old(self).packed(*final(self), enc_map_size(n)),
    {
        if self.return_code != RC_OK {
            return ;
        }
        let ghost pre = *self;
        let r = self.reserve(container_len(n));
        let ghost mid = *self;
        if let Some(p) = r {
            put_map_size(&mut self.buffer, p, n);
        }
        proof {
            lemma_wrote_after_reserve(pre, mid, *self, enc_map_size(n), r);
        }
    }

    /// Packs `data` as a string (its bytes are not checked to be UTF-8); a
    /// payload of more than `u32::MAX` bytes does not fit.
    pub fn pack_str(&mut self, data: &[u8])
        ensures
            old(self).packed_payload(
                *final(self),
                enc_str(data@, old(self).be_compatible),
                data@.len(),
            ),
    {
        if self.return_code != RC_OK {
            return ;
        }
        let len = data.len();
        if len > 0xffff_ffff {
            self.refuse(oversized_request(len, 5));
            return ;
        }
        let l = len as u32;
        let hl = str_head_len(l, self.be_compatible);
        if len > usize::MAX - hl {
            self.refuse(usize::MAX);
            proof {
                assert(old(self).buffer@.len() == old(self).buffer.len());
            }
            return ;
        }
        let ghost pre = *self;
        let r = self.reserve(hl + len);
        let ghost mid = *self;
        if let Some(p) = r {
            put_str_head(&mut self.buffer, p, l, self.be_compatible);
            put_bytes(&mut self.buffer, p + hl, data);
            proof {
                lemma_splice_concat(mid.buffer@, p as int, str_head(l as nat, pre.be_compatible), data@);
            }
        }
        proof {
            lemma_wrote_after_reserve(pre, mid, *self, enc_str(data@, pre.be_compatible), r);
        }
    }

    /// Packs `data` as binary; in compatibility mode as a string. A payload
    /// of more than `u32::MAX` bytes does not fit.
    pub fn pack_bin(&mut self, data: &[u8])
        ensures
            old(self).be_compatible ==> old(self).packed_payload(
                *final(self),
                enc_str(data@, true),
                data@.len(),
            ),
            !old(self).be_compatible ==> old(self).packed_payload(
                *final(self),
                enc_bin(data@),
                data@.len(),
            ),
    {
        if self.return_code != RC_OK {
            return ;
        }
        if self.be_compatible {
            self.pack_str(data);
            return ;
        }
        let len = data.len();
        if len > 0xffff_ffff {
            self.refuse(oversized_request(len, 5));
            return ;
        }
        let l = len as u32;
        let hl = bin_head_len(l);
        if len > usize::MAX - hl {
            self.refuse(usize::MAX);
            proof {
                assert(old(self).buffer@.len() == old(self).buffer.len());
            }
            return ;
        }
        let ghost pre = *self;
        let r = self.reserve(hl + len);
        let ghost mid = *self;
        if let Some(p) = r {
            put_bin_head(&mut self.buffer, p, l);
            put_bytes(&mut self.buffer, p + hl, data);
            proof {
                lemma_splice_concat(mid.buffer@, p as int, bin_head(l as nat), data@);
            }
        }
        proof {
            lemma_wrote_after_reserve(pre, mid, *self, enc_bin(data@), r);
        }
    }

    /// Packs `data` as an extension of type `ext_type`; refused with
    /// `RC_ILLEGAL_CALL` in compatibility mode. A payload of more than
    /// `u32::MAX` bytes does not fit.
    pub fn pack_ext(&mut self, ext_type: i8, data: &[u8])
        ensures
            old(self).return_code == RC_OK && old(self).be_compatible ==> old(self).failed_with(
                *final(self),
                RC_ILLEGAL_CALL,
            ),
            !(old(self).return_code == RC_OK && old(self).be_compatible) ==> old(
                self,
            ).packed_payload(*final(self), enc_ext(ext_type, data@), data@.len()),
    {
        if self.return_code != RC_OK {
            return ;
        }
        if self.be_compatible {
            self.return_code = RC_ILLEGAL_CALL;
            return ;
        }
        let len = data.len();
        if len > 0xffff_ffff {
            self.refuse(oversized_request(len, 6));
            return ;
        }
        let l = len as u32;
        let hl = ext_head_len(ext_type, l);
        if len > usize::MAX - hl {
            self.refuse(usize::MAX);
            proof {
                assert(old(self).buffer@.len() == old(self).buffer.len());
            }
            return ;
        }
        let ghost pre = *self;
        let r = self.reserve(hl + len);
        let ghost mid = *self;
        if let Some(p) = r {
            put_ext_head(&mut self.buffer, p, ext_type, l);
            put_bytes(&mut self.buffer, p + hl, data);
            proof {
                lemma_splice_concat(mid.buffer@, p as int, ext_head(ext_type, l as nat), data@);
            }
        }
        proof {
            lemma_wrote_after_reserve(pre, mid, *self, enc_ext(ext_type, data@), r);
        }
    }

    /// Packs a timestamp; refused with `RC_ILLEGAL_CALL` in compatibility
    /// mode and with `RC_VALUE_ERROR` when `nsec` is 10^9 or more.
    pub fn pack_time(&mut self, sec: i64, nsec: u32)
        ensures
            old(self).return_code != RC_OK ==> old(self).unchanged(*final(self)),
            old(self).return_code == RC_OK && old(self).be_compatible ==> old(self).failed_with(
                *final(self),
                RC_ILLEGAL_CALL,
            ),
            old(self).return_code == RC_OK && !old(self).be_compatible && nsec >= 1_000_000_000
                ==> old(self).failed_with(*final(self), RC_VALUE_ERROR),
            old(self).return_code == RC_OK && !old(self).be_compatible && nsec < 1_000_000_000
                ==> old(self).wrote(*final(self), enc_time(sec, nsec)),
    {
        if self.return_code != RC_OK {
            return ;
        }
        if self.be_compatible {
            self.return_code = RC_ILLEGAL_CALL;
            return ;
        }
        if nsec >= 1_000_000_000 {
            self.return_code = RC_VALUE_ERROR;
            return ;
        }
        let ghost pre = *self;
        let r = self.reserve(time_len(sec, nsec));
        let ghost mid = *self;
        if let Some(p) = r {
            put_time(&mut self.buffer, p, sec, nsec);
        }
        proof {
            lemma_wrote_after_reserve(pre, mid, *self, enc_time(sec, nsec), r);
        }
    }

    /// Writes the pre-encoded `data` at the cursor. Unlike every other pack
    /// operation it does not look at the return code first.
    pub fn pack_insert(&mut self, data: &[u8])
        ensures
            old(self).wrote(*final(self), data@),
    {
        let ghost pre = *self;
        let r = self.reserve(data.len());
        let ghost mid = *self;
        if let Some(p) = r {
            put_bytes(&mut self.buffer, p, data);
        }
        proof {
            lemma_wrote_after_reserve(pre, mid, *self, data@, r);
        }
    }

    /// Calls the flush handler and records its result as the return code,
    /// which it also gives back, so that the code recorded is the one the
    /// handler returned; without a flush handler records `RC_ILLEGAL_CALL`.
    /// A context in error is left as it is (its code is given back).
    pub fn pack_flush(&mut self) -> (r: i32)
        ensures
            r == final(self).return_code,
            old(self).return_code != RC_OK ==> old(self).unchanged(*final(self)),
            old(self).return_code == RC_OK && old(self).flush_handler is None
                ==> old(self).failed_with(*final(self), RC_ILLEGAL_CALL),
            old(self).same_settings(*final(self)),
    {
        if self.return_code != RC_OK {
            return self.return_code;
        }
        let rc = match &mut self.flush_handler {
            None => {
                self.return_code = RC_ILLEGAL_CALL;
                return RC_ILLEGAL_CALL;
            },
            Some(handler) => handler.handle_flush(
                &mut self.buffer,
                &mut self.current,
                &mut self.err_no,
            ),
        };
        self.resume_after_flush_handler(rc);
        rc
    }

    /// What follows a call of the flush handler that returned `handler_rc`:
    /// it becomes the return code.
    pub fn resume_after_flush_handler(&mut self, handler_rc: i32)
        ensures
            old(self).failed_with(*final(self), handler_rc),
    {
        self.return_code = handler_rc;
    }
}

/// The byte count handed to the overflow handler for a payload of `len`
/// bytes under a header of `head` bytes, held at `usize::MAX`.
fn oversized_request(len: usize, head: usize) -> (r: usize)
    ensures
        r == (if len <= usize::MAX - head {
            len + head
        } else {
            usize::MAX as int
        }),
{
    if len <= usize::MAX - head {
        len + head
    } else {
        usize::MAX
    }
}

/// `reserve` followed, when it gave a start, by writing `enc` there is a
/// write of `enc` as `wrote` says.
proof fn lemma_wrote_after_reserve(
    pre: PackContext,
    mid: PackContext,
    post: PackContext,
    enc: Seq<u8>,
    r: Option<usize>,
)
    requires
        pre.reserved(mid, enc.len() as int, r),
        r is None ==> mid.unchanged(post),
        r matches Some(p) ==> {
            &&& mid.same_settings(post)
            &&& post.buffer@ == splice(mid.buffer@, p as int, enc)
            &&& post.current == mid.current
            &&& post.return_code == mid.return_code
            &&& post.err_no == mid.err_no
        },
    ensures
        pre.wrote(post, enc),
{
    if let Some(p) = r {
        assert(post.buffer@.subrange(p as int, p + enc.len()) =~= enc);
    }
}

} // verus!
