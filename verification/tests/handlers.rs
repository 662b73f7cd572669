use cwpack_rs::pack::{PackContext, PackFlushHandler, PackOverflowHandler};
use cwpack_rs::types::{
    ITEM_NOT_AN_ITEM, ITEM_POSITIVE_INTEGER, ITEM_STR, RC_BUFFER_OVERFLOW, RC_BUFFER_UNDERFLOW,
    RC_END_OF_INPUT, RC_ERROR_IN_HANDLER, RC_ILLEGAL_CALL, RC_OK, RC_STOPPED,
};
use cwpack_rs::unpack::{UnpackContext, UnpackUnderflowHandler};

/// Grows the buffer to hold what is needed.
struct Grow;

impl PackOverflowHandler for Grow {
    fn handle_overflow(
        &mut self,
        buffer: &mut Vec<u8>,
        current: &mut usize,
        _err_no: &mut i32,
        more: usize,
    ) -> i32 {
        buffer.resize(*current + more, 0);
        RC_OK
    }
}

/// Refuses, recording an errno.
struct Refuse;

impl PackOverflowHandler for Refuse {
    fn handle_overflow(
        &mut self,
        _buffer: &mut Vec<u8>,
        _current: &mut usize,
        err_no: &mut i32,
        _more: usize,
    ) -> i32 {
        *err_no = 28;
        RC_ERROR_IN_HANDLER
    }
}

/// Claims success without making room.
struct Liar;

impl PackOverflowHandler for Liar {
    fn handle_overflow(
        &mut self,
        _buffer: &mut Vec<u8>,
        _current: &mut usize,
        _err_no: &mut i32,
        _more: usize,
    ) -> i32 {
        RC_OK
    }
}

/// Moves the bytes written so far to a sink and restarts the buffer.
struct Drain {
    sink: std::rc::Rc<std::cell::RefCell<Vec<u8>>>,
}

impl PackOverflowHandler for Drain {
    fn handle_overflow(
        &mut self,
        buffer: &mut Vec<u8>,
        current: &mut usize,
        _err_no: &mut i32,
        more: usize,
    ) -> i32 {
        self.sink.borrow_mut().extend_from_slice(&buffer[..*current]);
        *current = 0;
        if buffer.len() < more {
            buffer.resize(more, 0);
        }
        RC_OK
    }
}

impl PackFlushHandler for Drain {
    fn handle_flush(&mut self, buffer: &mut Vec<u8>, current: &mut usize, _err_no: &mut i32) -> i32 {
        self.sink.borrow_mut().extend_from_slice(&buffer[..*current]);
        *current = 0;
        RC_OK
    }
}

#[test]
fn overflow_handler_grows_the_buffer() {
    let mut ctx = PackContext::with_overflow_handler(vec![0u8; 4], Box::new(Grow));
    let data = vec![0x61u8; 100];
    ctx.pack_unsigned(1);
    ctx.pack_str(&data);
    assert_eq!(ctx.return_code, RC_OK);
    assert_eq!(ctx.written(), 1 + 2 + 100);
    let bytes = ctx.written_bytes().to_vec();
    let mut u = UnpackContext::new(&bytes);
    u.unpack_next();
    assert_eq!(u.item.as_.u64_(), 1);
    u.unpack_next();
    assert_eq!(u.item.type_, ITEM_STR);
    let b = u.item.as_.blob();
    assert_eq!(u.blob_bytes(&b), &data[..]);
}

#[test]
fn overflow_handler_error_is_recorded() {
    let mut ctx = PackContext::with_overflow_handler(vec![0u8; 1], Box::new(Refuse));
    ctx.pack_unsigned(300);
    assert_eq!(ctx.return_code, RC_ERROR_IN_HANDLER);
    assert_eq!(ctx.err_no, 28);
    assert_eq!(ctx.written(), 0);
    ctx.pack_nil();
    assert_eq!(ctx.written(), 0);
}

#[test]
fn overflow_handler_without_room_is_overflow() {
    let mut ctx = PackContext::with_overflow_handler(vec![0u8; 1], Box::new(Liar));
    ctx.pack_unsigned(300);
    assert_eq!(ctx.return_code, RC_BUFFER_OVERFLOW);
    assert_eq!(ctx.written(), 0);
}

#[test]
fn drain_and_flush_handlers_stream_the_output() {
    let sink = std::rc::Rc::new(std::cell::RefCell::new(Vec::new()));
    let mut ctx = PackContext::with_overflow_handler(
        vec![0u8; 8],
        Box::new(Drain { sink: sink.clone() }),
    );
    ctx.set_flush_handler(Box::new(Drain { sink: sink.clone() }));
    for i in 0u64..20 {
        ctx.pack_unsigned(i * 1000);
    }
    ctx.pack_flush();
    assert_eq!(ctx.return_code, RC_OK);
    let mut expected = PackContext::new(vec![0u8; 256]);
    for i in 0u64..20 {
        expected.pack_unsigned(i * 1000);
    }
    assert_eq!(&sink.borrow()[..], expected.written_bytes());
}

#[test]
fn flush_without_handler_is_illegal() {
    let mut ctx = PackContext::new(vec![0u8; 8]);
    ctx.pack_flush();
    assert_eq!(ctx.return_code, RC_ILLEGAL_CALL);
}

#[test]
fn resume_after_handlers() {
    let mut ctx = PackContext::new(vec![0u8; 8]);
    assert_eq!(ctx.resume_after_overflow_handler(RC_OK, 3), Some(0));
    assert_eq!(ctx.written(), 3);
    assert_eq!(ctx.resume_after_overflow_handler(RC_OK, 6), None);
    assert_eq!(ctx.return_code, RC_BUFFER_OVERFLOW);
    let mut ctx = PackContext::new(vec![0u8; 8]);
    assert_eq!(ctx.resume_after_overflow_handler(-42, 1), None);
    assert_eq!(ctx.return_code, -42);
    ctx.resume_after_flush_handler(RC_OK);
    assert_eq!(ctx.return_code, RC_OK);

    let bytes = [1u8, 2, 3];
    let mut u = UnpackContext::new(&bytes);
    assert_eq!(u.resume_after_underflow_handler(RC_OK, 2, true), Some(0));
    assert_eq!(u.current_pos(), 2);
    assert_eq!(u.resume_after_underflow_handler(RC_OK, 2, true), None);
    assert_eq!(u.return_code, RC_BUFFER_UNDERFLOW);
    let mut u = UnpackContext::new(&bytes);
    assert_eq!(u.resume_after_underflow_handler(RC_END_OF_INPUT, 1, false), None);
    assert_eq!(u.return_code, RC_END_OF_INPUT);
    assert_eq!(u.item.type_, ITEM_NOT_AN_ITEM);
    let mut u = UnpackContext::new(&bytes);
    assert_eq!(u.resume_after_underflow_handler(RC_END_OF_INPUT, 1, true), None);
    assert_eq!(u.return_code, RC_BUFFER_UNDERFLOW);
    let mut u = UnpackContext::new(&bytes);
    assert_eq!(u.resume_after_underflow_handler(RC_STOPPED, 1, true), None);
    assert_eq!(u.return_code, RC_STOPPED);
}

/// Hands out the input in chunks of a fixed size.
struct Chunks {
    rest: Vec<u8>,
    size: usize,
}

impl UnpackUnderflowHandler for Chunks {
    fn handle_underflow(
        &mut self,
        buffer: &mut Vec<u8>,
        current: &mut usize,
        _err_no: &mut i32,
        more: usize,
    ) -> i32 {
        let unread: Vec<u8> = buffer[*current..].to_vec();
        let mut next = unread;
        while next.len() < more {
            if self.rest.is_empty() {
                return RC_END_OF_INPUT;
            }
            let n = self.size.min(self.rest.len());
            next.extend(self.rest.drain(..n));
        }
        *buffer = next;
        *current = 0;
        RC_OK
    }
}

#[test]
fn underflow_handler_feeds_chunks() {
    let mut p = PackContext::new(vec![0u8; 256]);
    p.pack_unsigned(0x1234_5678_9abc);
    p.pack_str(b"a string that spans chunks");
    p.pack_unsigned(7);
    let bytes = p.written_bytes().to_vec();
    let mut u = UnpackContext::with_underflow_handler(
        &bytes[..2],
        Box::new(Chunks { rest: bytes[2..].to_vec(), size: 3 }),
    );
    u.unpack_next();
    assert_eq!(u.return_code, RC_OK);
    assert_eq!(u.item.type_, ITEM_POSITIVE_INTEGER);
    assert_eq!(u.item.as_.u64_(), 0x1234_5678_9abc);
    u.unpack_next();
    assert_eq!(u.item.type_, ITEM_STR);
    let b = u.item.as_.blob();
    assert_eq!(u.blob_bytes(&b), b"a string that spans chunks");
    u.unpack_next();
    assert_eq!(u.item.as_.u64_(), 7);
    u.unpack_next();
    assert_eq!(u.return_code, RC_END_OF_INPUT);
}

#[test]
fn underflow_handler_running_dry_inside_an_item() {
    let bytes = [0xcfu8, 0, 0, 0];
    let mut u = UnpackContext::with_underflow_handler(
        &bytes[..1],
        Box::new(Chunks { rest: bytes[1..].to_vec(), size: 2 }),
    );
    u.unpack_next();
    assert_eq!(u.return_code, RC_BUFFER_UNDERFLOW);
    assert_eq!(u.item.type_, ITEM_NOT_AN_ITEM);
}

#[test]
fn skip_with_underflow_handler() {
    let mut p = PackContext::new(vec![0u8; 256]);
    p.pack_array_size(3);
    p.pack_str(b"xyz");
    p.pack_map_size(1);
    p.pack_nil();
    p.pack_signed(-1000);
    p.pack_double_bits(0);
    p.pack_unsigned(99);
    let bytes = p.written_bytes().to_vec();
    let mut u = UnpackContext::with_underflow_handler(
        &bytes[..1],
        Box::new(Chunks { rest: bytes[1..].to_vec(), size: 1 }),
    );
    u.skip_items(1);
    assert_eq!(u.return_code, RC_OK);
    u.unpack_next();
    assert_eq!(u.item.as_.u64_(), 99);
}
