use cwpack_rs::pack::PackContext;
use cwpack_rs::types::{RC_OK, RC_BUFFER_UNDERFLOW, RC_MALFORMED_INPUT, RC_WRONG_TIMESTAMP_LENGTH, ITEM_TIMESTAMP, ITEM_NOT_AN_ITEM};
use cwpack_rs::unpack::UnpackContext;

fn rust_pack_unsigned(v: u64) -> (Vec<u8>, i32) {
    let mut ctx = PackContext::new(vec![0u8; 16]);
    ctx.pack_unsigned(v);
    (ctx.written_bytes().to_vec(), ctx.return_code)
}

fn rust_pack_signed(v: i64) -> (Vec<u8>, i32) {
    let mut ctx = PackContext::new(vec![0u8; 16]);
    ctx.pack_signed(v);
    (ctx.written_bytes().to_vec(), ctx.return_code)
}

fn check_unsigned(v: u64, expected: &[u8]) {
    let (rs_out, rs_rc) = rust_pack_unsigned(v);
    assert_eq!(rs_rc, RC_OK);
    assert_eq!(rs_out, expected, "unsigned({}) wrong encoding", v);
    let mut expected_rmp = Vec::new();
    rmp::encode::write_uint(&mut expected_rmp, v).unwrap();
    assert_eq!(rs_out, expected_rmp, "unsigned({}) differs from rmp", v);
}

fn check_signed(v: i64, expected: &[u8]) {
    let (rs_out, rs_rc) = rust_pack_signed(v);
    assert_eq!(rs_rc, RC_OK);
    assert_eq!(rs_out, expected, "signed({}) wrong encoding", v);
    let mut expected_rmp = Vec::new();
    rmp::encode::write_sint(&mut expected_rmp, v).unwrap();
    assert_eq!(rs_out, expected_rmp, "signed({}) differs from rmp", v);
}

fn rust_pack_bin_compat(data: &[u8]) -> (Vec<u8>, i32) {
    let mut ctx = PackContext::new(vec![0u8; 1024]);
    ctx.set_compatibility(true);
    ctx.pack_bin(data);
    (ctx.written_bytes().to_vec(), ctx.return_code)
}

fn check_bin_compat(len: usize) {
    let data = vec![0x42u8; len];
    let (rs_bytes, rs_rc) = rust_pack_bin_compat(&data);
    assert_eq!(rs_rc, RC_OK);
    let mut str_ctx = PackContext::new(vec![0u8; 1024]);
    str_ctx.set_compatibility(true);
    str_ctx.pack_str(&data);
    assert_eq!(rs_bytes, str_ctx.written_bytes(), "compat mode bin encoding mismatch for length {}", len);
    if len < 32 {
        assert_eq!(rs_bytes[0], 0xa0 | (len as u8));
    } else if len < 65536 {
        assert_eq!(rs_bytes[0], 0xda);
    } else {
        assert_eq!(rs_bytes[0], 0xdb);
    }
    assert_eq!(&rs_bytes[rs_bytes.len() - len..], &data[..]);
}

fn pack_time_bytes(sec: i64, nsec: u32) -> (Vec<u8>, i32) {
    let mut ctx = PackContext::new(vec![0u8; 64]);
    ctx.pack_time(sec, nsec);
    (ctx.written_bytes().to_vec(), ctx.return_code)
}

fn unpack_time_fields(bytes: &[u8]) -> (i64, u32, i32, i32) {
    let mut ctx = UnpackContext::new(bytes);
    ctx.unpack_next();
    let t = ctx.item.as_.time();
    (t.tv_sec, t.tv_nsec, ctx.return_code, ctx.item.type_)
}

fn check_timestamp(sec: i64, nsec: u32, len: usize, first: u8) {
    let (rs_bytes, rs_pack_rc) = pack_time_bytes(sec, nsec);
    assert_eq!(rs_pack_rc, RC_OK);
    assert_eq!(rs_bytes.len(), len, "timestamp length for sec={}, nsec={}", sec, nsec);
    assert_eq!(rs_bytes[0], first);
    let (rs_sec, rs_nsec, rs_unpack_rc, ty) = unpack_time_fields(&rs_bytes);
    assert_eq!(rs_unpack_rc, RC_OK);
    assert_eq!(ty, ITEM_TIMESTAMP);
    assert_eq!(rs_sec, sec, "unpacked sec does not match the packed value");
    assert_eq!(rs_nsec, nsec, "unpacked nsec does not match the packed value");
}

const SENTINEL: u64 = 0x9999;

fn skip_and_read_sentinel(build: impl FnOnce(&mut PackContext)) {
    let mut ctx = PackContext::new(vec![0u8; 1024]);
    build(&mut ctx);
    ctx.pack_unsigned(SENTINEL);
    assert_eq!(ctx.return_code, RC_OK);
    let bytes = ctx.written_bytes().to_vec();
    let mut u = UnpackContext::new(&bytes);
    u.skip_items(1);
    assert_eq!(u.return_code, RC_OK, "skip rc");
    u.unpack_next();
    assert_eq!(u.return_code, RC_OK, "read rc");
    assert_eq!(u.item.as_.u64_(), SENTINEL, "sentinel mismatch");
}

#[test]
fn uint_0() {
    check_unsigned(0, &[0x00u8]);
}

#[test]
fn uint_127() {
    check_unsigned(127, &[0x7fu8]);
}

#[test]
fn uint_128() {
    check_unsigned(128, &[0xccu8, 0x80]);
}

#[test]
fn uint_255() {
    check_unsigned(255, &[0xccu8, 0xff]);
}

#[test]
fn uint_256() {
    check_unsigned(256, &[0xcdu8, 0x01, 0x00]);
}

#[test]
fn uint_65535() {
    check_unsigned(65535, &[0xcdu8, 0xff, 0xff]);
}

#[test]
fn uint_65536() {
    check_unsigned(65536, &[0xceu8, 0x00, 0x01, 0x00, 0x00]);
}

#[test]
fn uint_max_u32() {
    check_unsigned(0xffff_ffffu64, &[0xceu8, 0xff, 0xff, 0xff, 0xff]);
}

#[test]
fn uint_u64_min() {
    check_unsigned(0x1_0000_0000u64, &[0xcfu8, 0x00, 0x00, 0x00, 0x01, 0x00, 0x00, 0x00, 0x00]);
}

#[test]
fn uint_max_u64() {
    check_unsigned(u64::MAX, &[0xcfu8, 0xff, 0xff, 0xff, 0xff, 0xff, 0xff, 0xff, 0xff]);
}

#[test]
fn sint_0() {
    check_signed(0i64, &[0x00u8]);
}

#[test]
fn sint_127() {
    check_signed(127i64, &[0x7fu8]);
}

#[test]
fn sint_128() {
    check_signed(128i64, &[0xccu8, 0x80]);
}

#[test]
fn sint_neg1() {
    check_signed(-1i64, &[0xffu8]);
}

#[test]
fn sint_neg32() {
    check_signed(-32i64, &[0xe0u8]);
}

#[test]
fn sint_neg33() {
    check_signed(-33i64, &[0xd0u8, 0xdf]);
}

#[test]
fn sint_neg128() {
    check_signed(-128i64, &[0xd0u8, 0x80]);
}

#[test]
fn sint_neg129() {
    check_signed(-129i64, &[0xd1u8, 0xff, 0x7f]);
}

#[test]
fn sint_neg32768() {
    check_signed(-32768i64, &[0xd1u8, 0x80, 0x00]);
}

#[test]
fn sint_neg32769() {
    check_signed(-32769i64, &[0xd2u8, 0xff, 0xff, 0x7f, 0xff]);
}

#[test]
fn sint_i32_min() {
    check_signed(i32::MIN as i64, &[0xd2u8, 0x80, 0x00, 0x00, 0x00]);
}

#[test]
fn sint_i64_min() {
    check_signed(i64::MIN, &[0xd3u8, 0x80, 0x00, 0x00, 0x00, 0x00, 0x00, 0x00, 0x00]);
}

#[test]
fn test_bin_compat_fixstr() {
    check_bin_compat(10);
}

#[test]
fn test_bin_compat_str16_skip_str8() {
    check_bin_compat(100);
}

#[test]
fn test_bin_compat_str16() {
    check_bin_compat(300);
}

#[test]
fn ts64_sec_0_nsec_1() {
    check_timestamp(0, 1, 10, 0xd7);
}

#[test]
fn ts64_sec_max32_nsec_1() {
    check_timestamp(4294967295, 1, 10, 0xd7);
}

#[test]
fn ts64_sec_2_32_nsec_0() {
    check_timestamp(4294967296, 0, 10, 0xd7);
}

#[test]
fn ts64_sec_max34_nsec_0() {
    check_timestamp(17179869183, 0, 10, 0xd7);
}

#[test]
fn ts64_sec_max34_nsec_max() {
    check_timestamp(17179869183, 999_999_999, 10, 0xd7);
}

#[test]
fn ts96_sec_neg1_nsec_0() {
    check_timestamp(-1, 0, 15, 0xc7);
}

#[test]
fn ts96_sec_min_nsec_0() {
    check_timestamp(i64::MIN, 0, 15, 0xc7);
}

#[test]
fn ts96_sec_2_34_nsec_0() {
    check_timestamp(17179869184, 0, 15, 0xc7);
}

#[test]
fn ts96_sec_max_nsec_max() {
    check_timestamp(i64::MAX, 999_999_999, 15, 0xc7);
}

#[test]
fn skip_uint8() {
    skip_and_read_sentinel(|ctx| {
        ctx.pack_unsigned(200);
    });
}

#[test]
fn skip_uint16() {
    skip_and_read_sentinel(|ctx| {
        ctx.pack_unsigned(60000);
    });
}

#[test]
fn skip_uint32() {
    skip_and_read_sentinel(|ctx| {
        ctx.pack_unsigned(0xdeadbeefu64);
    });
}

#[test]
fn skip_uint64() {
    skip_and_read_sentinel(|ctx| {
        ctx.pack_unsigned(u64::MAX);
    });
}

#[test]
fn skip_int8() {
    skip_and_read_sentinel(|ctx| {
        ctx.pack_signed(-33);
    });
}

#[test]
fn skip_int16() {
    skip_and_read_sentinel(|ctx| {
        ctx.pack_signed(-129);
    });
}

#[test]
fn skip_int32() {
    skip_and_read_sentinel(|ctx| {
        ctx.pack_signed(-32769);
    });
}

#[test]
fn skip_int64() {
    skip_and_read_sentinel(|ctx| {
        ctx.pack_signed(i64::MIN);
    });
}

#[test]
fn skip_float() {
    skip_and_read_sentinel(|ctx| {
        ctx.pack_float_bits(3.14f32.to_bits());
    });
}

#[test]
fn skip_double() {
    skip_and_read_sentinel(|ctx| {
        ctx.pack_double_bits(3.14f64.to_bits());
    });
}

#[test]
fn skip_nil() {
    skip_and_read_sentinel(|ctx| {
        ctx.pack_nil();
    });
}

#[test]
fn skip_true() {
    skip_and_read_sentinel(|ctx| {
        ctx.pack_true();
    });
}

#[test]
fn skip_false() {
    skip_and_read_sentinel(|ctx| {
        ctx.pack_false();
    });
}

#[test]
fn skip_fixint_pos() {
    skip_and_read_sentinel(|ctx| {
        ctx.pack_unsigned(64);
    });
}

#[test]
fn skip_fixint_neg() {
    skip_and_read_sentinel(|ctx| {
        ctx.pack_signed(-1);
    });
}

#[test]
fn skip_fixstr() {
    skip_and_read_sentinel(|ctx| {
        ctx.pack_str(b"hello");
    });
}

#[test]
fn skip_str8() {
    skip_and_read_sentinel(|ctx| {
        ctx.pack_str(&[0u8; 32]);
    });
}

#[test]
fn skip_bin8() {
    skip_and_read_sentinel(|ctx| {
        ctx.pack_bin(&[0u8; 10]);
    });
}

#[test]
fn skip_fixext1() {
    skip_and_read_sentinel(|ctx| {
        ctx.pack_ext(5, &[0u8; 1]);
    });
}

#[test]
fn skip_fixext2() {
    skip_and_read_sentinel(|ctx| {
        ctx.pack_ext(5, &[0u8; 2]);
    });
}

#[test]
fn skip_fixext4() {
    skip_and_read_sentinel(|ctx| {
        ctx.pack_ext(5, &[0u8; 4]);
    });
}

#[test]
fn skip_fixext8() {
    skip_and_read_sentinel(|ctx| {
        ctx.pack_ext(5, &[0u8; 8]);
    });
}

#[test]
fn skip_fixext16() {
    skip_and_read_sentinel(|ctx| {
        ctx.pack_ext(5, &[0u8; 16]);
    });
}

#[test]
fn skip_ext8() {
    skip_and_read_sentinel(|ctx| {
        ctx.pack_ext(5, &[0u8; 3]);
    });
}

#[test]
fn skip_ext16() {
    skip_and_read_sentinel(|ctx| {
        ctx.pack_ext(5, &[0u8; 256]);
    });
}

#[test]
fn skip_timestamp96() {
    skip_and_read_sentinel(|ctx| {
        ctx.pack_time(-5, 7);
    });
}

#[test]
fn skip_str16() {
    skip_and_read_sentinel(|ctx| {
        ctx.pack_str(&[7u8; 300]);
    });
}

#[test]
fn skip_bin16() {
    skip_and_read_sentinel(|ctx| {
        ctx.pack_bin(&[7u8; 300]);
    });
}

#[test]
fn skip_fixarray_3() {
    skip_and_read_sentinel(|ctx| {
        ctx.pack_array_size(3);
        ctx.pack_unsigned(1);
        ctx.pack_unsigned(2);
        ctx.pack_unsigned(3);
    });
}

#[test]
fn skip_fixmap_2() {
    skip_and_read_sentinel(|ctx| {
        ctx.pack_map_size(2);
        ctx.pack_str(b"k1");
        ctx.pack_unsigned(100);
        ctx.pack_str(b"k2");
        ctx.pack_unsigned(200);
    });
}

#[test]
fn skip_nested_arrays() {
    skip_and_read_sentinel(|ctx| {
        ctx.pack_array_size(2);
        ctx.pack_array_size(2);
        ctx.pack_unsigned(10);
        ctx.pack_unsigned(20);
        ctx.pack_unsigned(30);
    });
}

#[test]
fn skip_array16() {
    skip_and_read_sentinel(|ctx| {
        ctx.pack_array_size(16);
        for i in 0u64..16 {
            ctx.pack_unsigned(i);
        }
    });
}

#[test]
fn skip_map16() {
    skip_and_read_sentinel(|ctx| {
        ctx.pack_map_size(16);
        for i in 0u64..16 {
            ctx.pack_unsigned(i);
            ctx.pack_unsigned(i * 10);
        }
    });
}

#[test]
fn skip_map_of_arrays() {
    skip_and_read_sentinel(|ctx| {
        ctx.pack_map_size(2);
        ctx.pack_str(b"a");
        ctx.pack_array_size(2);
        ctx.pack_nil();
        ctx.pack_true();
        ctx.pack_str(b"b");
        ctx.pack_array_size(0);
    });
}

#[test]
fn unpack_truncated_item_is_underflow() {
    let bytes = [0xcdu8, 0x01];
    let mut ctx = UnpackContext::new(&bytes);
    ctx.unpack_next();
    assert_eq!(ctx.return_code, RC_BUFFER_UNDERFLOW);
    assert_eq!(ctx.item.type_, ITEM_NOT_AN_ITEM);
    assert_eq!(ctx.current_pos(), 1);
}

#[test]
fn unpack_c1_is_malformed() {
    let bytes = [0xc1u8, 0x00];
    let mut ctx = UnpackContext::new(&bytes);
    ctx.unpack_next();
    assert_eq!(ctx.return_code, RC_MALFORMED_INPUT);
    assert_eq!(ctx.item.type_, ITEM_NOT_AN_ITEM);
    ctx.unpack_next();
    assert_eq!(ctx.return_code, RC_MALFORMED_INPUT);
    assert_eq!(ctx.current_pos(), 1);
}

#[test]
fn skip_c1_is_malformed() {
    let bytes = [0x01u8, 0xc1];
    let mut ctx = UnpackContext::new(&bytes);
    ctx.skip_items(2);
    assert_eq!(ctx.return_code, RC_MALFORMED_INPUT);
    assert_eq!(ctx.current_pos(), 2);
}

#[test]
fn ext8_timestamp_with_wrong_length() {
    let bytes = [0xc7u8, 0x04, 0xff, 0, 0, 0, 0];
    let mut ctx = UnpackContext::new(&bytes);
    ctx.unpack_next();
    assert_eq!(ctx.return_code, RC_WRONG_TIMESTAMP_LENGTH);
    assert_eq!(ctx.current_pos(), 3);
}

#[test]
fn ext16_of_type_minus_one_is_a_plain_ext() {
    let mut bytes = vec![0xc8u8, 0x00, 0x0c, 0xff];
    bytes.extend_from_slice(&[1u8; 12]);
    let mut ctx = UnpackContext::new(&bytes);
    ctx.unpack_next();
    assert_eq!(ctx.return_code, RC_OK);
    assert_eq!(ctx.item.type_, -1);
    let b = ctx.item.as_.blob();
    assert_eq!((b.start, b.length), (4, 12));
}

#[test]
fn rmp_agrees_on_every_16_bit_unsigned_and_signed() {
    for v in 0u64..=0x1_0001 {
        let (ours, rc) = rust_pack_unsigned(v);
        assert_eq!(rc, RC_OK);
        let mut expected_rmp = Vec::new();
        rmp::encode::write_uint(&mut expected_rmp, v).unwrap();
        assert_eq!(ours, expected_rmp, "unsigned {}", v);
    }
    for v in -0x1_0001i64..=0x1_0001 {
        let (ours, rc) = rust_pack_signed(v);
        assert_eq!(rc, RC_OK);
        let mut expected_rmp = Vec::new();
        rmp::encode::write_sint(&mut expected_rmp, v).unwrap();
        assert_eq!(ours, expected_rmp, "signed {}", v);
    }
}

#[test]
fn rmp_agrees_on_str_bin_ext_headers() {
    for len in [0usize, 1, 2, 3, 4, 5, 8, 15, 16, 17, 31, 32, 255, 256, 65535, 65536] {
        let data = vec![0x5au8; len];
        let mut ctx = PackContext::new(vec![0u8; len + 16]);
        ctx.pack_str(&data);
        let mut expected_rmp = Vec::new();
        rmp::encode::write_str(&mut expected_rmp, std::str::from_utf8(&data).unwrap()).unwrap();
        assert_eq!(ctx.written_bytes(), &expected_rmp[..], "str {}", len);

        let mut ctx = PackContext::new(vec![0u8; len + 16]);
        ctx.pack_bin(&data);
        let mut expected_rmp = Vec::new();
        rmp::encode::write_bin(&mut expected_rmp, &data).unwrap();
        assert_eq!(ctx.written_bytes(), &expected_rmp[..], "bin {}", len);

        let mut ctx = PackContext::new(vec![0u8; len + 16]);
        ctx.pack_ext(42, &data);
        let mut expected_rmp = Vec::new();
        rmp::encode::write_ext_meta(&mut expected_rmp, len as u32, 42).unwrap();
        expected_rmp.extend_from_slice(&data);
        assert_eq!(ctx.written_bytes(), &expected_rmp[..], "ext {}", len);
    }
}

#[test]
fn rmp_agrees_on_floats_nil_bool_and_sizes() {
    let mut ctx = PackContext::new(vec![0u8; 64]);
    ctx.pack_float_bits(1.5f32.to_bits());
    ctx.pack_double_bits((-2.25f64).to_bits());
    ctx.pack_nil();
    ctx.pack_boolean(true);
    ctx.pack_boolean(false);
    ctx.pack_array_size(15);
    ctx.pack_array_size(16);
    ctx.pack_map_size(65536);
    let mut expected_rmp = Vec::new();
    rmp::encode::write_f32(&mut expected_rmp, 1.5).unwrap();
    rmp::encode::write_f64(&mut expected_rmp, -2.25).unwrap();
    rmp::encode::write_nil(&mut expected_rmp).unwrap();
    rmp::encode::write_bool(&mut expected_rmp, true).unwrap();
    rmp::encode::write_bool(&mut expected_rmp, false).unwrap();
    rmp::encode::write_array_len(&mut expected_rmp, 15).unwrap();
    rmp::encode::write_array_len(&mut expected_rmp, 16).unwrap();
    rmp::encode::write_map_len(&mut expected_rmp, 65536).unwrap();
    assert_eq!(ctx.written_bytes(), &expected_rmp[..]);
}
