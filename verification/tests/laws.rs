use cwpack_rs::pack::PackContext;
use cwpack_rs::types::{
    ItemValue, ITEM_ARRAY, ITEM_BIN, ITEM_BOOLEAN, ITEM_DOUBLE, ITEM_FLOAT, ITEM_MAP,
    ITEM_NEGATIVE_INTEGER, ITEM_NIL, ITEM_POSITIVE_INTEGER, ITEM_STR, ITEM_TIMESTAMP, RC_OK,
};
use cwpack_rs::unpack::UnpackContext;

/// Packs with `f`, then checks unpack, skip and look-ahead on the bytes.
fn roundtrip(f: impl FnOnce(&mut PackContext)) -> (UnpackContext, usize) {
    let mut p = PackContext::new(vec![0u8; 70000]);
    f(&mut p);
    assert_eq!(p.return_code, RC_OK);
    let bytes = p.written_bytes().to_vec();
    let mut look = UnpackContext::new(&bytes);
    let announced = look.look_ahead();
    assert_eq!(look.current_pos(), 0);
    assert_eq!(look.return_code, RC_OK);
    let mut skip = UnpackContext::new(&bytes);
    skip.skip_items(1);
    let mut u = UnpackContext::new(&bytes);
    u.unpack_next();
    assert_eq!(u.return_code, RC_OK);
    assert_eq!(u.current_pos(), bytes.len());
    assert_eq!(announced, u.item.type_);
    if u.item.type_ != ITEM_ARRAY && u.item.type_ != ITEM_MAP {
        assert_eq!(skip.return_code, RC_OK);
        assert_eq!(skip.current_pos(), bytes.len());
    }
    (u, bytes.len())
}

#[test]
fn unsigned_values_come_back() {
    for v in [0u64, 1, 127, 128, 255, 256, 65535, 65536, 0xffff_ffff, 0x1_0000_0000, u64::MAX] {
        let (u, _) = roundtrip(|p| p.pack_unsigned(v));
        assert_eq!(u.item.type_, ITEM_POSITIVE_INTEGER);
        assert_eq!(u.item.as_.u64_(), v);
    }
}

#[test]
fn signed_values_come_back() {
    for v in [0i64, 1, 127, 128, -1, -32, -33, -128, -129, -32768, -32769, i32::MIN as i64, i64::MIN, i64::MAX] {
        let (u, _) = roundtrip(|p| p.pack_signed(v));
        let expected = if v >= 0 { ITEM_POSITIVE_INTEGER } else { ITEM_NEGATIVE_INTEGER };
        assert_eq!(u.item.type_, expected);
        assert_eq!(u.item.as_.i64_(), v);
    }
}

#[test]
fn scalars_come_back() {
    let (u, _) = roundtrip(|p| p.pack_nil());
    assert_eq!(u.item.type_, ITEM_NIL);
    let (u, _) = roundtrip(|p| p.pack_boolean(true));
    assert_eq!((u.item.type_, u.item.as_), (ITEM_BOOLEAN, ItemValue::Boolean(true)));
    let (u, _) = roundtrip(|p| p.pack_false());
    assert_eq!((u.item.type_, u.item.as_), (ITEM_BOOLEAN, ItemValue::Boolean(false)));
    let (u, _) = roundtrip(|p| p.pack_float_bits(0.1f32.to_bits()));
    assert_eq!(u.item.type_, ITEM_FLOAT);
    assert_eq!(f32::from_bits(u.item.as_.real_bits()), 0.1f32);
    let (u, _) = roundtrip(|p| p.pack_double_bits(0.1f64.to_bits()));
    assert_eq!(u.item.type_, ITEM_DOUBLE);
    assert_eq!(f64::from_bits(u.item.as_.long_real_bits()), 0.1f64);
}

#[test]
fn container_sizes_come_back() {
    for n in [0u32, 15, 16, 65535, 65536, u32::MAX] {
        let (u, _) = roundtrip(|p| p.pack_array_size(n));
        assert_eq!(u.item.type_, ITEM_ARRAY);
        assert_eq!(u.item.as_.container().size, n);
        let (u, _) = roundtrip(|p| p.pack_map_size(n));
        assert_eq!(u.item.type_, ITEM_MAP);
        assert_eq!(u.item.as_.container().size, n);
    }
}

#[test]
fn blobs_come_back() {
    for len in [0usize, 1, 2, 4, 8, 16, 31, 32, 255, 256, 65535, 65536] {
        let data: Vec<u8> = (0..len).map(|i| (i * 7) as u8).collect();
        for compat in [false, true] {
            let (u, _) = roundtrip(|p| {
                p.set_compatibility(compat);
                p.pack_str(&data)
            });
            assert_eq!(u.item.type_, ITEM_STR);
            assert_eq!(u.blob_bytes(&u.item.as_.blob()), &data[..]);
        }
        let (u, _) = roundtrip(|p| p.pack_bin(&data));
        assert_eq!(u.item.type_, ITEM_BIN);
        assert_eq!(u.blob_bytes(&u.item.as_.blob()), &data[..]);
        for t in [-128i8, -2, 0, 5, 127] {
            let (u, _) = roundtrip(|p| p.pack_ext(t, &data));
            assert_eq!(u.item.type_, t as i32);
            assert_eq!(u.blob_bytes(&u.item.as_.blob()), &data[..]);
        }
    }
}

#[test]
fn timestamps_come_back() {
    for sec in [0i64, 1, -1, 2147483647, 2147483648, 4294967295, 4294967296, 17179869183, 17179869184, i64::MIN, i64::MAX] {
        for nsec in [0u32, 1, 999_999_999] {
            let (u, len) = roundtrip(|p| p.pack_time(sec, nsec));
            assert_eq!(u.item.type_, ITEM_TIMESTAMP);
            let t = u.item.as_.time();
            assert_eq!((t.tv_sec, t.tv_nsec), (sec, nsec));
            let expected_len = if nsec == 0 && (0..0x1_0000_0000).contains(&sec) {
                6
            } else if (0..0x4_0000_0000).contains(&sec) {
                10
            } else {
                15
            };
            assert_eq!(len, expected_len);
        }
    }
}

#[test]
fn skip_announces_container_contents() {
    let mut p = PackContext::new(vec![0u8; 64]);
    p.pack_map_size(2);
    p.pack_unsigned(1);
    p.pack_array_size(2);
    p.pack_nil();
    p.pack_nil();
    p.pack_unsigned(2);
    p.pack_unsigned(3);
    p.pack_unsigned(4);
    let bytes = p.written_bytes().to_vec();
    let mut u = UnpackContext::new(&bytes);
    u.skip_items(1);
    u.unpack_next();
    assert_eq!(u.item.as_.u64_(), 4);
}

#[test]
fn write_keeps_earlier_bytes() {
    let mut p = PackContext::new(vec![0u8; 32]);
    p.pack_str(b"abc");
    let before = p.written_bytes().to_vec();
    p.pack_unsigned(1000);
    assert_eq!(&p.written_bytes()[..before.len()], &before[..]);
    assert_eq!(&p.written_bytes()[before.len()..], &[0xcd, 0x03, 0xe8]);
}

#[test]
fn compat_never_writes_str8() {
    for len in 0usize..300 {
        let data = vec![1u8; len];
        let mut p = PackContext::new(vec![0u8; 400]);
        p.set_compatibility(true);
        p.pack_str(&data);
        assert_ne!(p.written_bytes()[0], 0xd9);
    }
}

#[test]
fn look_ahead_does_not_consume() {
    let bytes = [0xd6u8, 0xff, 0, 0, 0, 1, 0xc7, 2, 9, 1, 2];
    let mut u = UnpackContext::new(&bytes);
    assert_eq!(u.look_ahead(), ITEM_TIMESTAMP);
    assert_eq!(u.current_pos(), 0);
    u.skip_items(1);
    assert_eq!(u.look_ahead(), 9);
    assert_eq!(u.current_pos(), 6);
}

/// Packs with `f` into a fresh 1 KiB context (compatibility mode as given)
/// and gives the context.
fn packed_with(compat: bool, f: impl FnOnce(&mut PackContext)) -> PackContext {
    let mut p = PackContext::new(vec![0u8; 1024]);
    p.set_compatibility(compat);
    f(&mut p);
    p
}

fn same_outcome(a: &PackContext, b: &PackContext) {
    assert_eq!(a.written_bytes(), b.written_bytes());
    assert_eq!(a.written(), b.written());
    assert_eq!(a.return_code, b.return_code);
}

#[test]
fn nonnegative_signed_packs_as_unsigned() {
    for v in [0i64, 1, 127, 128, 255, 256, 65535, 65536, 0xffff_ffff, 0x1_0000_0000, i64::MAX] {
        let s = packed_with(false, |p| p.pack_signed(v));
        let u = packed_with(false, |p| p.pack_unsigned(v as u64));
        assert_eq!(s.return_code, RC_OK);
        same_outcome(&s, &u);
    }
    let s = packed_with(false, |p| p.pack_signed(200));
    assert_eq!(s.written_bytes(), &[0xcc, 200]);
}

#[test]
fn compat_bin_packs_as_str() {
    for (len, first) in [(10usize, 0xaau8), (100, 0xda), (300, 0xda)] {
        let data = vec![7u8; len];
        let b = packed_with(true, |p| p.pack_bin(&data));
        let s = packed_with(true, |p| p.pack_str(&data));
        assert_eq!(b.return_code, RC_OK);
        assert_eq!(b.written_bytes()[0], first);
        same_outcome(&b, &s);
    }
    let data = vec![7u8; 2000];
    let b = packed_with(true, |p| p.pack_bin(&data));
    let s = packed_with(true, |p| p.pack_str(&data));
    assert_eq!(b.return_code, cwpack_rs::types::RC_BUFFER_OVERFLOW);
    same_outcome(&b, &s);
}

#[test]
fn boolean_packs_as_true_or_false() {
    let t = packed_with(false, |p| p.pack_boolean(true));
    let f = packed_with(false, |p| p.pack_boolean(false));
    assert_eq!(t.written_bytes(), &[0xc3]);
    assert_eq!(f.written_bytes(), &[0xc2]);
    same_outcome(&t, &packed_with(false, |p| p.pack_true()));
    same_outcome(&f, &packed_with(false, |p| p.pack_false()));
    let mut full = PackContext::new(vec![]);
    full.pack_boolean(true);
    let mut full2 = PackContext::new(vec![]);
    full2.pack_true();
    same_outcome(&full, &full2);
    assert_eq!(full.return_code, cwpack_rs::types::RC_BUFFER_OVERFLOW);
}

#[test]
fn look_ahead_gives_the_unpacked_type_of_packed_items() {
    let mut p = PackContext::new(vec![0u8; 1024]);
    p.pack_signed(-1);
    p.pack_signed(-33);
    p.pack_signed(-129);
    p.pack_signed(-40000);
    p.pack_signed(i64::MIN);
    p.pack_ext(-5, &[1, 2, 3]);
    p.pack_ext(7, &[0u8; 300]);
    p.pack_time(-1, 5);
    p.pack_str(b"x");
    assert_eq!(p.return_code, RC_OK);
    let bytes = p.written_bytes().to_vec();
    let mut u = UnpackContext::new(&bytes);
    let mut seen = Vec::new();
    while u.current_pos() < bytes.len() {
        let t = u.look_ahead();
        u.unpack_next();
        assert_eq!(u.return_code, RC_OK);
        assert_eq!(t, u.item.type_);
        seen.push(t);
    }
    assert_eq!(
        seen,
        vec![
            ITEM_NEGATIVE_INTEGER,
            ITEM_NEGATIVE_INTEGER,
            ITEM_NEGATIVE_INTEGER,
            ITEM_NEGATIVE_INTEGER,
            ITEM_NEGATIVE_INTEGER,
            -5,
            7,
            ITEM_TIMESTAMP,
            ITEM_STR
        ]
    );
}
