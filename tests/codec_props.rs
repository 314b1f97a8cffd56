use byte_codec::builder::ByteBuilder;
use byte_codec::reader::ByteReader;
use byte_codec::traits::BytesTrait;
use byte_codec::S;

#[test]
fn small_unsigned_round_trip() {
    let mut b = ByteBuilder::new();
    b.push_u8(1);
    b.push_u16(2);
    b.push_u32(3);
    let mut r = ByteReader::new(&b.bytes);
    assert_eq!(r.read_u8(), Some(1));
    assert_eq!(r.read_u16(), Some(2));
    assert_eq!(r.read_u32(), Some(3));
    assert_eq!(r.remaining(), 0);
}

#[test]
fn len_prefixed_hello_takes_thirteen_bytes() {
    let mut b = ByteBuilder::new();
    b.push_len_prefixed_str("Hello");
    assert_eq!(b.bytes.len(), 13);
    let mut r = ByteReader::new(&b.bytes);
    assert_eq!(r.read_len_prefixed_str(), Some("Hello".to_string()));
    assert_eq!(r.pos, 13);
    assert_eq!(r.remaining(), 0);
}

#[test]
fn short_read_leaves_cursor() {
    let data = [0x34u8, 0x12];
    let mut r = ByteReader::new(&data);
    assert_eq!(r.read_u32(), None);
    assert_eq!(r.pos, 0);
    assert_eq!(r.read_u32(), None);
    assert_eq!(r.read_u16(), Some(0x1234));
    assert_eq!(r.remaining(), 0);
}

#[test]
fn every_fixed_read_refuses_short_input() {
    let data = [0xffu8; 15];
    let mut r = ByteReader::new(&data[..0]);
    assert_eq!(r.read_u8(), None);
    assert_eq!(r.read_i8(), None);
    assert_eq!(r.read_bool(), None);
    let mut r = ByteReader::new(&data[..1]);
    assert_eq!(r.read_u16(), None);
    assert_eq!(r.read_i16(), None);
    let mut r = ByteReader::new(&data[..3]);
    assert_eq!(r.read_u32(), None);
    assert_eq!(r.read_i32(), None);
    let mut r = ByteReader::new(&data[..7]);
    assert_eq!(r.read_u64(), None);
    assert_eq!(r.read_i64(), None);
    let mut r = ByteReader::new(&data[..15]);
    assert_eq!(r.read_u128(), None);
    assert_eq!(r.read_i128(), None);
    assert_eq!(r.pos, 0);
    assert_eq!(r.read_str(16), None);
    assert_eq!(r.read_bytes(16), None);
    assert!(!r.skip(16));
    assert_eq!(r.remaining(), 15);
}

#[test]
fn little_endian_layout() {
    let mut b = ByteBuilder::new();
    b.push_u32(0x0102_0304);
    b.push_i16(-2);
    b.push_bool(false);
    b.push_bool(true);
    assert_eq!(b.bytes, vec![4, 3, 2, 1, 0xfe, 0xff, 0, 1]);
}

#[test]
fn extremes_round_trip() {
    let mut b = ByteBuilder::new();
    b.push_u8(u8::MAX);
    b.push_u16(u16::MAX);
    b.push_u32(u32::MAX);
    b.push_u64(u64::MAX);
    b.push_u128(u128::MAX);
    b.push_i8(i8::MIN);
    b.push_i16(i16::MIN);
    b.push_i32(i32::MIN);
    b.push_i64(i64::MIN);
    b.push_i128(i128::MIN);
    b.push_i8(i8::MAX);
    b.push_i128(i128::MAX);
    b.push_bool(false);
    assert_eq!(b.as_slice().len(), 1 + 2 + 4 + 8 + 16 + 1 + 2 + 4 + 8 + 16 + 1 + 16 + 1);
    let mut r = ByteReader::new(b.as_slice());
    assert_eq!(r.read_u8(), Some(u8::MAX));
    assert_eq!(r.read_u16(), Some(u16::MAX));
    assert_eq!(r.read_u32(), Some(u32::MAX));
    assert_eq!(r.read_u64(), Some(u64::MAX));
    assert_eq!(r.read_u128(), Some(u128::MAX));
    assert_eq!(r.read_i8(), Some(i8::MIN));
    assert_eq!(r.read_i16(), Some(i16::MIN));
    assert_eq!(r.read_i32(), Some(i32::MIN));
    assert_eq!(r.read_i64(), Some(i64::MIN));
    assert_eq!(r.read_i128(), Some(i128::MIN));
    assert_eq!(r.read_i8(), Some(i8::MAX));
    assert_eq!(r.read_i128(), Some(i128::MAX));
    assert_eq!(r.read_bool(), Some(false));
    assert_eq!(r.remaining(), 0);
}

#[test]
fn nonzero_byte_reads_true() {
    let data = [0u8, 2, 255];
    let mut r = ByteReader::new(&data);
    assert_eq!(r.read_bool(), Some(false));
    assert_eq!(r.read_bool(), Some(true));
    assert_eq!(r.read_bool(), Some(true));
    assert_eq!(r.read_bool(), None);
}

#[test]
fn order_is_kept() {
    let mut b = ByteBuilder::new();
    for v in [7u16, 300, 65535, 0] {
        b.push_u16(v);
    }
    let mut r = ByteReader::new(&b.bytes);
    assert_eq!(r.read_u16(), Some(7));
    assert_eq!(r.read_u16(), Some(300));
    assert_eq!(r.read_u16(), Some(65535));
    assert_eq!(r.read_u16(), Some(0));
    assert_eq!(r.read_u16(), None);
}

#[test]
fn truncated_len_prefixed_moves_nothing() {
    let mut b = ByteBuilder::new();
    b.push_u64(5);
    b.push_bytes(&[1, 2, 3]);
    let mut r = ByteReader::new(&b.bytes);
    assert_eq!(r.read_len_prefixed_bytes(), None);
    assert_eq!(r.pos, 0);
    assert_eq!(r.read_len_prefixed_str(), None);
    assert_eq!(r.pos, 0);
    assert_eq!(r.read_u64(), Some(5));
}

#[test]
fn missing_length_field_fails() {
    let data = [1u8, 0, 0];
    let mut r = ByteReader::new(&data);
    assert_eq!(r.read_len_prefixed_str(), None);
    assert_eq!(r.read_len_prefixed_bytes(), None);
    assert_eq!(r.remaining(), 3);
}

#[test]
fn huge_declared_length_fails() {
    let mut b = ByteBuilder::new();
    b.push_u64(u64::MAX);
    b.push_u8(1);
    let mut r = ByteReader::new(&b.bytes);
    assert_eq!(r.read_len_prefixed_bytes(), None);
    assert_eq!(r.remaining(), 9);
}

#[test]
fn reset_replays_reads() {
    let mut b = ByteBuilder::new();
    b.with_u32(9).with_i8(-3);
    let mut r = ByteReader::new(&b.bytes);
    let first = (r.read_u32(), r.read_i8(), r.read_u8());
    r.reset();
    assert_eq!(r.pos, 0);
    let again = (r.read_u32(), r.read_i8(), r.read_u8());
    assert_eq!(first, (Some(9), Some(-3), None));
    assert_eq!(first, again);
}

#[test]
fn invalid_utf8_is_replaced() {
    let data = [b'a', 0xff, b'b'];
    let mut r = ByteReader::new(&data);
    assert_eq!(r.read_str(3), Some("a\u{FFFD}b".to_string()));
    assert_eq!(r.remaining(), 0);
}

#[test]
fn text_round_trip_keeps_multibyte() {
    let mut b = ByteBuilder::new();
    b.push_len_prefixed_str("héllo ✓");
    b.push_str("zß");
    let mut r = ByteReader::new(&b.bytes);
    assert_eq!(r.read_len_prefixed_str(), Some("héllo ✓".to_string()));
    assert_eq!(r.read_str(3), Some("zß".to_string()));
    assert_eq!(r.remaining(), 0);
}

#[test]
fn skip_and_read_bytes() {
    let data = [1u8, 2, 3, 4, 5];
    let mut r = ByteReader::new(&data);
    assert!(r.skip(2));
    assert_eq!(r.read_bytes(2), Some(vec![3, 4]));
    assert!(!r.skip(2));
    assert_eq!(r.remaining(), 1);
    assert!(r.skip(1));
    assert_eq!(r.remaining(), 0);
}

#[test]
fn record_round_trip() {
    let v = S {
        str: "abc".to_string(),
        val: -7,
    };
    let bytes = v.to_bytes();
    assert_eq!(bytes.len(), 8 + 3 + 4);
    assert_eq!(v.byte_size(), 15);
    let back = S::from_bytes(&bytes).unwrap();
    assert_eq!(back.byte_size(), bytes.len());
    assert_eq!(back, v);
}

#[test]
fn record_read_moves_by_its_size() {
    let mut b = ByteBuilder::new();
    b.with(S {
        str: "xy".to_string(),
        val: 5,
    })
    .with_u8(9);
    let mut r = ByteReader::new(&b.bytes);
    assert_eq!(
        r.read::<S>(),
        Some(S {
            str: "xy".to_string(),
            val: 5
        })
    );
    assert_eq!(r.pos, 14);
    assert_eq!(r.read_u8(), Some(9));
}

#[test]
fn truncated_record_is_refused() {
    let v = S {
        str: "abc".to_string(),
        val: 1,
    };
    let bytes = v.to_bytes();
    assert_eq!(S::from_bytes(&bytes[..14]), None);
    let mut r = ByteReader::new(&bytes[..14]);
    assert_eq!(r.read::<S>(), None);
    assert_eq!(r.pos, 0);
}

#[test]
fn fluent_matches_plain() {
    let mut a = ByteBuilder::with_capacity(64);
    a.with_u8(1)
        .with_u16(2)
        .with_u32(3)
        .with_u64(4)
        .with_u128(5)
        .with_i8(-1)
        .with_i16(-2)
        .with_i32(-3)
        .with_i64(-4)
        .with_i128(-5)
        .with_bool(true)
        .with_str("hi")
        .with_bytes(&[7, 8])
        .with_len_prefixed_str("ok")
        .with_len_prefixed_bytes(&[9])
        .with_asref(&[10]);
    let mut b = ByteBuilder::new();
    b.push_u8(1);
    b.push_u16(2);
    b.push_u32(3);
    b.push_u64(4);
    b.push_u128(5);
    b.push_i8(-1);
    b.push_i16(-2);
    b.push_i32(-3);
    b.push_i64(-4);
    b.push_i128(-5);
    b.push_bool(true);
    b.push_str("hi");
    b.push_bytes(&[7, 8]);
    b.push_len_prefixed_str("ok");
    b.push_len_prefixed_bytes(&[9]);
    b.push_asref(&[10]);
    assert_eq!(a.bytes, b.bytes);
}

#[test]
fn builder_from_existing_bytes() {
    let mut a = ByteBuilder::from(vec![1u8, 2]);
    a.push_u8(3);
    assert_eq!(a.bytes, vec![1, 2, 3]);
    let data = [4u8, 5];
    let mut b = ByteBuilder::from(&data[..]);
    b.push_u8(6);
    assert_eq!(b.as_slice(), &[4, 5, 6]);
}
