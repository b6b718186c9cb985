use std::fmt::Debug;

use fdb_tuple::tuple::float::{pack_f32_bits, pack_f64_bits, unpack_f32_bits, unpack_f64_bits};
use fdb_tuple::{KeySelector, Pack, Unpack, UnpackError};

fn encode<T: Pack>(v: &T) -> Vec<u8> {
    let mut buf = Vec::new();
    v.pack(&mut buf, false);
    buf
}

fn assert_round_trip<T>(in_val: T)
where
    T: Pack + Unpack + Debug + PartialEq,
{
    let buf = encode(&in_val);
    let (out_val, rest) = T::unpack(&buf, false).unwrap();
    assert_eq!(in_val, out_val);
    assert!(rest.is_empty());
}

#[test]
fn escaping_round_trip_exact() {
    let v: Vec<u8> = vec![0x00, 0x01];
    let buf = encode(&v);
    assert_eq!(&buf[..], &[0x01, 0x00, 0xFF, 0x01, 0x00]);
    assert_round_trip(v);
}

#[test]
fn escaping_edge_contents() {
    assert_round_trip::<Vec<u8>>(vec![]);
    assert_round_trip(vec![0x00u8]);
    assert_round_trip(vec![0x00u8, 0x00, 0x00]);
    assert_round_trip(vec![0xFFu8, 0x00, 0xFF]);
    assert_round_trip(vec![0x00u8, 0xFF, 0x00]);
}

#[test]
fn nested_tuple_truncated_terminator() {
    let buf = encode(&(1, (2, 3)));
    // drop the nested tuple's trailing terminator byte
    let cut = &buf[..buf.len() - 1];
    let r = <(i32, (i32, i32)) as Unpack>::unpack(cut, false);
    assert_eq!(r, Err(UnpackError::OutOfData));
}

#[test]
fn nested_tuple_wrong_wrapper() {
    // a bool where a nested tuple is expected
    let buf = encode(&(1, true));
    let r = <(i32, (i32, i32)) as Unpack>::unpack(&buf, false);
    assert_eq!(r, Err(UnpackError::WrongCode));
}

#[test]
fn deep_nesting_round_trip() {
    assert_round_trip(((1u8, -2i16), ((3i32, (4i64,)), true)));
    assert_round_trip(());
    assert_round_trip(((),));
    assert_round_trip((1u64, "abc".to_string(), vec![0u8, 1, 2], false, Some(7i32)));
    assert_round_trip((1i8, 2i16, 3i32, 4i64, 5u8, 6u16, 7u32, 8u64));
}

#[test]
fn order_preserved_integers() {
    let fixed: Vec<i64> = vec![
        i64::MIN,
        i64::MIN + 1,
        -314159265,
        -65536,
        -256,
        -255,
        -2,
        -1,
        0,
        1,
        2,
        255,
        256,
        65535,
        123456789,
        i64::MAX - 1,
        i64::MAX,
    ];
    for a in &fixed {
        for b in &fixed {
            let (ea, eb) = (encode(a), encode(b));
            assert_eq!(a < b, ea < eb, "order broken for {} vs {}", a, b);
        }
    }
    for _ in 0..10000 {
        let a = rand::random::<i64>();
        let b = rand::random::<i64>();
        let (ea, eb) = (encode(&a), encode(&b));
        assert_eq!(a < b, ea < eb, "order broken for {} vs {}", a, b);
    }
    for _ in 0..10000 {
        let a = rand::random::<u64>();
        let b = rand::random::<u64>();
        let (ea, eb) = (encode(&a), encode(&b));
        assert_eq!(a < b, ea < eb, "order broken for {} vs {}", a, b);
    }
}

#[test]
fn order_preserved_bytes() {
    let fixed: Vec<Vec<u8>> = vec![
        vec![],
        vec![0x00],
        vec![0x00, 0x00],
        vec![0x00, 0x01],
        vec![0x01],
        vec![0x01, 0x00],
        vec![0xFE],
        vec![0xFF],
        vec![0xFF, 0x00],
    ];
    for a in &fixed {
        for b in &fixed {
            let (ea, eb) = (encode(a), encode(b));
            assert_eq!(a < b, ea < eb, "order broken for {:?} vs {:?}", a, b);
        }
    }
    for _ in 0..10000 {
        let na: usize = rand::random_range(0..8);
        let nb: usize = rand::random_range(0..8);
        let a = (0..na).map(|_| rand::random_range(0..4u8)).collect::<Vec<u8>>();
        let b = (0..nb).map(|_| rand::random_range(0..4u8)).collect::<Vec<u8>>();
        let (ea, eb) = (encode(&a), encode(&b));
        assert_eq!(a < b, ea < eb, "order broken for {:?} vs {:?}", a, b);
    }
}

#[test]
fn order_preserved_strings_and_bools() {
    let words = ["", "a", "aa", "ab", "b", "entities", "entity", "state"];
    for a in &words {
        for b in &words {
            let (ea, eb) = (encode(a), encode(b));
            assert_eq!(a < b, ea < eb, "order broken for {:?} vs {:?}", a, b);
        }
    }
    assert!(encode(&false) < encode(&true));
}

#[test]
fn error_variants() {
    assert_eq!(<bool as Unpack>::unpack(&[], false), Err(UnpackError::OutOfData));
    assert_eq!(<bool as Unpack>::unpack(&[0x99], false), Err(UnpackError::WrongCode));
    assert_eq!(<i64 as Unpack>::unpack(&[0x15], false), Err(UnpackError::OutOfData));
    assert_eq!(<u64 as Unpack>::unpack(&[0x13, 0xfe], false), Err(UnpackError::WrongCode));

    // a decoded value that does not fit the requested width
    let buf = encode(&1000i64);
    assert_eq!(<i8 as Unpack>::unpack(&buf, false), Err(UnpackError::OutOfRange));
    let buf = encode(&300u64);
    assert_eq!(<u8 as Unpack>::unpack(&buf, false), Err(UnpackError::OutOfRange));
    let buf = encode(&(u64::MAX));
    assert_eq!(<i64 as Unpack>::unpack(&buf, false), Err(UnpackError::OutOfRange));

    // recovered content that is not UTF-8 where a string was expected
    let r = <String as Unpack>::unpack(&[0x02, 0xFF, 0x00], false);
    assert_eq!(r, Err(UnpackError::BadEncoding));

    // reserved codes for 9+ byte magnitudes are rejected, not truncated
    assert_eq!(<i64 as Unpack>::unpack(&[0x0b], false), Err(UnpackError::WrongCode));
    assert_eq!(<i64 as Unpack>::unpack(&[0x1d], false), Err(UnpackError::WrongCode));
}

#[test]
fn integer_width_narrowing() {
    let buf = encode(&123i64);
    let (v, rest) = <i8 as Unpack>::unpack(&buf, false).unwrap();
    assert_eq!(v, 123i8);
    assert!(rest.is_empty());
    let buf = encode(&-129i64);
    assert_eq!(<i8 as Unpack>::unpack(&buf, false), Err(UnpackError::OutOfRange));
    assert_round_trip(i8::MIN);
    assert_round_trip(i8::MAX);
    assert_round_trip(i16::MIN);
    assert_round_trip(i16::MAX);
    assert_round_trip(i32::MIN);
    assert_round_trip(i32::MAX);
    assert_round_trip(u8::MAX);
    assert_round_trip(u16::MAX);
    assert_round_trip(u32::MAX);
}

#[test]
fn float_bits_round_trip_and_order() {
    let values32 = [
        f32::NEG_INFINITY,
        f32::MIN,
        -1.5f32,
        -f32::MIN_POSITIVE,
        -0.0f32,
        0.0f32,
        f32::MIN_POSITIVE,
        1.5f32,
        f32::MAX,
        f32::INFINITY,
    ];
    for v in &values32 {
        let mut buf = Vec::new();
        pack_f32_bits(v.to_bits(), &mut buf);
        let (bits, rest) = unpack_f32_bits(&buf).unwrap();
        assert_eq!(bits, v.to_bits());
        assert!(rest.is_empty());
    }
    for pair in values32.windows(2) {
        if pair[0] < pair[1] {
            let mut ea = Vec::new();
            let mut eb = Vec::new();
            pack_f32_bits(pair[0].to_bits(), &mut ea);
            pack_f32_bits(pair[1].to_bits(), &mut eb);
            assert!(ea < eb, "order broken for {} vs {}", pair[0], pair[1]);
        }
    }
    let values64 = [f64::NEG_INFINITY, -2.5f64, -0.0f64, 0.0f64, 2.5f64, f64::INFINITY];
    for v in &values64 {
        let mut buf = Vec::new();
        pack_f64_bits(v.to_bits(), &mut buf);
        let (bits, rest) = unpack_f64_bits(&buf).unwrap();
        assert_eq!(bits, v.to_bits());
        assert!(rest.is_empty());
    }
    for pair in values64.windows(2) {
        if pair[0] < pair[1] {
            let mut ea = Vec::new();
            let mut eb = Vec::new();
            pack_f64_bits(pair[0].to_bits(), &mut ea);
            pack_f64_bits(pair[1].to_bits(), &mut eb);
            assert!(ea < eb, "order broken for {} vs {}", pair[0], pair[1]);
        }
    }
}

#[test]
fn option_encoding() {
    let none_val: Option<i32> = None;
    assert_eq!(&encode(&none_val)[..], &[0x00]);
    assert_eq!(&encode(&Some(1i32))[..], &[0x15, 0x01]);
}

#[test]
fn key_selectors() {
    let k = b"key";
    let s = KeySelector::last_less_than(k);
    assert!(!s.equal);
    assert_eq!(s.offset, 0);
    let s = KeySelector::last_less_or_equal(k);
    assert!(s.equal);
    assert_eq!(s.offset, 0);
    let s = KeySelector::first_greater_than(k);
    assert!(s.equal);
    assert_eq!(s.offset, 1);
    let s = KeySelector::first_greater_or_equal(k);
    assert!(!s.equal);
    assert_eq!(s.offset, 1);
    assert_eq!(s.key, k);
}

#[test]
fn uuid_parse_and_layout() {
    let u = fdb_tuple::tuple::uuid::Uuid::parse_str("0436430c-2b02-624c-2032-570501212b57")
        .unwrap();
    assert_eq!(u.hi, 0x0436430c2b02624c);
    assert_eq!(u.lo, 0x2032570501212b57);
    let buf = encode(&u);
    assert_eq!(buf[0], 0x30);
    assert_eq!(buf.len(), 17);
    assert_eq!(&buf[1..9], &0x0436430c2b02624cu64.to_be_bytes());
    assert!(fdb_tuple::tuple::uuid::Uuid::parse_str("0436430c").is_none());
    assert!(fdb_tuple::tuple::uuid::Uuid::parse_str(
        "0436430c-2b02-624c-2032-570501212b5g"
    )
    .is_none());
}
