use std::fmt::Debug;

use fdb_tuple::tuple::uuid::Uuid;
use fdb_tuple::{Pack, Unpack};

fn test_pack<T>(in_val: T, buf: &mut Vec<u8>, out_val: &[u8])
where
    T: Pack,
{
    buf.clear();
    T::pack(&in_val, buf, false);
    assert_eq!(&buf[..], out_val);
}

fn test_pack_unpack<T>(in_val: T, buf: &mut Vec<u8>)
where
    T: Pack + Unpack + Debug + PartialEq,
{
    buf.clear();
    T::pack(&in_val, buf, false);
    let (out_val, rest) = T::unpack(buf, false).unwrap();
    assert_eq!(in_val, out_val);
    assert!(rest.is_empty());
}

#[test]
fn test_pack_unpack_bool() {
    let mut buf = Vec::new();
    test_pack_unpack(false, &mut buf);
    test_pack_unpack(true, &mut buf);
}

#[test]
fn test_pack_int() {
    let mut buf = Vec::new();
    test_pack(-314159265i64, &mut buf, &[0x10, 0xed, 0x46, 0x4f, 0x5e]);
    test_pack(-2i64, &mut buf, &[0x13, 0xfd]);
    test_pack(-1i64, &mut buf, &[0x13, 0xfe]);
    test_pack(0i64, &mut buf, &[0x14]);
    test_pack(1i64, &mut buf, &[0x15, 0x01]);
    test_pack(2i64, &mut buf, &[0x15, 0x02]);
    test_pack(123i64, &mut buf, &[0x15, 0x7b]);
    test_pack(123456789i64, &mut buf, &[0x18, 0x07, 0x5b, 0xcd, 0x15]);
    test_pack(
        i64::MIN,
        &mut buf,
        &[0x0c, 0x7f, 0xff, 0xff, 0xff, 0xff, 0xff, 0xff, 0xff],
    );
    test_pack(
        i64::MAX,
        &mut buf,
        &[0x1c, 0x7f, 0xff, 0xff, 0xff, 0xff, 0xff, 0xff, 0xff],
    );
}

#[test]
fn test_pack_uint() {
    let mut buf = Vec::new();
    test_pack(0u64, &mut buf, &[0x14]);
    test_pack(1u64, &mut buf, &[0x15, 0x01]);
    test_pack(2u64, &mut buf, &[0x15, 0x02]);
    test_pack(123u64, &mut buf, &[0x15, 0x7b]);
    test_pack(123456789u64, &mut buf, &[0x18, 0x07, 0x5b, 0xcd, 0x15]);
    test_pack(
        i64::MAX as u64,
        &mut buf,
        &[0x1c, 0x7f, 0xff, 0xff, 0xff, 0xff, 0xff, 0xff, 0xff],
    );
    test_pack(
        u64::MAX - 1,
        &mut buf,
        &[0x1c, 0xff, 0xff, 0xff, 0xff, 0xff, 0xff, 0xff, 0xfe],
    );
    test_pack(
        u64::MAX,
        &mut buf,
        &[0x1c, 0xff, 0xff, 0xff, 0xff, 0xff, 0xff, 0xff, 0xff],
    );
}

#[test]
fn test_pack_unpack_int() {
    let mut buf = Vec::new();
    test_pack_unpack(i64::MIN, &mut buf);
    test_pack_unpack(i64::MIN + 1, &mut buf);
    test_pack_unpack(i64::MAX, &mut buf);
    test_pack_unpack(i64::MAX - 1, &mut buf);
    test_pack_unpack(0, &mut buf);
    test_pack_unpack(1, &mut buf);
    test_pack_unpack(-1, &mut buf);
    for _ in 0..100000 {
        let in_val = rand::random::<i64>();
        test_pack_unpack(in_val, &mut buf);
    }
}

#[test]
fn test_pack_unpack_uint() {
    let mut buf = Vec::new();
    test_pack_unpack(u64::MIN, &mut buf);
    test_pack_unpack(u64::MIN + 1, &mut buf);
    test_pack_unpack(u64::MAX, &mut buf);
    test_pack_unpack(u64::MAX - 1, &mut buf);
    for _ in 0..100000 {
        let in_val = rand::random::<u64>();
        test_pack_unpack(in_val, &mut buf);
    }
}

#[test]
fn test_pack_unpack_bytes() {
    let mut buf = Vec::new();
    for _ in 0..10000 {
        let nbytes: usize = rand::random_range(0..64);
        let in_val = (0..nbytes).map(|_| rand::random::<u8>()).collect::<Vec<u8>>();

        buf.clear();
        Pack::pack(&in_val, &mut buf, false);

        let (out_val, rest) = <Vec<u8> as Unpack>::unpack(&buf, false).unwrap();

        assert_eq!(in_val, out_val);
        assert!(rest.is_empty());
    }
}

#[test]
fn test_pack_unpack_string() {
    let mut buf = Vec::new();
    for _ in 0..10000 {
        let nchars: usize = rand::random_range(0..64);
        let in_val = (0..nchars)
            .map(|_| rand::random_range(b'0'..=b'z') as char)
            .collect::<String>();

        buf.clear();
        Pack::pack(&in_val.as_str(), &mut buf, false);

        let (out_val, rest) = <String as Unpack>::unpack(&buf, false).unwrap();

        assert_eq!(in_val, out_val);
        assert!(rest.is_empty());
    }
}

#[test]
fn test_pack_unpack_option() {
    let mut buf = Vec::new();
    test_pack_unpack(Some(32), &mut buf);
    let none_val: Option<i32> = None;
    test_pack_unpack(none_val, &mut buf);
}

#[test]
fn test_pack_unpack_tuple() {
    let mut buf = Vec::new();
    test_pack_unpack((42, true), &mut buf);
    test_pack_unpack((1, (2, 3)), &mut buf);
}

#[test]
fn test_pack_unpack_uuid() {
    let mut buf = Vec::new();
    let uuid = Uuid::parse_str("0436430c-2b02-624c-2032-570501212b57").unwrap();
    test_pack_unpack(uuid, &mut buf);
}
