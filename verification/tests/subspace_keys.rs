use fdb_tuple::{Subspace, UnpackError};

#[test]
fn subspace() {
    let s1 = Subspace::new(&("entities",));
    let s2 = Subspace::new(&("entities", 356));
    let s3 = Subspace::new(&("entities", 789));

    let k1 = s1.pack(&(356, "state"));
    assert!(s1.contains(&k1));
    assert!(s2.contains(&k1));
    assert!(!s3.contains(&k1));

    let (eid, field): (i32, String) = s1.unpack(&k1).unwrap();
    assert_eq!(eid, 356);
    assert_eq!(field, "state");

    let (field,): (String,) = s2.unpack(&k1).unwrap();
    assert_eq!(field, "state");

    let r: Result<(String,), _> = s3.unpack(&k1);
    assert_eq!(r, Err(UnpackError::MissingPrefix));

    let s4 = s1.subspace(&(356,));
    assert_eq!(s2.key(), s4.key());
    assert_eq!(s4.pack(&()), s2.pack(&()));
}

#[test]
fn subspace_unpack_wider_types() {
    let s1 = Subspace::new(&("entities",));
    let k1 = s1.pack(&(356, "state"));
    let (eid, field): (i64, String) = s1.unpack(&k1).unwrap();
    assert_eq!(eid, 356);
    assert_eq!(field, "state");
}

#[test]
fn subspace_pack_layout() {
    let s = Subspace::new(&("a",));
    let k = s.pack(&(1,));
    // prefix = encoding of ("a",), then the top-level encoding of (1,)
    assert_eq!(&k[..], &[0x02, b'a', 0x00, 0x15, 0x01]);
    assert!(k.starts_with(s.key()));
}

#[test]
fn subspace_trailing_data() {
    let s = Subspace::new(&("a",));
    let mut k = s.pack(&(1,));
    k.push(0x14);
    let r: Result<(i64,), _> = s.unpack(&k);
    assert_eq!(r, Err(UnpackError::TrailingData));
}

#[test]
fn subspace_missing_prefix_short_input() {
    let s = Subspace::new(&("abcdef",));
    let r: Result<(i64,), _> = s.unpack(&[0x02]);
    assert_eq!(r, Err(UnpackError::MissingPrefix));
}

#[test]
fn subspace_range_brackets() {
    let s = Subspace::new(&("entities",));
    let (lo, hi) = s.range(&(356,));
    let packed = s.pack(&(356,));
    let mut want_lo = packed.clone();
    want_lo.push(0x00);
    let mut want_hi = packed.clone();
    want_hi.push(0xFF);
    assert_eq!(lo, want_lo);
    assert_eq!(hi, want_hi);

    // a key under (356,) lies inside the half-open interval
    let k = s.pack(&(356, "state"));
    assert!(lo[..] <= k[..]);
    assert!(k[..] < hi[..]);

    // a key under a sibling tuple lies outside
    let other = s.pack(&(789, "state"));
    assert!(other[..] >= hi[..] || other[..] < lo[..]);
}
