use bincode_core::{Bounded, CountSize, Infinite, LimitOption, U16, U32, U64, U8};

#[test]
fn bounded_adds_within_budget() {
    let mut b = Bounded(10);
    assert!(b.add(3).is_ok());
    assert_eq!(b.0, 7);
    assert!(b.add(7).is_ok());
    assert_eq!(b.0, 0);
    assert!(b.add(0).is_ok());
    assert_eq!(b.limit(), Some(0));
}

#[test]
fn bounded_fails_at_first_crossing_and_stays_exhausted() {
    let mut b = Bounded(5);
    assert!(b.add(3).is_ok());
    let e = b.add(4).unwrap_err();
    assert!(matches!(*e, bincode_core::ErrorKind::SizeLimit));
    assert_eq!(b.0, 0);
    // even a chunk that once fit is refused after the crossing
    let e2 = b.add(1).unwrap_err();
    assert!(matches!(*e2, bincode_core::ErrorKind::SizeLimit));
    assert_eq!(b.0, 0);
}

#[test]
fn infinite_accepts_everything_and_reports_no_bound() {
    let mut inf = Infinite;
    assert!(inf.add(0).is_ok());
    assert!(inf.add(u64::MAX).is_ok());
    assert_eq!(inf.limit(), None);
}

#[test]
fn limit_option_meters_like_its_strategy() {
    let mut l = LimitOption::Limited(4);
    assert!(l.add(4).is_ok());
    assert!(l.add(1).is_err());
    assert_eq!(l.limit(), Some(0));
    let mut u = LimitOption::Unlimited;
    assert!(u.add(u64::MAX).is_ok());
    assert_eq!(u.limit(), None);
}

#[test]
fn count_size_accumulates_and_forwards() {
    let mut cs = CountSize { total: 0, other_limit: LimitOption::Limited(10) };
    assert!(cs.add(6).is_ok());
    assert!(cs.add(4).is_ok());
    assert_eq!(cs.total, 10);
    assert!(cs.add(1).is_err());
    assert_eq!(cs.total, 10);
}

#[test]
fn count_size_total_is_held_in_64_bits() {
    let mut cs = CountSize { total: u64::MAX - 1, other_limit: LimitOption::Unlimited };
    let e = cs.add(5).unwrap_err();
    assert!(matches!(*e, bincode_core::ErrorKind::SizeLimit));
    assert_eq!(cs.total, u64::MAX - 1);
}

#[test]
fn size_type_conversions_round_trip() {
    assert_eq!(U64::decode_len(U64::encode_len(123_456).unwrap()), 123_456);
    assert_eq!(U32::decode_len(U32::encode_len(70_000).unwrap()), 70_000);
    assert_eq!(U16::decode_len(U16::encode_len(65_535).unwrap()), 65_535);
    assert_eq!(U8::decode_len(U8::encode_len(255).unwrap()), 255);
}

#[test]
fn size_type_conversions_refuse_overflow() {
    let e = U16::encode_len(65_536).unwrap_err();
    assert!(matches!(*e, bincode_core::ErrorKind::SizeTypeLimit));
    let e = U8::encode_len(256).unwrap_err();
    assert!(matches!(*e, bincode_core::ErrorKind::SizeTypeLimit));
    let e = U32::encode_len(u32::MAX as usize + 1).unwrap_err();
    assert!(matches!(*e, bincode_core::ErrorKind::SizeTypeLimit));
}
