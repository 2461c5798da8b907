use babel_kad::distance::Distance;
use babel_kad::kad_id::KadID;

fn id_with(first: u8) -> KadID {
    let mut bytes = [0u8; 20];
    bytes[0] = first;
    KadID::new(bytes)
}

#[test]
fn distance_is_symmetric() {
    let a = KadID::new([0x12; 20]);
    let b = KadID::new([0xf0; 20]);
    assert_eq!(a.distance(&b).0, b.distance(&a).0);
    assert_eq!(a.distance(&b).0, [0xe2; 20]);
    assert_eq!(Distance::from_ids(&a, &b).0, [0xe2; 20]);
}

#[test]
fn distance_to_self_is_zero() {
    let a = KadID::new([0x5a; 20]);
    assert_eq!(a.distance(&a).0, [0u8; 20]);
    assert!(a.distance(&a).is_zero());
    let b = id_with(1);
    assert!(!a.distance(&b).is_zero());
}

#[test]
fn distance_zero_only_for_equal_ids() {
    let a = id_with(7);
    let mut other = [0u8; 20];
    other[0] = 7;
    other[19] = 1;
    let b = KadID::new(other);
    assert!(!a.distance(&b).is_zero());
    assert!(!a.same(&b));
    assert!(a.same(&id_with(7)));
}

#[test]
fn cpl_of_id_with_itself_is_160() {
    let a = KadID::new([0xab; 20]);
    assert_eq!(a.cpl(&a), 160);
    assert_eq!(KadID::zero().cpl(&KadID::zero()), 160);
}

#[test]
fn cpl_counts_leading_shared_bits() {
    let zero = KadID::zero();
    assert_eq!(zero.cpl(&id_with(0x80)), 0);
    assert_eq!(zero.cpl(&id_with(0x40)), 1);
    assert_eq!(zero.cpl(&id_with(0x20)), 2);
    assert_eq!(zero.cpl(&id_with(0x01)), 7);
    let mut bytes = [0u8; 20];
    bytes[1] = 0x10;
    assert_eq!(zero.cpl(&KadID::new(bytes)), 11);
    let mut last = [0u8; 20];
    last[19] = 1;
    assert_eq!(zero.cpl(&KadID::new(last)), 159);
}

#[test]
fn with_cpl_flips_exactly_one_bit() {
    let base = KadID::new([0xff; 20]);
    let fill = KadID::new([0x11; 20]);
    let made = KadID::with_cpl(&base, fill, 11);
    let mut expected = [0x11u8; 20];
    expected[0] = 0xff;
    expected[1] = 0xff ^ 0x10;
    assert_eq!(made.0, expected);
    assert_eq!(base.cpl(&made), 11);
}

#[test]
fn random_with_cpl_has_requested_cpl() {
    let base = KadID::new([0x3c; 20]);
    for cpl in [0u32, 1, 7, 8, 9, 63, 64, 100, 159] {
        let made = KadID::random_with_cpl(&base, cpl);
        assert_eq!(base.cpl(&made), cpl);
    }
}

#[test]
fn random_ids_differ() {
    let a = KadID::random();
    let b = KadID::random();
    assert_ne!(a.0, [0u8; 20]);
    assert_ne!(a.0, b.0);
}

#[test]
fn distance_orders_as_big_endian_number() {
    let mut small = [0u8; 20];
    small[19] = 0xff;
    let mut big = [0u8; 20];
    big[18] = 0x01;
    let s = Distance::new(small);
    let b = Distance::new(big);
    assert!(s.lt(&b));
    assert!(!b.lt(&s));
    assert!(!s.lt(&s));
    assert!(s.same(&Distance::new(small)));
    assert!(!s.same(&b));
}
