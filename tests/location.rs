use caxton::location::{Location, COORD_LIMIT, INVALID_PACKED, PAGE_LIMIT};

#[test]
fn location_fields_round_trip() {
    let l = Location::new(1, 2, 3, 4, 5);
    assert_eq!(l.x(), 1);
    assert_eq!(l.y(), 2);
    assert_eq!(l.width(), 3);
    assert_eq!(l.height(), 4);
    assert_eq!(l.page_index(), 5);
}

#[test]
fn location_packing_layout() {
    let l = Location::new(1, 2, 3, 4, 5);
    assert_eq!(l.packed(), 1 | (2 << 13) | (3 << 26) | (4 << 39) | (5 << 52));
}

#[test]
fn location_largest_fields() {
    let l = Location::new(COORD_LIMIT - 1, 0, COORD_LIMIT - 1, 0, PAGE_LIMIT - 1);
    assert_eq!(l.x(), 8191);
    assert_eq!(l.y(), 0);
    assert_eq!(l.width(), 8191);
    assert_eq!(l.height(), 0);
    assert_eq!(l.page_index(), 4095);
    assert!(!l.is_invalid_location());
}

#[test]
fn location_invalid_sentinel() {
    let l = Location::invalid();
    assert_eq!(l.packed(), u64::MAX);
    assert_eq!(l.packed(), INVALID_PACKED);
    assert!(l.is_invalid_location());
    assert_eq!(l.x(), 8191);
    assert_eq!(l.page_index(), 4095);
}

#[test]
fn location_zero() {
    let z = Location::zero();
    assert_eq!(z.packed(), 0);
    assert_eq!(z, Location::new(0, 0, 0, 0, 0));
    assert!(!z.is_invalid_location());
}

#[test]
fn location_from_packed() {
    let l = Location::new(100, 200, 300, 400, 7);
    assert_eq!(Location::from_packed(l.packed()), l);
}
