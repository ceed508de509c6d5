use varint::zigzag::{unzigzag, zigzag};

#[test]
fn zigzag_interleaves_the_signs() {
    assert_eq!(zigzag(0), 0);
    assert_eq!(zigzag(-1), 1);
    assert_eq!(zigzag(1), 2);
    assert_eq!(zigzag(-2), 3);
    assert_eq!(zigzag(2), 4);
    assert_eq!(zigzag(-300), 599);
    assert_eq!(zigzag(300), 600);
}

#[test]
fn zigzag_of_the_extremes() {
    assert_eq!(zigzag(i64::MAX), (u64::MAX as u128) - 1);
    assert_eq!(zigzag(i64::MIN), u64::MAX as u128);
    assert_eq!(zigzag(i16::MIN as i64), 0xFFFF);
    assert_eq!(zigzag(i32::MIN as i64), 0xFFFF_FFFF);
}

#[test]
fn unzigzag_maps_back() {
    assert_eq!(unzigzag(0), 0);
    assert_eq!(unzigzag(1), -1);
    assert_eq!(unzigzag(2), 1);
    assert_eq!(unzigzag(3), -2);
    assert_eq!(unzigzag(4), 2);
    assert_eq!(unzigzag(599), -300);
    assert_eq!(unzigzag(600), 300);
    assert_eq!(unzigzag(u64::MAX as u128), i64::MIN as i128);
}

#[test]
fn unzigzag_undoes_zigzag() {
    let samples: [i64; 9] = [0, 1, -1, 63, -64, 64, -65, i64::MAX, i64::MIN];
    for value in samples {
        assert_eq!(unzigzag(zigzag(value)), value as i128);
    }
}

#[test]
fn zigzag_orders_by_distance_from_zero() {
    let mut distance: i64 = 1;
    while distance < 1000 {
        assert!(zigzag(distance - 1) < zigzag(-distance));
        assert!(zigzag(-(distance - 1)) < zigzag(-distance));
        assert!(zigzag(-distance) < zigzag(distance));
        distance += 1;
    }
}

#[test]
fn unzigzag_works_in_a_signed_accumulator() {
    // With the top bit set the 128 bits are a negative number.
    assert_eq!(unzigzag(u128::MAX), 0);
    assert_eq!(unzigzag(u128::MAX - 1), -1);
    assert_eq!(unzigzag(1 << 127), i128::MIN >> 1);
    assert_eq!(unzigzag((1 << 127) - 1), -(1 << 126));
    assert_eq!(unzigzag((1 << 127) - 2), (1 << 126) - 1);
}
