use hedgehog::range::{
    bounds, clamp, constant, constant_bounded, constant_from, linear, linear_bounded, linear_from, lower_bound, origin,
    scale_linear, singleton, upper_bound, Size,
};

#[test]
fn range_stub() {
    assert_eq!(1 + 1, 2);
}

#[test]
fn constant_ranges_ignore_the_size() {
    let r = constant_from(5, 0, 10);
    assert_eq!(origin(r), 5);
    assert_eq!(bounds(Size(0), r), (0, 10));
    assert_eq!(bounds(Size(99), r), (0, 10));
    assert_eq!(origin(constant(3, 7)), 3);
    assert_eq!(bounds(Size(50), singleton(4)), (4, 4));
    assert_eq!(bounds(Size(1), constant_bounded()), (i64::MIN, i64::MAX));
}

#[test]
fn lower_and_upper_take_min_and_max() {
    let r = constant(9, 2);
    assert_eq!(lower_bound(Size(0), r), 2);
    assert_eq!(upper_bound(Size(0), r), 9);
}

#[test]
fn scale_linear_rounds_toward_zero() {
    assert_eq!(scale_linear(Size(50), 0, 100), 50);
    assert_eq!(scale_linear(Size(50), 0, -100), -50);
    assert_eq!(scale_linear(Size(99), 10, 20), 20);
    assert_eq!(scale_linear(Size(0), 10, 20), 10);
    assert_eq!(scale_linear(Size(200), 10, 20), 20);
    assert_eq!(scale_linear(Size(-3), 10, 20), 10);
    assert_eq!(scale_linear(Size(99), i64::MIN, i64::MAX), i64::MAX);
}

#[test]
fn clamp_works_in_either_order() {
    assert_eq!(clamp(0, 10, 15), 10);
    assert_eq!(clamp(10, 0, 15), 10);
    assert_eq!(clamp(10, 0, -1), 0);
    assert_eq!(clamp(0, 10, 5), 5);
}

#[test]
fn linear_ranges_grow_with_the_size() {
    let r = linear_from(0, -100, 100);
    assert_eq!(bounds(Size(0), r), (0, 0));
    assert_eq!(bounds(Size(50), r), (-50, 50));
    assert_eq!(bounds(Size(99), r), (-100, 100));
    let mut prev = (0, 0);
    for s in 0..100 {
        let lo = lower_bound(Size(s), r);
        let hi = upper_bound(Size(s), r);
        assert!(lo <= prev.0 && prev.1 <= hi);
        prev = (lo, hi);
    }
    assert_eq!(bounds(Size(0), linear(3, 50)), (3, 3));
    assert_eq!(bounds(Size(99), linear_bounded()), (i64::MIN, i64::MAX));
    // An origin outside the bounds is clamped into them.
    assert_eq!(bounds(Size(0), linear_from(100, 0, 10)), (10, 10));
}
