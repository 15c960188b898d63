use hedgehog::lazy::Lazy;
use std::time::SystemTime;

#[test]
fn lazy_defer_application_until_forced() {
    let t = SystemTime::now();
    let l = Lazy::new(t);
    let v = l.value();
    assert_eq!(v, t);
    assert!(v.elapsed().unwrap() != SystemTime::now().elapsed().unwrap());
}

#[test]
fn lazy_memoize_values_01() {
    let n = 42;
    let mut l = Lazy::new(n);
    l.force();
    l.force();
    assert_eq!(l.value, Some(n));
}

#[test]
fn lazy_memoize_values_02() {
    let n = 42;
    let l = Lazy::new(n);
    assert_eq!(l.value(), n);
}

#[test]
fn lazy_closure_is_cached_once_forced() {
    let mut l = Lazy::from_closure(|| 6 * 7);
    assert_eq!(l.value, None);
    assert_eq!(l.value(), 42);
    l.force();
    assert_eq!(l.value, Some(42));
    let m = l.map(|x: i32| x + 1);
    assert_eq!(m.value(), 43);
}
