use hedgehog::gen::{integral, Gen};
use hedgehog::journal;
use hedgehog::outcome::{first, from_bool, is_failure, second, Outcome};
use hedgehog::property::{bind, discard, failure, success};
use hedgehog::property::{check, check_tick, for_all, report, report_from, report_tick, take_smallest, take_smallest_within, Show, Status};
use hedgehog::range::{constant, Size};
use hedgehog::seed::from;
use hedgehog::tree::Node;

fn less_than_ten(x: i64) -> Outcome<()> {
    from_bool(x < 10)
}

#[test]
fn failing_property_shrinks_to_ten() {
    let prop = for_all(integral(constant(0, 100)), less_than_ten);
    for x in 0..20u64 {
        let r = report_from(100, &prop, from(x));
        match r.status {
            Status::Failed(shrinks, j) => {
                let lines = journal::to_vec(j);
                assert_eq!(lines, vec!["10".to_string()]);
                assert!(shrinks >= 0);
            },
            _ => panic!("expected a failure"),
        }
        assert!(r.tests >= 1 && r.tests <= 100);
        assert_eq!(r.discards, 0);
    }
}

#[test]
fn always_discarding_gives_up() {
    let prop = for_all(integral(constant(0, 100)), |_x: i64| Outcome::<()>::Discard);
    let r = report_tick(100, &prop);
    assert!(matches!(r.status, Status::GaveUp));
    assert_eq!(r.discards, 100);
    assert_eq!(r.tests, 0);
}

#[test]
fn always_succeeding_passes() {
    let prop = for_all(integral(constant(0, 100)), |_x: i64| Outcome::Success(()));
    let r = report_tick(50, &prop);
    assert!(matches!(r.status, Status::Passed));
    assert_eq!(r.tests, 50);
    assert_eq!(r.discards, 0);
    check_tick(50, &prop);
    check(&prop);
    let r100 = report(&prop);
    assert_eq!(r100.tests, 100);
    let none = report_tick(0, &prop);
    assert_eq!(none.tests, 0);
    assert!(matches!(none.status, Status::Passed));
}

#[test]
fn reports_are_deterministic_for_a_seed() {
    let prop = for_all(integral(constant(0, 100)), less_than_ten);
    let a = report_from(100, &prop, from(99));
    let b = report_from(100, &prop, from(99));
    assert_eq!(a.tests, b.tests);
    match (a.status, b.status) {
        (Status::Failed(x, _), Status::Failed(y, _)) => assert_eq!(x, y),
        _ => panic!("expected failures"),
    }
}

#[test]
fn take_smallest_walks_first_failures() {
    let prop = for_all(integral(constant(0, 100)), less_than_ten);
    let t = prop.run(from(5), Size(1));
    let (v, o) = t.value();
    let status = take_smallest(t);
    if v >= 10 {
        assert!(is_failure(&o));
        match status {
            Status::Failed(_, j) => assert_eq!(journal::to_vec(j), vec!["10".to_string()]),
            _ => panic!("expected a failure"),
        }
    } else {
        assert!(matches!(status, Status::Passed));
    }
}

#[test]
fn show_writes_decimals() {
    assert_eq!((-42i64).show(), "-42");
    assert_eq!(0i64.show(), "0");
    assert_eq!(true.show(), "true");
    assert_eq!(false.show(), "false");
}

#[test]
fn journals_append_in_order() {
    let a = journal::from_list(vec!["a".to_string()]);
    let b = journal::singleton("b".to_string());
    let c = journal::append(a, journal::append(b, journal::empty()));
    assert_eq!(journal::to_vec(c), vec!["a".to_string(), "b".to_string()]);
}

#[test]
fn outcomes_map_and_filter() {
    assert!(matches!(hedgehog::outcome::map(|x: i64| x + 1, Outcome::Success(1)), Outcome::Success(2)));
    assert!(matches!(hedgehog::outcome::map(|x: i64| x + 1, Outcome::Discard), Outcome::Discard));
    assert!(matches!(hedgehog::outcome::filter(|x: &i64| *x > 5, Outcome::Success(1)), Outcome::Discard));
    assert!(matches!(hedgehog::outcome::filter(|x: &i64| *x > 0, Outcome::Success(1)), Outcome::Success(1)));
    assert!(is_failure(&Outcome::<()>::Failure));
    assert!(!is_failure(&Outcome::Success(())));
    assert_eq!(first(|x: i64| x * 2, 3i64, "y"), (6, "y"));
    assert_eq!(second(|y: i64| y * 2, "x", 3i64), ("x", 6));
}

#[test]
fn bound_properties_chain_on_success() {
    let first = for_all(integral(constant(0, 100)), |x: i64| Outcome::Success(x));
    let prop = bind(first, |x: i64| if x < 10 { success(()) } else { failure() });
    for s in 0..10u64 {
        let r = report_from(100, &prop, from(s));
        match r.status {
            Status::Failed(_, j) => assert_eq!(journal::to_vec(j), vec!["10".to_string()]),
            _ => panic!("expected a failure"),
        }
    }
    let stopped = bind(for_all(integral(constant(0, 100)), |_x: i64| Outcome::<i64>::Discard), |_x: i64| failure());
    let r = report_tick(100, &stopped);
    assert!(matches!(r.status, Status::GaveUp));
    assert_eq!(r.discards, 100);
    let t = bind(for_all(integral(constant(5, 5)), |x: i64| Outcome::Success(x)), |_x: i64| discard()).run(from(1), Size(1));
    let ((a, c), o) = t.value();
    assert_eq!(a, 5);
    assert_eq!(c, Some(()));
    assert!(matches!(o, Outcome::Discard));
}

#[test]
fn the_walk_stops_at_its_bound() {
    let prop = for_all(integral(constant(50, 100)), less_than_ten);
    let t = prop.run(from(11), Size(1));
    let (v, _) = t.value();
    match take_smallest_within(t, 0) {
        Status::Failed(k, j) => {
            assert_eq!(k, 0);
            assert_eq!(journal::to_vec(j), vec![v.show()]);
        },
        _ => panic!("expected a failure"),
    }
    let t2 = prop.run(from(11), Size(1));
    match take_smallest_within(t2, 1) {
        Status::Failed(k, _) => assert!(k <= 1),
        _ => panic!("expected a failure"),
    }
}
