use hedgehog::gen::{
    bind, choice, choice_rec, constant, filter, frequency, generate_tree, integral, item, no_shrink, option, pure,
    resize, sample, scale, shrink, sized, try_filter, Gen,
};
use hedgehog::range::{bounds, constant as constant_range, linear, lower_bound, Size};
use hedgehog::seed::{from, split, Seed};
use hedgehog::tree::Node;

fn seeds(n: usize) -> Vec<Seed> {
    let mut out = Vec::new();
    let mut s = from(2024);
    for _ in 0..n {
        let (a, b) = split(s);
        out.push(a);
        s = b;
    }
    out
}

#[test]
fn sampling_is_deterministic() {
    let g = integral(linear(0, 1000));
    for s in seeds(20) {
        let t1 = g.run(s, Size(40));
        let t2 = g.run(s, Size(40));
        assert_eq!(t1.value(), t2.value());
        let c1: Vec<i64> = t1.children().iter().map(|c| c.value()).collect();
        let c2: Vec<i64> = t2.children().iter().map(|c| c.value()).collect();
        assert_eq!(c1, c2);
    }
}

#[test]
fn bind_runs_the_first_generator_on_the_first_half() {
    let g = integral(constant_range(0, 1000));
    let b = bind(integral(constant_range(0, 1000)), |x: i64| constant(x));
    for s in seeds(20) {
        let (s1, _) = split(s);
        assert_eq!(b.run(s, Size(10)).value(), g.run(s1, Size(10)).value());
    }
}

#[test]
fn map_of_constant_is_constant_of_map() {
    let t = hedgehog::gen::map(|x: i64| x * 2, constant(21i64)).run(from(1), Size(5));
    assert_eq!(t.value(), 42);
    assert!(t.children().is_empty());
    assert_eq!(pure(42i64).run(from(1), Size(5)).value(), 42);
}

#[test]
fn bind_of_constant_is_the_continuation() {
    let k = |x: i64| integral(constant_range(x, x + 10));
    for s in seeds(10) {
        let (_, s2) = split(s);
        let b = bind(constant(5i64), k).run(s, Size(3));
        let t = k(5).run(s2, Size(3));
        assert_eq!(b.value(), t.value());
        assert_eq!(b.children().len(), t.children().len());
    }
}

#[test]
fn integral_stays_in_range_and_shrinks_to_origin() {
    let g = integral(constant_range(10, 20));
    for s in seeds(100) {
        let t = g.run(s, Size(1));
        let v = t.value();
        assert!((10..=20).contains(&v));
        // The first shrink, when there is one, is the origin.
        if let Some(c) = t.children().first() {
            assert_eq!(c.value(), 10);
        }
    }
}

#[test]
fn vec_is_never_shorter_than_the_lower_bound() {
    let r = constant_range(3, 5);
    let g = hedgehog::gen::vec(r, integral(constant_range(0, 9)));
    for (i, s) in seeds(1000).into_iter().enumerate() {
        let size = Size((i % 100) as isize);
        let t = g.run(s, size);
        let xs = t.value().into_vec();
        assert!(xs.len() >= 3 && xs.len() <= 5);
        assert!(xs.len() as i64 >= lower_bound(size, r));
        for c in t.children() {
            assert!(c.value().into_vec().len() >= 3);
        }
    }
}

#[test]
fn vec_length_follows_a_linear_range() {
    let g = hedgehog::gen::vec(linear(0, 50), integral(constant_range(0, 9)));
    for s in seeds(50) {
        let n = g.run(s, Size(10)).value().into_vec().len() as i64;
        let (a, b) = bounds(Size(10), linear(0, 50));
        assert!(a <= n && n <= b);
    }
}

#[test]
fn try_filter_finds_or_gives_none() {
    let even = try_filter(|x: i64| x % 2 == 0, integral(constant_range(0, 100)));
    let never = try_filter(|_x: i64| false, integral(constant_range(0, 100)));
    let mut found = 0;
    for s in seeds(50) {
        match even.run(s, Size(10)).value() {
            Some(x) => {
                assert_eq!(x % 2, 0);
                found += 1;
            },
            None => {},
        }
        assert_eq!(never.run(s, Size(10)).value(), None);
    }
    assert!(found > 40);
}

#[test]
fn filter_keeps_shrinks_that_satisfy_the_predicate() {
    let big = filter(|x: i64| x >= 50, integral(constant_range(0, 100)));
    for s in seeds(20) {
        let t = big.run(s, Size(5));
        let v = t.value().unwrap();
        assert!(v >= 50);
        for c in t.children() {
            assert!(c.value().unwrap() >= 50);
        }
    }
    let never = filter(|_x: i64| false, integral(constant_range(0, 3)));
    assert_eq!(never.run(from(3), Size(1)).value(), None);
}

#[test]
fn frequency_needs_weight() {
    assert!(frequency::<hedgehog::gen::Constant<i64>>(vec![]).is_none());
    assert!(frequency(vec![(0u64, constant(1i64))]).is_none());
    assert!(frequency(vec![(u64::MAX, constant(1i64))]).is_none());
    let g = frequency(vec![(0u64, constant(1i64)), (3u64, constant(2i64))]).unwrap();
    for s in seeds(30) {
        assert_eq!(g.run(s, Size(5)).value(), 2);
    }
}

#[test]
fn frequency_picks_every_weighted_choice() {
    let g = frequency(vec![(1u64, constant(1i64)), (1u64, constant(2i64))]).unwrap();
    let vs: Vec<i64> = seeds(100).into_iter().map(|s| g.run(s, Size(5)).value()).collect();
    assert!(vs.contains(&1) && vs.contains(&2));
}

#[test]
fn choice_and_item_need_input() {
    assert!(choice::<hedgehog::gen::Constant<i64>>(vec![]).is_none());
    assert!(item::<i64>(vec![]).is_none());
    assert!(choice_rec::<hedgehog::gen::Constant<i64>>(vec![], vec![constant(1)]).is_none());
    let c = choice(vec![constant(7i64), constant(8i64)]).unwrap();
    let i = item(vec![10i64, 20, 30]).unwrap();
    for s in seeds(30) {
        let v = c.run(s, Size(5)).value();
        assert!(v == 7 || v == 8);
        let t = i.run(s, Size(5));
        let w = t.value();
        assert!(w == 10 || w == 20 || w == 30);
        if let Some(c) = t.children().first() {
            assert_eq!(c.value(), 10);
        }
    }
}

#[test]
fn choice_rec_only_offers_nonrecursive_at_small_sizes() {
    let g = choice_rec(vec![constant(1i64)], vec![constant(2i64)]).unwrap();
    for s in seeds(30) {
        assert_eq!(g.run(s, Size(1)).value(), 1);
    }
    let vs: Vec<i64> = seeds(100).into_iter().map(|s| g.run(s, Size(50)).value()).collect();
    assert!(vs.contains(&2));
}

#[test]
fn option_is_mostly_present_at_large_sizes() {
    let g = option(integral(constant_range(0, 9)));
    let present = seeds(200).into_iter().filter(|s| g.run(*s, Size(99)).value().is_some()).count();
    assert!(present > 150);
}

#[test]
fn sized_resize_and_scale_control_the_size() {
    let g = || sized(|s: Size| constant(s.0 as i64));
    assert_eq!(g().run(from(1), Size(17)).value(), 17);
    assert_eq!(resize(5, g()).run(from(1), Size(17)).value(), 5);
    assert_eq!(scale(|n: isize| n / 2, g()).run(from(1), Size(17)).value(), 8);
}

#[test]
fn no_shrink_and_shrink() {
    for s in seeds(10) {
        let t = no_shrink(integral(constant_range(50, 100))).run(s, Size(5));
        assert!(t.children().is_empty());
        let u = shrink(|x: i64| if x > 0 { vec![x - 1] } else { vec![] }, integral(constant_range(50, 100))).run(s, Size(5));
        let cs = u.children();
        assert_eq!(cs.last().unwrap().value(), u.value() - 1);
    }
}

#[test]
fn samples_come_from_the_generator() {
    let xs = sample(Size(30), 10, &integral(constant_range(0, 5)));
    assert_eq!(xs.len(), 10);
    assert!(xs.iter().all(|x| (0..=5).contains(x)));
    let t = generate_tree(&integral(constant_range(1, 1)));
    assert_eq!(t.value(), 1);
}

#[test]
fn frequency_shrinks_toward_the_first_choice() {
    let g = frequency(vec![(1u64, constant(1i64)), (1u64, constant(2i64))]).unwrap();
    let mut checked = 0;
    for s in seeds(50) {
        let t = g.run(s, Size(5));
        if t.value() == 2 {
            assert_eq!(t.children()[0].value(), 1);
            checked += 1;
        }
    }
    assert!(checked > 0);
    let c = choice(vec![constant(7i64), constant(8i64), constant(9i64)]).unwrap();
    for s in seeds(50) {
        let t = c.run(s, Size(5));
        if t.value() != 7 {
            assert_eq!(t.children()[0].value(), 7);
        }
    }
}

#[test]
fn choice_rec_shrinks_toward_nonrecursive() {
    let g = choice_rec(vec![constant(1i64)], vec![constant(2i64), constant(3i64)]).unwrap();
    for s in seeds(50) {
        let t = g.run(s, Size(50));
        if t.value() == 3 {
            assert_eq!(t.children()[0].value(), 1);
        }
    }
}

#[test]
fn sizes_below_one_are_raised() {
    let g = integral(linear(0, 1000));
    for s in seeds(20) {
        assert_eq!(g.run(s, Size(0)).value(), g.run(s, Size(1)).value());
        assert_eq!(resize(-5, integral(linear(0, 1000))).run(s, Size(50)).value(), g.run(s, Size(1)).value());
    }
}

#[test]
fn present_options_shrink_to_none_first() {
    let g = option(integral(constant_range(0, 9)));
    let mut seen = 0;
    for s in seeds(50) {
        let t = g.run(s, Size(99));
        if t.value().is_some() {
            assert_eq!(t.children()[0].value(), None);
            seen += 1;
        }
    }
    assert!(seen > 0);
}
