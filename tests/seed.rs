use hedgehog::seed::{from, mix32, mix64, mix64_variant13, mix_gamma, next, next_integer, next_word64, split, Seed};

#[test]
fn seed_stub() {
    assert_eq!(1 + 1, 2);
}

#[test]
fn mixers_match_their_formulas() {
    assert_eq!(mix64(0), 0);
    assert_eq!(mix64(1), 12994781566227106604);
    assert_eq!(mix64(42), 9297814886316923340);
    assert_eq!(mix64_variant13(1), 6238072747940578789);
    assert_eq!(mix32(1), 3025583356);
    assert_eq!(mix_gamma(0), 0xaaaaaaaaaaaaaaab);
}

#[test]
fn from_mixes_value_and_gamma() {
    let s = from(42);
    assert_eq!(s, Seed { value: 9297814886316923340, gamma: 13679457532755275413 });
    assert_eq!(s.gamma % 2, 1);
    for x in 0..100u64 {
        assert_eq!(from(x).gamma % 2, 1);
    }
}

#[test]
fn next_steps_by_gamma() {
    let s = Seed { value: 10, gamma: 3 };
    assert_eq!(next(s), (13, Seed { value: 13, gamma: 3 }));
    let w = Seed { value: u64::MAX, gamma: 3 };
    assert_eq!(next(w).0, 2);
}

#[test]
fn split_gives_two_new_seeds() {
    let s = from(42);
    let (s1, s2) = split(s);
    assert_eq!(s1, Seed { value: 18209985878117922550, gamma: 13679457532755275413 });
    assert_eq!(s2, Seed { value: 1275548033995301424, gamma: 10514482549683702313 });
    assert!(s1 != s);
    assert!(s2 != s);
    assert!(s1 != s2);
    assert_eq!(next_word64(s).0, 1275548033995301424);
}

#[test]
fn next_integer_stays_in_bounds_and_varies() {
    let mut seen = std::collections::BTreeSet::new();
    let mut s = from(7);
    for _ in 0..200 {
        let (a, b) = split(s);
        let (x, _) = next_integer(-5, 1000, a);
        assert!(-5 <= x && x <= 1000);
        let (y, _) = next_integer(1000, -5, a);
        assert_eq!(x, y);
        seen.insert(x);
        s = b;
    }
    assert!(seen.len() > 50);
    assert_eq!(next_integer(4, 4, s).0, 4);
}

#[test]
fn next_word32_mixes_the_low_half() {
    let s = Seed { value: 0, gamma: 1 };
    let (w, s1) = hedgehog::seed::next_word32(s);
    assert_eq!(w, mix32(1));
    assert_eq!(s1, Seed { value: 1, gamma: 1 });
}
