use hedgehog::shrink::{at_least, halves, removes, towards};

#[test]
fn towards_works() {
    let f = |x| towards(3, x);
    assert_eq!(f(100), vec![3, 51, 76, 88, 94, 97, 99]);
}

#[test]
fn towards_destination_is_empty() {
    assert!(towards(7, 7).is_empty());
    assert!(towards(i64::MIN, i64::MIN).is_empty());
    assert!(towards(-5, -5).is_empty());
}

#[test]
fn towards_is_strictly_converging() {
    let xs = towards(3, 100);
    assert_eq!(xs[0], 3);
    for w in xs.windows(2) {
        assert!((w[0] - 3).abs() < (w[1] - 3).abs());
    }
    assert_eq!(*xs.last().unwrap(), 99);
}

#[test]
fn towards_handles_extremes() {
    let xs = towards(i64::MIN, i64::MAX);
    assert_eq!(xs[0], i64::MIN);
    assert!(xs.iter().all(|&x| x < i64::MAX));
    assert_eq!(towards(0, -10), vec![0, -5, -8, -9]);
}

#[test]
fn towards_with_no_room_is_empty() {
    assert!(towards(3, 2).is_empty());
}

#[test]
fn halves_go_down_to_one() {
    assert_eq!(halves(100), vec![100, 50, 25, 12, 6, 3, 1]);
    assert_eq!(halves(-7), vec![-7, -3, -1]);
    assert!(halves(0).is_empty());
}

#[test]
fn removes_every_contiguous_run() {
    let xs: Vec<i64> = vec![1, 2, 3, 4];
    assert_eq!(removes(2, &xs), vec![vec![3, 4], vec![1, 4], vec![1, 2]]);
    assert_eq!(removes(4, &xs), vec![Vec::<i64>::new()]);
    assert!(removes(5, &xs).is_empty());
    assert!(removes(0, &xs).is_empty());
}

#[test]
fn vec_deletes_large_chunks_first() {
    let xs: Vec<i64> = vec![1, 2, 3, 4];
    let expected: Vec<Vec<i64>> = vec![
        vec![],
        vec![3, 4],
        vec![1, 4],
        vec![1, 2],
        vec![2, 3, 4],
        vec![1, 3, 4],
        vec![1, 2, 4],
        vec![1, 2, 3],
    ];
    assert_eq!(hedgehog::shrink::vec(&xs), expected);
    assert!(hedgehog::shrink::vec(&Vec::<i64>::new()).is_empty());
}

#[test]
fn at_least_counts_items() {
    assert!(at_least(0, &Vec::<i64>::new()));
    assert!(at_least(2, &vec![1i64, 2]));
    assert!(!at_least(3, &vec![1i64, 2]));
}
