use hedgehog::gen::{constant, create, Gen};
use hedgehog::range::Size;
use hedgehog::seed::{global, Seed};
use hedgehog::shrink::{elems, sequence_elems, sequence_list, towards, Towards};
use hedgehog::tree::{bind, filter, outcome, shrinks, unfold, List, Node, Tree};

fn values<N: Node>(ns: &[N]) -> Vec<N::Value> {
    ns.iter().map(|n| n.value()).collect()
}

#[test]
fn rose_trees_hold_lazy_values() {
    let n = 42;
    let tree = Tree::singleton(n);
    tree.value();
    tree.value();
    assert_eq!(tree.value(), n);
}

#[test]
fn create_works() {
    let rand_fn = |_: Seed, _: Size| 3i64;
    let g = create(|x| towards(3, x), rand_fn);
    let global_seed = global();
    let t = g.run(global_seed, Size(1));
    assert_eq!(t.value(), rand_fn(global_seed, Size(1)));
    assert!(t.children().is_empty());
    let c = constant(3i64).run(global_seed, Size(1));
    assert_eq!(c.value(), t.value());
}

#[test]
fn built_trees_keep_their_children() {
    let t = Tree::new(5i64, vec![Tree::singleton(1), Tree::singleton(2)]);
    assert_eq!(outcome(&t), 5);
    assert_eq!(values(&shrinks(&t)), vec![1, 2]);
}

#[test]
fn towards_tree_children_follow_towards() {
    let t = Towards { destination: 0, value: 10 };
    assert_eq!(values(&t.children()), vec![0, 5, 8, 9]);
}

#[test]
fn map_applies_to_every_node() {
    let t = hedgehog::tree::map(|x: i64| x * 10, Towards { destination: 0, value: 10 });
    assert_eq!(t.value(), 100);
    assert_eq!(values(&t.children()), vec![0, 50, 80, 90]);
}

#[test]
fn bind_puts_outer_shrinks_first() {
    let t = bind(Towards { destination: 0, value: 2 }, |x: i64| Towards { destination: 100, value: 100 + x });
    assert_eq!(t.value(), 102);
    // The outer tree shrinks 2 to [0, 1]; the inner tree of 102 toward 100 is [100, 101].
    assert_eq!(values(&t.children()), vec![100, 101, 100, 101]);
}

#[test]
fn filter_keeps_the_root_and_drops_children() {
    let t = filter(|x: i64| x % 2 == 0, Towards { destination: 0, value: 9 });
    assert_eq!(t.value(), 9);
    assert_eq!(values(&t.children()), vec![0, 8]);
}

#[test]
fn unfold_builds_from_a_seed() {
    let t = unfold(|x: i64| x * 2, |x: i64| towards(0, x), 4);
    assert_eq!(t.value(), 8);
    assert_eq!(values(&t.children()), vec![0, 4, 6]);
}

#[test]
fn expand_adds_shrinks() {
    let t = Tree::expand(|x: i64| if x > 0 { vec![x - 1] } else { vec![] }, Tree::new(3i64, vec![Tree::singleton(0)]));
    assert_eq!(values(&t.children()), vec![0, 2]);
}

#[test]
fn sequences_shrink_in_length_and_content() {
    let xs = vec![Towards { destination: 0, value: 1 }, Towards { destination: 0, value: 2 }];
    let t = sequence_list(xs);
    assert_eq!(t.value().into_vec(), vec![1, 2]);
    let cs: Vec<Vec<i64>> = t.children().iter().map(|c| c.value().into_vec()).collect();
    assert_eq!(cs, vec![vec![], vec![2], vec![1], vec![1, 0], vec![1, 1]]);
    let fixed = sequence_elems(vec![Towards { destination: 0, value: 2 }]);
    let cs2: Vec<Vec<i64>> = fixed.children().iter().map(|c| c.value().into_vec()).collect();
    assert_eq!(cs2, vec![vec![0], vec![1]]);
}

#[test]
fn elems_replace_one_item_at_a_time() {
    let xs = vec![Towards { destination: 0, value: 2 }, Towards { destination: 0, value: 1 }];
    let es: Vec<Vec<i64>> = elems(&xs).iter().map(|v| values(v)).collect();
    assert_eq!(es, vec![vec![0, 1], vec![1, 1]]);
}

#[test]
fn lists_round_trip_vectors() {
    let l = List::from_vec(vec![1i64, 2, 3]);
    assert_eq!(l.into_vec(), vec![1, 2, 3]);
}

#[test]
fn duplicate_holds_subtrees() {
    let t = hedgehog::tree::duplicate(Towards { destination: 0, value: 10 });
    assert_eq!(t.value().value(), 10);
    let cs: Vec<i64> = t.children().iter().map(|c| c.value().value()).collect();
    assert_eq!(cs, vec![0, 5, 8, 9]);
}

#[test]
fn join_flattens_trees_of_trees() {
    let t = Tree::new(Tree::new(1i64, vec![Tree::singleton(0)]), vec![Tree::singleton(Tree::singleton(2i64))]);
    let j = hedgehog::tree::join(t);
    assert_eq!(j.value(), 1);
    assert_eq!(values(&j.children()), vec![2, 0]);
}

#[test]
fn unfold_forest_applies_the_value_function() {
    let cs = hedgehog::tree::unfold_forest(|x: i64| x * 2, |x: i64| towards(0, x), 4);
    assert_eq!(values(&cs), vec![0, 4, 6]);
}

#[test]
fn fold_sums_a_built_tree() {
    let t = Tree::new(1i64, vec![Tree::singleton(2), Tree::new(3, vec![Tree::singleton(4)])]);
    let total = hedgehog::tree::fold(&|a: i64, x: i64| a + x, &|v: Vec<i64>| v.iter().sum::<i64>(), &t);
    assert_eq!(total, 10);
    let depth = hedgehog::tree::fold(&|_a: i64, x: i64| x + 1, &|v: Vec<i64>| v.into_iter().max().unwrap_or(0), &t);
    assert_eq!(depth, 3);
    let count = hedgehog::tree::fold_forest(&|_a: i64, x: i64| x + 1, &|v: Vec<i64>| v.iter().sum::<i64>(), &t.subtrees);
    assert_eq!(count, 3);
}
