use vstd::prelude::*;
use crate::random;
use crate::seed;
use crate::random::{at_least_one, run_size, spec_integral};
use crate::range::{constant as constant_range, lower_bound, spec_lower_bound, Range, Size};
use crate::seed::{lemma_split_moves, spec_next_integer, spec_split, split, Seed};
use crate::shrink::{all_wf, lemma_towards_between, sequence, spec_towards, SeqNode, Towards};
use crate::tree::{app, pure_fn, pure_shrink, Dup, Expanded, FilterNode, Forest, List, MapNode, Node, Tree, Unfold};

verus! {

/// A generator: from a seed and a size, a value together with its lazily
/// expanded tree of shrinks.
pub trait Gen: core::marker::Sized {
    type Output: Node;

    spec fn wf(&self) -> bool;

    /// The tree that the generator yields at `seed` and `size`.
    spec fn spec_run(&self, seed: Seed, size: Size) -> Self::Output;

    proof fn lemma_run_wf(&self, seed: Seed, size: Size)
        requires
            self.wf(),
        ensures
            self.spec_run(seed, size).wf(),
    ;

    fn run(&self, seed: Seed, size: Size) -> (r: Self::Output)
        requires
            self.wf(),
        ensures
            r == self.spec_run(seed, size),
    ;
}

/// The generator that always yields `value`, with no shrinks.
pub struct Constant<A> {
    pub value: A,
}

impl<A: Dup> Gen for Constant<A> {
    type Output = Tree<A>;

    open spec fn wf(&self) -> bool {
        true
    }

    open spec fn spec_run(&self, seed: Seed, size: Size) -> Tree<A> {
        Tree { root: self.value, subtrees: Box::new(Forest::Nil) }
    }

    proof fn lemma_run_wf(&self, seed: Seed, size: Size) {
    }

    fn run(&self, seed: Seed, size: Size) -> (r: Tree<A>) {
        Tree { root: self.value.dup(), subtrees: Box::new(Forest::Nil) }
    }
}

/// Always yields `x`.
pub fn constant<A: Dup>(x: A) -> (g: Constant<A>)
    ensures
        g.value == x,
{
    Constant { value: x }
}

/// Always yields `x`.
pub fn pure<A: Dup>(x: A) -> (g: Constant<A>)
    ensures
        g.value == x,
{
    constant(x)
}

/// What a deterministic sampling function draws at `seed` and `size`.
pub open spec fn draw<A, R: Fn(Seed, Size) -> A>(r: R, seed: Seed, size: Size) -> A {
    choose|a: A| call_ensures(r, (seed, size), a)
}

/// `r` accepts every seed and size, and draws one value for each.
pub open spec fn pure_random<A, R: Fn(Seed, Size) -> A>(r: R) -> bool {
    &&& forall|seed: Seed, size: Size| #[trigger] call_requires(r, (seed, size))
    &&& forall|seed: Seed, size: Size, a: A| #[trigger] call_ensures(r, (seed, size), a) ==> a == draw(r, seed, size)
}

/// Values drawn by `random`, shrinking by `shrink` (and again on each candidate).
pub struct Create<F, R> {
    pub shrink: F,
    pub random: R,
}

impl<A: Dup, F: Fn(A) -> Vec<A> + Copy, R: Fn(Seed, Size) -> A> Gen for Create<F, R> {
    type Output = Unfold<A, F>;

    open spec fn wf(&self) -> bool {
        pure_shrink(self.shrink) && pure_random(self.random)
    }

    open spec fn spec_run(&self, seed: Seed, size: Size) -> Unfold<A, F> {
        Unfold { value: draw(self.random, seed, size), shrink: self.shrink }
    }

    proof fn lemma_run_wf(&self, seed: Seed, size: Size) {
    }

    fn run(&self, seed: Seed, size: Size) -> (r: Unfold<A, F>) {
        let v = (self.random)(seed, size);
        Unfold { value: v, shrink: self.shrink }
    }
}

/// The generator of values drawn by `random`, whose shrinks are those that
/// `shrink` gives, recursively.
pub fn create<A: Dup, F: Fn(A) -> Vec<A> + Copy, R: Fn(Seed, Size) -> A>(shrink: F, random: R) -> (g: Create<F, R>)
    ensures
        g == (Create { shrink, random }),
{
    Create { shrink, random }
}

/// `gen` with the extra shrinks that `f` gives at every node.
pub struct ShrinkGen<G, F> {
    pub gen: G,
    pub f: F,
}

impl<G: Gen, F: Fn(<G::Output as Node>::Value) -> Vec<<G::Output as Node>::Value> + Copy> Gen for ShrinkGen<G, F>
    where <G::Output as Node>::Value: Dup
{
    type Output = Expanded<G::Output, <G::Output as Node>::Value, F>;

    open spec fn wf(&self) -> bool {
        self.gen.wf() && pure_shrink(self.f)
    }

    open spec fn spec_run(&self, seed: Seed, size: Size) -> Expanded<G::Output, <G::Output as Node>::Value, F> {
        Expanded::Base(self.gen.spec_run(seed, size), self.f)
    }

    proof fn lemma_run_wf(&self, seed: Seed, size: Size) {
        self.gen.lemma_run_wf(seed, size);
    }

    fn run(&self, seed: Seed, size: Size) -> (r: Expanded<G::Output, <G::Output as Node>::Value, F>) {
        Expanded::Base(self.gen.run(seed, size), self.f)
    }
}

/// Adds the shrinks that `f` gives to every node of the trees of `g`.
pub fn shrink<G: Gen, F: Fn(<G::Output as Node>::Value) -> Vec<<G::Output as Node>::Value> + Copy>(f: F, g: G) -> (r: ShrinkGen<G, F>)
    where <G::Output as Node>::Value: Dup
    ensures
        r == (ShrinkGen { gen: g, f }),
{
    ShrinkGen { gen: g, f }
}

/// Integers drawn uniformly within the range's bounds at the size, shrinking
/// toward the range's origin.
pub struct Integral {
    pub range: Range,
}

impl Gen for Integral {
    type Output = Towards;

    open spec fn wf(&self) -> bool {
        true
    }

    open spec fn spec_run(&self, seed: Seed, size: Size) -> Towards {
        Towards { destination: self.range.origin, value: spec_integral(self.range, seed, at_least_one(size)) }
    }

    proof fn lemma_run_wf(&self, seed: Seed, size: Size) {
    }

    fn run(&self, seed: Seed, size: Size) -> (r: Towards) {
        Towards { destination: self.range.origin, value: random::integral(self.range, seed, run_size(size)) }
    }
}

/// Integers within `range`, shrinking toward its origin.
pub fn integral(range: Range) -> (g: Integral)
    ensures
        g.range == range,
{
    Integral { range }
}

/// The generator of `gen` with `f` applied to every value and shrink.
pub struct MapGen<G, F> {
    pub gen: G,
    pub f: F,
}

impl<G: Gen, B, F: Fn(<G::Output as Node>::Value) -> B + Copy> Gen for MapGen<G, F> {
    type Output = MapNode<G::Output, F>;

    open spec fn wf(&self) -> bool {
        self.gen.wf() && pure_fn(self.f)
    }

    open spec fn spec_run(&self, seed: Seed, size: Size) -> MapNode<G::Output, F> {
        MapNode { inner: self.gen.spec_run(seed, size), f: self.f }
    }

    proof fn lemma_run_wf(&self, seed: Seed, size: Size) {
        self.gen.lemma_run_wf(seed, size);
    }

    fn run(&self, seed: Seed, size: Size) -> (r: MapNode<G::Output, F>) {
        MapNode { inner: self.gen.run(seed, size), f: self.f }
    }
}

/// Applies `f` to the values (and shrinks) of `g`.
pub fn map<G: Gen, B, F: Fn(<G::Output as Node>::Value) -> B + Copy>(f: F, g: G) -> (r: MapGen<G, F>)
    ensures
        r == (MapGen { gen: g, f }),
{
    MapGen { gen: g, f }
}

/// The tree of a generator bound through a continuation: an `Outer` node stands
/// for the continuation applied to the value of a node of the first tree, run
/// with the stored seed and size; an `Inner` node is a node of such a run.
pub enum BoundNode<NA, K, NB> {
    Outer(NA, K, Seed, Size),
    Inner(NB),
}

impl<NA: Node, K: Copy, NB: Node> Dup for BoundNode<NA, K, NB> {
    fn dup(&self) -> (r: Self) {
        match self {
            BoundNode::Outer(t, k, s, n) => BoundNode::Outer(t.dup(), *k, *s, *n),
            BoundNode::Inner(x) => BoundNode::Inner(x.dup()),
        }
    }
}

/// A continuation that accepts every value, answers each with one generator,
/// and only with well-formed ones.
pub open spec fn pure_cont<A, G2: Gen, K: Fn(A) -> G2>(k: K) -> bool {
    pure_fn::<A, G2, K>(k) && forall|a: A| #[trigger] app::<A, G2, K>(k, a).wf()
}

impl<NA: Node, NB: Node, G2: Gen<Output = NB>, K: Fn(NA::Value) -> G2 + Copy> Node for BoundNode<NA, K, NB> {
    type Value = NB::Value;

    open spec fn wf(&self) -> bool {
        match self {
            BoundNode::Outer(t, k, s, n) => t.wf() && pure_cont::<NA::Value, G2, K>(*k),
            BoundNode::Inner(x) => x.wf(),
        }
    }

    open spec fn view_value(&self) -> Self::Value {
        match self {
            BoundNode::Outer(t, k, s, n) => app::<NA::Value, G2, K>(*k, t.view_value()).spec_run(*s, *n).view_value(),
            BoundNode::Inner(x) => x.view_value(),
        }
    }

    open spec fn view_children(&self) -> Seq<Self> {
        match self {
            BoundNode::Outer(t, k, s, n) => t.view_children().map_values(|c: NA| BoundNode::<NA, K, NB>::Outer(c, *k, *s, *n))
                + app::<NA::Value, G2, K>(*k, t.view_value()).spec_run(*s, *n).view_children().map_values(|c: NB| BoundNode::<NA, K, NB>::Inner(c)),
            BoundNode::Inner(x) => x.view_children().map_values(|c: NB| BoundNode::<NA, K, NB>::Inner(c)),
        }
    }

    proof fn lemma_children_wf(&self) {
        match self {
            BoundNode::Outer(t, k, s, n) => {
                t.lemma_children_wf();
                let g: G2 = app::<NA::Value, G2, K>(*k, t.view_value());
                g.lemma_run_wf(*s, *n);
                g.spec_run(*s, *n).lemma_children_wf();
            },
            BoundNode::Inner(x) => {
                x.lemma_children_wf();
            },
        }
    }

    fn value(&self) -> (r: Self::Value) {
        match self {
            BoundNode::Outer(t, k, s, n) => {
                let g: G2 = k(t.value());
                proof {
                    g.lemma_run_wf(*s, *n);
                }
                g.run(*s, *n).value()
            },
            BoundNode::Inner(x) => x.value(),
        }
    }

    fn children(&self) -> (r: Vec<Self>) {
        match self {
            BoundNode::Outer(t, k, s, n) => {
                let ts = t.children();
                let mut out: Vec<Self> = Vec::new();
                let mut i: usize = 0;
                while i < ts.len()
                    invariant
                        i <= ts@.len(),
                        out@ == ts@.map_values(|c: NA| BoundNode::<NA, K, NB>::Outer(c, *k, *s, *n)).subrange(0, i as int),
                    decreases ts@.len() - i,
                {
                    out.push(BoundNode::<NA, K, NB>::Outer(ts[i].dup(), *k, *s, *n));
                    i += 1;
                }
                proof {
                    assert(out@ =~= ts@.map_values(|c: NA| BoundNode::<NA, K, NB>::Outer(c, *k, *s, *n)));
                }
                let g: G2 = k(t.value());
                proof {
                    g.lemma_run_wf(*s, *n);
                }
                let mut rest = inner_nodes::<NA, K, NB>(g.run(*s, *n).children());
                out.append(&mut rest);
                out
            },
            BoundNode::Inner(x) => inner_nodes::<NA, K, NB>(x.children()),
        }
    }
}

fn inner_nodes<NA, K, NB: Node>(ts: Vec<NB>) -> (r: Vec<BoundNode<NA, K, NB>>)
    ensures
        r@ == ts@.map_values(|c: NB| BoundNode::<NA, K, NB>::Inner(c)),
{
    let mut out: Vec<BoundNode<NA, K, NB>> = Vec::new();
    let mut i: usize = 0;
    while i < ts.len()
        invariant
            i <= ts@.len(),
            out@ == ts@.map_values(|c: NB| BoundNode::<NA, K, NB>::Inner(c)).subrange(0, i as int),
        decreases ts@.len() - i,
    {
        out.push(BoundNode::Inner(ts[i].dup()));
        i += 1;
    }
    proof {
        assert(out@ =~= ts@.map_values(|c: NB| BoundNode::<NA, K, NB>::Inner(c)));
    }
    out
}

/// The generator that runs `gen`, then the generator that `k` gives for its value.
pub struct BindGen<G, K> {
    pub gen: G,
    pub k: K,
}

impl<G: Gen, NB: Node, G2: Gen<Output = NB>, K: Fn(<G::Output as Node>::Value) -> G2 + Copy> Gen for BindGen<G, K> {
    type Output = BoundNode<G::Output, K, NB>;

    open spec fn wf(&self) -> bool {
        self.gen.wf() && pure_cont::<<G::Output as Node>::Value, G2, K>(self.k)
    }

    open spec fn spec_run(&self, seed: Seed, size: Size) -> BoundNode<G::Output, K, NB> {
        BoundNode::Outer(self.gen.spec_run(spec_split(seed).0, size), self.k, spec_split(seed).1, size)
    }

    proof fn lemma_run_wf(&self, seed: Seed, size: Size) {
        self.gen.lemma_run_wf(spec_split(seed).0, size);
    }

    fn run(&self, seed: Seed, size: Size) -> (r: BoundNode<G::Output, K, NB>) {
        let (s1, s2) = split(seed);
        BoundNode::Outer(self.gen.run(s1, size), self.k, s2, size)
    }
}

/// Runs `g` with the first half of a split seed, then `k` of its value with the
/// second half; the shrinks of `g` come first.
pub fn bind<G: Gen, G2: Gen, K: Fn(<G::Output as Node>::Value) -> G2 + Copy>(g: G, k: K) -> (r: BindGen<G, K>)
    ensures
        r == (BindGen { gen: g, k }),
{
    BindGen { gen: g, k }
}

/// The generator that `f` gives for the ambient size.
pub struct Sized<F> {
    pub f: F,
}

impl<G: Gen, F: Fn(Size) -> G + Copy> Gen for Sized<F> {
    type Output = G::Output;

    open spec fn wf(&self) -> bool {
        pure_fn(self.f) && forall|s: Size| #[trigger] app(self.f, s).wf()
    }

    open spec fn spec_run(&self, seed: Seed, size: Size) -> G::Output {
        app(self.f, size).spec_run(seed, size)
    }

    proof fn lemma_run_wf(&self, seed: Seed, size: Size) {
        app(self.f, size).lemma_run_wf(seed, size);
    }

    fn run(&self, seed: Seed, size: Size) -> (r: G::Output) {
        let g = (self.f)(size);
        g.run(seed, size)
    }
}

/// Dispatches on the ambient size.
pub fn sized<G: Gen, F: Fn(Size) -> G + Copy>(f: F) -> (r: Sized<F>)
    ensures
        r.f == f,
{
    Sized { f }
}

/// `gen` run at a fixed size (raised to one), whatever the ambient size.
pub struct Resize<G> {
    pub size: Size,
    pub gen: G,
}

impl<G: Gen> Gen for Resize<G> {
    type Output = G::Output;

    open spec fn wf(&self) -> bool {
        self.gen.wf()
    }

    open spec fn spec_run(&self, seed: Seed, size: Size) -> G::Output {
        self.gen.spec_run(seed, at_least_one(self.size))
    }

    proof fn lemma_run_wf(&self, seed: Seed, size: Size) {
        self.gen.lemma_run_wf(seed, at_least_one(self.size));
    }

    fn run(&self, seed: Seed, size: Size) -> (r: G::Output) {
        self.gen.run(seed, run_size(self.size))
    }
}

/// Overrides the ambient size with `new_size`.
pub fn resize<G: Gen>(new_size: isize, g: G) -> (r: Resize<G>)
    ensures
        r.size == Size(new_size),
        r.gen == g,
{
    Resize { size: Size(new_size), gen: g }
}

/// `gen` run at the size that `f` derives from the ambient one (raised to one).
pub struct Scale<G, F> {
    pub f: F,
    pub gen: G,
}

impl<G: Gen, F: Fn(isize) -> isize + Copy> Gen for Scale<G, F> {
    type Output = G::Output;

    open spec fn wf(&self) -> bool {
        self.gen.wf() && pure_fn(self.f)
    }

    open spec fn spec_run(&self, seed: Seed, size: Size) -> G::Output {
        self.gen.spec_run(seed, at_least_one(Size(app(self.f, size.0))))
    }

    proof fn lemma_run_wf(&self, seed: Seed, size: Size) {
        self.gen.lemma_run_wf(seed, at_least_one(Size(app(self.f, size.0))));
    }

    fn run(&self, seed: Seed, size: Size) -> (r: G::Output) {
        let n = (self.f)(size.0);
        self.gen.run(seed, run_size(Size(n)))
    }
}

/// Derives the size for `g` from the ambient size through `f`.
pub fn scale<G: Gen, F: Fn(isize) -> isize + Copy>(f: F, g: G) -> (r: Scale<G, F>)
    ensures
        r.f == f,
        r.gen == g,
{
    Scale { f, gen: g }
}

/// The seed that the `i`-th of a run of draws starts from: each draw splits its
/// seed, uses the first half, and passes the second half on.
pub open spec fn seed_at(seed: Seed, i: nat) -> Seed
    decreases i,
{
    if i == 0 {
        seed
    } else {
        spec_split(seed_at(seed, (i - 1) as nat)).1
    }
}

/// The trees of `times` runs of `g` at `size`, the `i`-th with the first half of
/// `seed_at(seed, i)`.
pub open spec fn spec_replicate<G: Gen>(times: nat, g: G, seed: Seed, size: Size) -> Seq<G::Output> {
    Seq::new(times, |i: int| g.spec_run(spec_split(seed_at(seed, i as nat)).0, size))
}

/// Runs `g` `times` times, each with a fresh half of a split seed.
pub fn replicate<G: Gen>(times: usize, g: &G, seed: Seed, size: Size) -> (r: Vec<G::Output>)
    requires
        g.wf(),
    ensures
        r@ == spec_replicate(times as nat, *g, seed, size),
{
    let mut acc: Vec<G::Output> = Vec::new();
    let mut cur = seed;
    let mut i: usize = 0;
    while i < times
        invariant
            i <= times,
            g.wf(),
            cur == seed_at(seed, i as nat),
            acc@ == spec_replicate(times as nat, *g, seed, size).subrange(0, i as int),
        decreases times - i,
    {
        let (s1, s2) = split(cur);
        let t = g.run(s1, size);
        proof {
            assert(acc@.push(t) =~= spec_replicate(times as nat, *g, seed, size).subrange(0, i + 1));
        }
        acc.push(t);
        cur = s2;
        i += 1;
    }
    proof {
        assert(spec_replicate(times as nat, *g, seed, size).subrange(0, times as int) =~= spec_replicate(times as nat, *g, seed, size));
    }
    acc
}

proof fn lemma_replicate_wf<G: Gen>(times: nat, g: G, seed: Seed, size: Size)
    requires
        g.wf(),
    ensures
        all_wf(spec_replicate(times, g, seed, size)),
{
    assert forall|i: int| 0 <= i < spec_replicate(times, g, seed, size).len() implies #[trigger] spec_replicate(times, g, seed, size)[i].wf() by {
        g.lemma_run_wf(spec_split(seed_at(seed, i as nat)).0, size);
    }
}

/// `v` as a count: negatives become zero, and counts stop at `usize::MAX`.
pub open spec fn count_of(v: int) -> nat {
    if v < 0 {
        0
    } else if v > usize::MAX {
        usize::MAX as nat
    } else {
        v as nat
    }
}

fn count(v: i64) -> (r: usize)
    ensures
        r == count_of(v as int),
{
    if v < 0 {
        0
    } else if v as u64 > usize::MAX as u64 {
        usize::MAX
    } else {
        v as usize
    }
}

/// Sequences whose length is drawn from `range` and whose items come from `gen`.
pub struct VecGen<G> {
    pub range: Range,
    pub gen: G,
}

impl<G: Gen> Gen for VecGen<G> {
    type Output = SeqNode<G::Output>;

    open spec fn wf(&self) -> bool {
        self.gen.wf()
    }

    open spec fn spec_run(&self, seed: Seed, size: Size) -> SeqNode<G::Output> {
        let sz = at_least_one(size);
        let k = spec_integral(self.range, seed, sz);
        SeqNode {
            items: List::of_seq(spec_replicate(count_of(k as int), self.gen, spec_split(seed).1, sz)),
            deletions: true,
            min_len: count_of(spec_lower_bound(sz.0 as int, self.range)) as usize,
        }
    }

    proof fn lemma_run_wf(&self, seed: Seed, size: Size) {
        let sz = at_least_one(size);
        let k = spec_integral(self.range, seed, sz);
        let items = spec_replicate(count_of(k as int), self.gen, spec_split(seed).1, sz);
        lemma_replicate_wf(count_of(k as int), self.gen, spec_split(seed).1, sz);
        List::lemma_view_of_seq(items);
    }

    fn run(&self, seed: Seed, size: Size) -> (r: SeqNode<G::Output>) {
        let sz = run_size(size);
        let k = random::integral(self.range, seed, sz);
        let lb = lower_bound(sz, self.range);
        let (_, s2) = split(seed);
        let n = count(k);
        let m = count(lb);
        let trees = replicate(n, &self.gen, s2, sz);
        let r = sequence(trees, true, m);
        proof {
            List::lemma_of_seq_view(r.items);
        }
        r
    }
}

/// Sequences of values of `g` whose length is drawn from `range` (at the size,
/// raised to one); shrinks never go below the range's lower bound.
pub fn vec<G: Gen>(range: Range, g: G) -> (r: VecGen<G>)
    ensures
        r.range == range,
        r.gen == g,
{
    VecGen { range, gen: g }
}

/// An optional tree: a node of the tree it holds, or the absent value.
pub enum Maybe<N> {
    Found(N),
    /// A present value that may also shrink to the absent one, first.
    Offered(N),
    Absent,
}

impl<N: Node> Dup for Maybe<N> {
    fn dup(&self) -> (r: Self) {
        match self {
            Maybe::Found(n) => Maybe::Found(n.dup()),
            Maybe::Offered(n) => Maybe::Offered(n.dup()),
            Maybe::Absent => Maybe::Absent,
        }
    }
}

fn found_nodes<N: Node>(cs: Vec<N>) -> (r: Vec<Maybe<N>>)
    ensures
        r@ == cs@.map_values(|c: N| Maybe::Found(c)),
{
    let mut out: Vec<Maybe<N>> = Vec::new();
    let mut i: usize = 0;
    while i < cs.len()
        invariant
            i <= cs@.len(),
            out@ == cs@.map_values(|c: N| Maybe::Found(c)).subrange(0, i as int),
        decreases cs@.len() - i,
    {
        out.push(Maybe::Found(cs[i].dup()));
        i += 1;
    }
    proof {
        assert(out@ =~= cs@.map_values(|c: N| Maybe::Found(c)));
    }
    out
}

impl<N: Node> Node for Maybe<N> {
    type Value = Option<N::Value>;

    open spec fn wf(&self) -> bool {
        match self {
            Maybe::Found(n) => n.wf(),
            Maybe::Offered(n) => n.wf(),
            Maybe::Absent => true,
        }
    }

    open spec fn view_value(&self) -> Option<N::Value> {
        match self {
            Maybe::Found(n) => Some(n.view_value()),
            Maybe::Offered(n) => Some(n.view_value()),
            Maybe::Absent => None,
        }
    }

    open spec fn view_children(&self) -> Seq<Self> {
        match self {
            Maybe::Found(n) => n.view_children().map_values(|c: N| Maybe::Found(c)),
            Maybe::Offered(n) => seq![Maybe::Absent] + n.view_children().map_values(|c: N| Maybe::Found(c)),
            Maybe::Absent => Seq::empty(),
        }
    }

    proof fn lemma_children_wf(&self) {
        match self {
            Maybe::Found(n) => n.lemma_children_wf(),
            Maybe::Offered(n) => {
                n.lemma_children_wf();
                assert forall|i: int| 0 <= i < self.view_children().len() implies #[trigger] self.view_children()[i].wf() by {
                    if i > 0 {
                        assert(self.view_children()[i] == Maybe::Found(n.view_children()[i - 1]));
                    }
                }
            },
            Maybe::Absent => {},
        }
    }

    fn value(&self) -> (r: Option<N::Value>) {
        match self {
            Maybe::Found(n) => Some(n.value()),
            Maybe::Offered(n) => Some(n.value()),
            Maybe::Absent => None,
        }
    }

    fn children(&self) -> (r: Vec<Self>) {
        match self {
            Maybe::Found(n) => found_nodes(n.children()),
            Maybe::Offered(n) => {
                let mut out: Vec<Maybe<N>> = vec![Maybe::Absent];
                let mut rest = found_nodes(n.children());
                out.append(&mut rest);
                out
            },
            Maybe::Absent => Vec::new(),
        }
    }
}

/// The number of attempts that a filter makes at `size`: the size raised to one.
pub open spec fn attempts_at(size: Size) -> nat {
    if size.0 < 1 {
        1
    } else {
        size.0 as nat
    }
}

/// The size of an attempt: `2k + n`, stopping at `isize::MAX`.
pub open spec fn attempt_size(k: nat, n: nat) -> Size {
    if 2 * k + n > isize::MAX {
        Size(isize::MAX)
    } else {
        Size((2 * k + n) as isize)
    }
}

/// One more than `size`, stopping at `isize::MAX`.
pub open spec fn grown(size: Size) -> Size {
    if size.0 == isize::MAX {
        size
    } else {
        Size((size.0 + 1) as isize)
    }
}

fn attempt_size_of(k: usize, n: usize) -> (r: Size)
    ensures
        r == attempt_size(k as nat, n as nat),
{
    let m: u128 = 2 * (k as u128) + n as u128;
    if m > isize::MAX as u128 {
        Size(isize::MAX)
    } else {
        Size(m as isize)
    }
}

/// Attempts of a filter: the `k`-th (counting from zero) with `n` attempts left
/// runs `g` at size `2k + n` with `seed`, and passes the second half of the split
/// seed on; the first value that satisfies `p` is kept, with its shrinks filtered.
pub open spec fn spec_try_filter<G: Gen, P: Fn(<G::Output as Node>::Value) -> bool>(
    g: G,
    p: P,
    seed: Seed,
    k: nat,
    n: nat,
) -> Maybe<FilterNode<G::Output, P>>
    decreases n,
{
    if n == 0 {
        Maybe::Absent
    } else {
        let t = g.spec_run(seed, attempt_size(k, n));
        if app(p, t.view_value()) {
            Maybe::Found(FilterNode { inner: t, p })
        } else {
            spec_try_filter(g, p, spec_split(seed).1, k + 1, (n - 1) as nat)
        }
    }
}

proof fn lemma_try_filter_wf<G: Gen, P: Fn(<G::Output as Node>::Value) -> bool + Copy>(g: G, p: P, seed: Seed, k: nat, n: nat)
    requires
        g.wf(),
        pure_fn(p),
    ensures
        spec_try_filter(g, p, seed, k, n).wf(),
    decreases n,
{
    if n > 0 {
        g.lemma_run_wf(seed, attempt_size(k, n));
        lemma_try_filter_wf(g, p, spec_split(seed).1, k + 1, (n - 1) as nat);
    }
}

fn try_filter_run<G: Gen, P: Fn(<G::Output as Node>::Value) -> bool + Copy>(g: &G, p: P, seed: Seed, n0: usize) -> (r: Maybe<FilterNode<G::Output, P>>)
    requires
        g.wf(),
        pure_fn(p),
    ensures
        r == spec_try_filter(*g, p, seed, 0, n0 as nat),
{
    let mut k: usize = 0;
    let mut n: usize = n0;
    let mut cur = seed;
    while n > 0
        invariant
            g.wf(),
            pure_fn(p),
            k + n == n0,
            spec_try_filter(*g, p, cur, k as nat, n as nat) == spec_try_filter(*g, p, seed, 0, n0 as nat),
        decreases n,
    {
        let sz = attempt_size_of(k, n);
        let t = g.run(cur, sz);
        proof {
            g.lemma_run_wf(cur, sz);
        }
        if p(t.value()) {
            return Maybe::Found(FilterNode { inner: t, p });
        }
        let (_, s2) = split(cur);
        cur = s2;
        k += 1;
        n -= 1;
    }
    Maybe::Absent
}

fn attempts_of(size: Size) -> (r: usize)
    ensures
        r == attempts_at(size),
{
    if size.0 < 1 {
        1
    } else {
        size.0 as usize
    }
}

/// Samples of `gen` that satisfy `p`, as `Some`; `None` when every attempt failed.
pub struct TryFilter<G, P> {
    pub gen: G,
    pub p: P,
}

impl<G: Gen, P: Fn(<G::Output as Node>::Value) -> bool + Copy> Gen for TryFilter<G, P> {
    type Output = Maybe<FilterNode<G::Output, P>>;

    open spec fn wf(&self) -> bool {
        self.gen.wf() && pure_fn(self.p)
    }

    open spec fn spec_run(&self, seed: Seed, size: Size) -> Maybe<FilterNode<G::Output, P>> {
        spec_try_filter(self.gen, self.p, seed, 0, attempts_at(size))
    }

    proof fn lemma_run_wf(&self, seed: Seed, size: Size) {
        lemma_try_filter_wf(self.gen, self.p, seed, 0, attempts_at(size));
    }

    fn run(&self, seed: Seed, size: Size) -> (r: Maybe<FilterNode<G::Output, P>>) {
        try_filter_run(&self.gen, self.p, seed, attempts_of(size))
    }
}

/// Resamples `g` at growing sizes, as many times as the size (at least once),
/// until a value satisfies `p`; `None` when none did.
pub fn try_filter<G: Gen, P: Fn(<G::Output as Node>::Value) -> bool + Copy>(p: P, g: G) -> (r: TryFilter<G, P>)
    ensures
        r.gen == g,
        r.p == p,
{
    TryFilter { gen: g, p }
}

/// The number of rounds that `filter` makes, each at a size one larger. The
/// rounds are bounded so that a predicate that nothing satisfies still ends.
pub const FILTER_ROUNDS: usize = 100;

/// Rounds of a filter: round `r` (counting from zero, `left` rounds left) makes
/// the attempts of `try_filter` at the size plus `r`, and passes the second half
/// of the split seed to the next round.
pub open spec fn spec_filter_rounds<G: Gen, P: Fn(<G::Output as Node>::Value) -> bool>(
    g: G,
    p: P,
    seed: Seed,
    size: Size,
    left: nat,
) -> Maybe<FilterNode<G::Output, P>>
    decreases left,
{
    if left == 0 {
        Maybe::Absent
    } else {
        let r = spec_try_filter(g, p, seed, 0, attempts_at(size));
        if r is Found {
            r
        } else {
            spec_filter_rounds(g, p, spec_split(seed).1, grown(size), (left - 1) as nat)
        }
    }
}

/// Samples of `gen` that satisfy `p`: rounds of `try_filter`, each at a size one
/// larger, up to `FILTER_ROUNDS`; `None` only when every round failed.
pub struct Filter<G, P> {
    pub gen: G,
    pub p: P,
}

impl<G: Gen, P: Fn(<G::Output as Node>::Value) -> bool + Copy> Gen for Filter<G, P> {
    type Output = Maybe<FilterNode<G::Output, P>>;

    open spec fn wf(&self) -> bool {
        self.gen.wf() && pure_fn(self.p)
    }

    open spec fn spec_run(&self, seed: Seed, size: Size) -> Maybe<FilterNode<G::Output, P>> {
        spec_filter_rounds(self.gen, self.p, seed, size, FILTER_ROUNDS as nat)
    }

    proof fn lemma_run_wf(&self, seed: Seed, size: Size) {
        lemma_filter_rounds_wf(self.gen, self.p, seed, size, FILTER_ROUNDS as nat);
    }

    fn run(&self, seed: Seed, size: Size) -> (r: Maybe<FilterNode<G::Output, P>>) {
        let mut sz = size;
        let mut cur = seed;
        let mut left: usize = FILTER_ROUNDS;
        while left > 0
            invariant
                self.gen.wf(),
                pure_fn(self.p),
                left <= FILTER_ROUNDS,
                spec_filter_rounds(self.gen, self.p, cur, sz, left as nat)
                    == spec_filter_rounds(self.gen, self.p, seed, size, FILTER_ROUNDS as nat),
            decreases left,
        {
            let r = try_filter_run(&self.gen, self.p, cur, attempts_of(sz));
            if let Maybe::Found(_) = r {
                return r;
            }
            let (_, s2) = split(cur);
            cur = s2;
            sz = if sz.0 == isize::MAX { sz } else { Size(sz.0 + 1) };
            left -= 1;
        }
        Maybe::Absent
    }
}

proof fn lemma_filter_rounds_wf<G: Gen, P: Fn(<G::Output as Node>::Value) -> bool + Copy>(g: G, p: P, seed: Seed, size: Size, left: nat)
    requires
        g.wf(),
        pure_fn(p),
    ensures
        spec_filter_rounds(g, p, seed, size, left).wf(),
    decreases left,
{
    if left > 0 {
        lemma_try_filter_wf(g, p, seed, 0, attempts_at(size));
        lemma_filter_rounds_wf(g, p, spec_split(seed).1, grown(size), (left - 1) as nat);
    }
}

/// Samples of `g` that satisfy `p`, retried at growing sizes.
pub fn filter<G: Gen, P: Fn(<G::Output as Node>::Value) -> bool + Copy>(p: P, g: G) -> (r: Filter<G, P>)
    ensures
        r.gen == g,
        r.p == p,
{
    Filter { gen: g, p }
}

/// The sum of the weights.
pub open spec fn total_weight<G>(ws: Seq<(u64, G)>) -> int
    decreases ws.len(),
{
    if ws.len() == 0 {
        0
    } else {
        ws[0].0 + total_weight(ws.drop_first())
    }
}

/// The position that a cumulative-subtraction scan of the weights picks for `n`:
/// the first whose running total reaches `n`.
pub open spec fn pick_index<G>(ws: Seq<(u64, G)>, n: int) -> int
    decreases ws.len(),
{
    if ws.len() <= 1 || n <= ws[0].0 {
        0
    } else {
        1 + pick_index(ws.drop_first(), n - ws[0].0)
    }
}

proof fn lemma_pick_index_bounds<G>(ws: Seq<(u64, G)>, n: int)
    requires
        ws.len() >= 1,
    ensures
        0 <= pick_index(ws, n) < ws.len(),
    decreases ws.len(),
{
    if ws.len() > 1 && n > ws[0].0 {
        lemma_pick_index_bounds(ws.drop_first(), n - ws[0].0);
    }
}

/// Every generator of `gs` is well formed.
pub open spec fn all_gens_wf<G: Gen>(gs: Seq<G>) -> bool {
    forall|i: int| 0 <= i < gs.len() ==> #[trigger] gs[i].wf()
}

/// The generator that the cumulative-subtraction scan of the weights picks for `n`.
pub open spec fn picked<G>(ws: Seq<(u64, G)>, n: int) -> G {
    ws[pick_index(ws, n)].1
}

/// The weights hold at least one choice, add up to between one and
/// `i64::MAX`, and every generator is well formed.
pub open spec fn choices_wf<G: Gen>(ws: Seq<(u64, G)>) -> bool {
    &&& ws.len() >= 1
    &&& 1 <= total_weight(ws) <= i64::MAX
    &&& forall|i: int| 0 <= i < ws.len() ==> #[trigger] ws[i].1.wf()
}

/// The tree of a weighted pick: an `Outer` node stands for the generator that
/// the drawn number picks (run with the stored seed and size), and the number
/// shrinks toward one, that is toward the first choice; an `Inner` node is a
/// node of the picked generator's tree.
pub enum PickNode<G: Gen> {
    Outer(Towards, List<(u64, G)>, Seed, Size),
    Inner(G::Output),
}

impl<G: Gen + Dup> Dup for PickNode<G> {
    fn dup(&self) -> (r: Self) {
        match self {
            PickNode::Outer(t, cs, s, n) => PickNode::Outer(*t, cs.dup(), *s, *n),
            PickNode::Inner(x) => PickNode::Inner(x.dup()),
        }
    }
}

impl<G: Gen + Dup> Node for PickNode<G> {
    type Value = <G::Output as Node>::Value;

    open spec fn wf(&self) -> bool {
        match self {
            PickNode::Outer(t, cs, s, n) => {
                &&& choices_wf(cs.view())
                &&& t.destination == 1
                &&& 1 <= t.value <= total_weight(cs.view())
            },
            PickNode::Inner(x) => x.wf(),
        }
    }

    open spec fn view_value(&self) -> <G::Output as Node>::Value {
        match self {
            PickNode::Outer(t, cs, s, n) => picked(cs.view(), t.value as int).spec_run(*s, *n).view_value(),
            PickNode::Inner(x) => x.view_value(),
        }
    }

    open spec fn view_children(&self) -> Seq<Self> {
        match self {
            PickNode::Outer(t, cs, s, n) => t.view_children().map_values(|c: Towards| PickNode::<G>::Outer(c, *cs, *s, *n))
                + picked(cs.view(), t.value as int).spec_run(*s, *n).view_children().map_values(|c: G::Output| PickNode::<G>::Inner(c)),
            PickNode::Inner(x) => x.view_children().map_values(|c: G::Output| PickNode::<G>::Inner(c)),
        }
    }

    proof fn lemma_children_wf(&self) {
        match self {
            PickNode::Outer(t, cs, s, n) => {
                lemma_towards_between(1, t.value as int);
                lemma_pick_index_bounds(cs.view(), t.value as int);
                let g = picked(cs.view(), t.value as int);
                g.lemma_run_wf(*s, *n);
                g.spec_run(*s, *n).lemma_children_wf();
                assert forall|i: int| 0 <= i < self.view_children().len() implies #[trigger] self.view_children()[i].wf() by {
                    if i < t.view_children().len() {
                        assert(t.view_children()[i].value == spec_towards(1, t.value as int)[i]);
                    }
                }
            },
            PickNode::Inner(x) => x.lemma_children_wf(),
        }
    }

    fn value(&self) -> (r: <G::Output as Node>::Value) {
        match self {
            PickNode::Outer(t, cs, s, n) => {
                let v = cs.dup().into_vec();
                let i = pick(&v, t.value);
                proof {
                    lemma_pick_index_bounds(cs.view(), t.value as int);
                    v@[i as int].1.lemma_run_wf(*s, *n);
                }
                v[i].1.run(*s, *n).value()
            },
            PickNode::Inner(x) => x.value(),
        }
    }

    fn children(&self) -> (r: Vec<Self>) {
        match self {
            PickNode::Outer(t, cs, s, n) => {
                let ts = t.children();
                let mut out: Vec<Self> = Vec::new();
                let mut i: usize = 0;
                while i < ts.len()
                    invariant
                        i <= ts@.len(),
                        out@ == ts@.map_values(|c: Towards| PickNode::<G>::Outer(c, *cs, *s, *n)).subrange(0, i as int),
                    decreases ts@.len() - i,
                {
                    out.push(PickNode::Outer(ts[i], cs.dup(), *s, *n));
                    i += 1;
                }
                proof {
                    assert(out@ =~= ts@.map_values(|c: Towards| PickNode::<G>::Outer(c, *cs, *s, *n)));
                }
                let v = cs.dup().into_vec();
                let k = pick(&v, t.value);
                proof {
                    lemma_pick_index_bounds(cs.view(), t.value as int);
                    v@[k as int].1.lemma_run_wf(*s, *n);
                }
                let xs = v[k].1.run(*s, *n).children();
                let mut j: usize = 0;
                while j < xs.len()
                    invariant
                        j <= xs@.len(),
                        out@ == ts@.map_values(|c: Towards| PickNode::<G>::Outer(c, *cs, *s, *n))
                            + xs@.map_values(|c: G::Output| PickNode::<G>::Inner(c)).subrange(0, j as int),
                    decreases xs@.len() - j,
                {
                    out.push(PickNode::Inner(xs[j].dup()));
                    j += 1;
                    proof {
                        assert(xs@.map_values(|c: G::Output| PickNode::<G>::Inner(c)).subrange(0, j as int)
                            =~= xs@.map_values(|c: G::Output| PickNode::<G>::Inner(c)).subrange(0, j - 1).push(PickNode::Inner(xs@[j - 1])));
                    }
                }
                proof {
                    assert(xs@.map_values(|c: G::Output| PickNode::<G>::Inner(c)).subrange(0, xs@.len() as int)
                        =~= xs@.map_values(|c: G::Output| PickNode::<G>::Inner(c)));
                }
                out
            },
            PickNode::Inner(x) => {
                let xs = x.children();
                let mut out: Vec<Self> = Vec::new();
                let mut i: usize = 0;
                while i < xs.len()
                    invariant
                        i <= xs@.len(),
                        out@ == xs@.map_values(|c: G::Output| PickNode::<G>::Inner(c)).subrange(0, i as int),
                    decreases xs@.len() - i,
                {
                    out.push(PickNode::Inner(xs[i].dup()));
                    i += 1;
                }
                proof {
                    assert(out@ =~= xs@.map_values(|c: G::Output| PickNode::<G>::Inner(c)));
                }
                out
            },
        }
    }
}

/// One generator picked with probability proportional to its weight.
pub struct Frequency<G> {
    pub choices: List<(u64, G)>,
}

impl<G: Gen + Dup> Dup for Frequency<G> {
    fn dup(&self) -> (r: Self) {
        Frequency { choices: self.choices.dup() }
    }
}

impl<G: Gen + Dup> Gen for Frequency<G> {
    type Output = PickNode<G>;

    open spec fn wf(&self) -> bool {
        choices_wf(self.choices.view())
    }

    open spec fn spec_run(&self, seed: Seed, size: Size) -> PickNode<G> {
        let n = spec_next_integer(1, total_weight(self.choices.view()) as i64, spec_split(seed).0);
        PickNode::Outer(Towards { destination: 1, value: n }, self.choices, spec_split(seed).1, size)
    }

    proof fn lemma_run_wf(&self, seed: Seed, size: Size) {
    }

    fn run(&self, seed: Seed, size: Size) -> (r: PickNode<G>) {
        let (s1, s2) = split(seed);
        let v = self.choices.dup().into_vec();
        let total = sum_weights(&v).unwrap();
        let n = random::integral(constant_range(1, total as i64), s1, size);
        PickNode::Outer(Towards { destination: 1, value: n }, self.choices.dup(), s2, size)
    }
}

/// The total weight, or `None` when it exceeds `i64::MAX`.
fn sum_weights<G>(xs: &Vec<(u64, G)>) -> (r: Option<u64>)
    ensures
        r is Some <==> total_weight(xs@) <= i64::MAX,
        r is Some ==> r->0 == total_weight(xs@),
{
    let mut i: usize = xs.len();
    let mut sum: u64 = 0;
    while i > 0
        invariant
            i <= xs@.len(),
            sum == total_weight(xs@.subrange(i as int, xs@.len() as int)),
            sum <= i64::MAX,
        decreases i,
    {
        i -= 1;
        proof {
            assert(xs@.subrange(i as int, xs@.len() as int).drop_first() =~= xs@.subrange(i + 1, xs@.len() as int));
        }
        if xs[i].0 > i64::MAX as u64 - sum {
            proof {
                lemma_total_bound(xs@, i as int);
            }
            return None;
        }
        sum = sum + xs[i].0;
    }
    proof {
        assert(xs@.subrange(0, xs@.len() as int) =~= xs@);
    }
    Some(sum)
}

proof fn lemma_total_bound<G>(ws: Seq<(u64, G)>, i: int)
    requires
        0 <= i <= ws.len(),
    ensures
        total_weight(ws) >= total_weight(ws.subrange(i, ws.len() as int)),
    decreases i,
{
    if i > 0 {
        lemma_total_bound(ws.drop_first(), i - 1);
        assert(ws.drop_first().subrange(i - 1, ws.drop_first().len() as int) =~= ws.subrange(i, ws.len() as int));
    } else {
        assert(ws.subrange(0, ws.len() as int) =~= ws);
    }
}

/// The position that a cumulative-subtraction scan of the weights picks for `n`.
fn pick<G>(xs: &Vec<(u64, G)>, n: i64) -> (r: usize)
    requires
        xs@.len() >= 1,
    ensures
        r == pick_index(xs@, n as int),
{
    let mut i: usize = 0;
    let mut rest: i128 = n as i128;
    let last = xs.len() - 1;
    proof {
        assert(xs@.subrange(0, xs@.len() as int) =~= xs@);
    }
    while i < last && rest > xs[i].0 as i128
        invariant
            last == xs@.len() - 1,
            i <= last,
            rest <= n,
            i > 0 ==> rest > 0,
            pick_index(xs@, n as int) == i + pick_index(xs@.subrange(i as int, xs@.len() as int), rest as int),
        decreases last - i,
    {
        proof {
            assert(xs@.subrange(i as int, xs@.len() as int).drop_first() =~= xs@.subrange(i + 1, xs@.len() as int));
        }
        rest = rest - xs[i].0 as i128;
        i += 1;
    }
    i
}

/// A position below `n`, drawn uniformly with `seed`.
fn uniform_index(n: usize, seed: Seed, size: Size) -> (r: usize)
    requires
        1 <= n <= i64::MAX,
    ensures
        r == spec_next_integer(0, (n - 1) as i64, seed),
        r < n,
{
    let i = random::integral(constant_range(0, (n - 1) as i64), seed, size);
    i as usize
}

/// Picks one of `xs` with probability proportional to its weight; `None` when
/// the weights add up to zero (as they do for no choices) or exceed `i64::MAX`.
/// The pick shrinks toward the first choice.
pub fn frequency<G: Gen>(xs: Vec<(u64, G)>) -> (r: Option<Frequency<G>>)
    ensures
        r is Some <==> 1 <= total_weight(xs@) <= i64::MAX,
        r is Some ==> r->0.choices.view() == xs@,
{
    match sum_weights(&xs) {
        Some(t) => {
            if t == 0 {
                None
            } else {
                Some(Frequency { choices: List::from_vec(xs) })
            }
        },
        None => None,
    }
}

/// Each generator with weight one.
pub open spec fn weighted_ones<G>(gens: Seq<G>) -> Seq<(u64, G)> {
    gens.map_values(|g: G| (1u64, g))
}

proof fn lemma_total_of_ones<G>(gens: Seq<G>)
    ensures
        total_weight(weighted_ones(gens)) == gens.len(),
    decreases gens.len(),
{
    if gens.len() > 0 {
        lemma_total_of_ones(gens.drop_first());
        assert(weighted_ones(gens).drop_first() =~= weighted_ones(gens.drop_first()));
    }
}

/// One of `gens`, picked uniformly (each with weight one), shrinking toward the
/// first; `None` when there are none.
pub fn choice<G: Gen>(gens: Vec<G>) -> (r: Option<Frequency<G>>)
    ensures
        r is Some <==> 1 <= gens@.len() <= i64::MAX,
        r is Some ==> r->0.choices.view() == weighted_ones(gens@),
{
    if gens.len() == 0 || gens.len() as u64 > i64::MAX as u64 {
        return None;
    }
    let ghost all = gens@;
    let mut gens = gens;
    let mut l: List<(u64, G)> = List::Nil;
    while gens.len() > 0
        invariant
            gens@ == all.subrange(0, gens@.len() as int),
            l.view() == weighted_ones(all.subrange(gens@.len() as int, all.len() as int)),
            gens@.len() <= all.len(),
        decreases gens@.len(),
    {
        let g = gens.pop().unwrap();
        proof {
            assert(seq![(1u64, g)] + l.view() =~= weighted_ones(all.subrange(gens@.len() as int, all.len() as int)));
        }
        l = List::Cons((1, g), Box::new(l));
    }
    proof {
        assert(all.subrange(0, all.len() as int) =~= all);
        lemma_total_of_ones(all);
    }
    Some(Frequency { choices: l })
}

/// The generator at position `i` of the non-recursive generators followed by the
/// recursive ones, with the size it runs at: the recursive ones at half `size`.
pub open spec fn rec_pick<G>(nonrecs: Seq<G>, recs: Seq<G>, i: int, size: Size) -> (G, Size) {
    if i < nonrecs.len() {
        (nonrecs[i], size)
    } else {
        (recs[i - nonrecs.len()], Size((size.0 / 2) as isize))
    }
}

/// The tree of a recursive choice: an `Outer` node stands for the generator at
/// the drawn position (run with the stored seed and size), and the position
/// shrinks toward zero, that is toward the non-recursive generators; an `Inner`
/// node is a node of the picked generator's tree.
pub enum RecPickNode<G: Gen> {
    Outer(Towards, List<G>, List<G>, Seed, Size),
    Inner(G::Output),
}

impl<G: Gen + Dup> Dup for RecPickNode<G> {
    fn dup(&self) -> (r: Self) {
        match self {
            RecPickNode::Outer(t, a, b, s, n) => RecPickNode::Outer(*t, a.dup(), b.dup(), *s, *n),
            RecPickNode::Inner(x) => RecPickNode::Inner(x.dup()),
        }
    }
}

/// Runs the generator at position `i`, at its size.
fn run_rec_pick<G: Gen + Dup>(nonrecs: &List<G>, recs: &List<G>, i: usize, seed: Seed, size: Size) -> (r: G::Output)
    requires
        i < nonrecs.view().len() + recs.view().len(),
        i >= nonrecs.view().len() ==> size.0 > 1,
        all_gens_wf(nonrecs.view()),
        all_gens_wf(recs.view()),
    ensures
        r == rec_pick(nonrecs.view(), recs.view(), i as int, size).0.spec_run(seed, rec_pick(nonrecs.view(), recs.view(), i as int, size).1),
        r.wf(),
{
    let a = nonrecs.dup().into_vec();
    let b = recs.dup().into_vec();
    if i < a.len() {
        proof {
            a@[i as int].lemma_run_wf(seed, size);
        }
        a[i].run(seed, size)
    } else {
        let half = Size(size.0 / 2);
        proof {
            b@[i - a@.len()].lemma_run_wf(seed, half);
        }
        b[i - a.len()].run(seed, half)
    }
}

impl<G: Gen + Dup> Node for RecPickNode<G> {
    type Value = <G::Output as Node>::Value;

    open spec fn wf(&self) -> bool {
        match self {
            RecPickNode::Outer(t, a, b, s, n) => {
                &&& all_gens_wf(a.view())
                &&& all_gens_wf(b.view())
                &&& t.destination == 0
                &&& 0 <= t.value < a.view().len() + b.view().len()
                &&& t.value >= a.view().len() ==> n.0 > 1
                &&& a.view().len() + b.view().len() <= usize::MAX
            },
            RecPickNode::Inner(x) => x.wf(),
        }
    }

    open spec fn view_value(&self) -> <G::Output as Node>::Value {
        match self {
            RecPickNode::Outer(t, a, b, s, n) => {
                let (g, z) = rec_pick(a.view(), b.view(), t.value as int, *n);
                g.spec_run(*s, z).view_value()
            },
            RecPickNode::Inner(x) => x.view_value(),
        }
    }

    open spec fn view_children(&self) -> Seq<Self> {
        match self {
            RecPickNode::Outer(t, a, b, s, n) => {
                let (g, z) = rec_pick(a.view(), b.view(), t.value as int, *n);
                t.view_children().map_values(|c: Towards| RecPickNode::<G>::Outer(c, *a, *b, *s, *n))
                    + g.spec_run(*s, z).view_children().map_values(|c: G::Output| RecPickNode::<G>::Inner(c))
            },
            RecPickNode::Inner(x) => x.view_children().map_values(|c: G::Output| RecPickNode::<G>::Inner(c)),
        }
    }

    proof fn lemma_children_wf(&self) {
        match self {
            RecPickNode::Outer(t, a, b, s, n) => {
                lemma_towards_between(0, t.value as int);
                let (g, z) = rec_pick(a.view(), b.view(), t.value as int, *n);
                g.lemma_run_wf(*s, z);
                g.spec_run(*s, z).lemma_children_wf();
                assert forall|i: int| 0 <= i < self.view_children().len() implies #[trigger] self.view_children()[i].wf() by {
                    if i < t.view_children().len() {
                        assert(t.view_children()[i].value == spec_towards(0, t.value as int)[i]);
                    }
                }
            },
            RecPickNode::Inner(x) => x.lemma_children_wf(),
        }
    }

    fn value(&self) -> (r: <G::Output as Node>::Value) {
        match self {
            RecPickNode::Outer(t, a, b, s, n) => run_rec_pick(a, b, t.value as usize, *s, *n).value(),
            RecPickNode::Inner(x) => x.value(),
        }
    }

    fn children(&self) -> (r: Vec<Self>) {
        match self {
            RecPickNode::Outer(t, a, b, s, n) => {
                let ts = t.children();
                let mut out: Vec<Self> = Vec::new();
                let mut i: usize = 0;
                while i < ts.len()
                    invariant
                        i <= ts@.len(),
                        out@ == ts@.map_values(|c: Towards| RecPickNode::<G>::Outer(c, *a, *b, *s, *n)).subrange(0, i as int),
                    decreases ts@.len() - i,
                {
                    out.push(RecPickNode::Outer(ts[i], a.dup(), b.dup(), *s, *n));
                    i += 1;
                }
                proof {
                    assert(out@ =~= ts@.map_values(|c: Towards| RecPickNode::<G>::Outer(c, *a, *b, *s, *n)));
                }
                let xs = run_rec_pick(a, b, t.value as usize, *s, *n).children();
                let mut j: usize = 0;
                while j < xs.len()
                    invariant
                        j <= xs@.len(),
                        out@ == ts@.map_values(|c: Towards| RecPickNode::<G>::Outer(c, *a, *b, *s, *n))
                            + xs@.map_values(|c: G::Output| RecPickNode::<G>::Inner(c)).subrange(0, j as int),
                    decreases xs@.len() - j,
                {
                    out.push(RecPickNode::Inner(xs[j].dup()));
                    j += 1;
                    proof {
                        assert(xs@.map_values(|c: G::Output| RecPickNode::<G>::Inner(c)).subrange(0, j as int)
                            =~= xs@.map_values(|c: G::Output| RecPickNode::<G>::Inner(c)).subrange(0, j - 1).push(RecPickNode::Inner(xs@[j - 1])));
                    }
                }
                proof {
                    assert(xs@.map_values(|c: G::Output| RecPickNode::<G>::Inner(c)).subrange(0, xs@.len() as int)
                        =~= xs@.map_values(|c: G::Output| RecPickNode::<G>::Inner(c)));
                }
                out
            },
            RecPickNode::Inner(x) => {
                let xs = x.children();
                let mut out: Vec<Self> = Vec::new();
                let mut i: usize = 0;
                while i < xs.len()
                    invariant
                        i <= xs@.len(),
                        out@ == xs@.map_values(|c: G::Output| RecPickNode::<G>::Inner(c)).subrange(0, i as int),
                    decreases xs@.len() - i,
                {
                    out.push(RecPickNode::Inner(xs[i].dup()));
                    i += 1;
                }
                proof {
                    assert(out@ =~= xs@.map_values(|c: G::Output| RecPickNode::<G>::Inner(c)));
                }
                out
            },
        }
    }
}

/// A choice for recursive structures: at size one or less only the
/// non-recursive generators are offered; otherwise all of them, the recursive
/// ones at half the size. The pick shrinks toward the first non-recursive one.
pub struct ChoiceRec<G> {
    pub nonrecs: List<G>,
    pub recs: List<G>,
}

impl<G: Gen + Dup> Dup for ChoiceRec<G> {
    fn dup(&self) -> (r: Self) {
        ChoiceRec { nonrecs: self.nonrecs.dup(), recs: self.recs.dup() }
    }
}

/// The number of generators that a recursive choice offers at `size`.
pub open spec fn offered<G>(c: ChoiceRec<G>, size: Size) -> int {
    if size.0 <= 1 {
        c.nonrecs.view().len() as int
    } else {
        (c.nonrecs.view().len() + c.recs.view().len()) as int
    }
}

impl<G: Gen + Dup> Gen for ChoiceRec<G> {
    type Output = RecPickNode<G>;

    open spec fn wf(&self) -> bool {
        &&& 1 <= self.nonrecs.view().len()
        &&& self.nonrecs.view().len() + self.recs.view().len() <= i64::MAX
        &&& self.nonrecs.view().len() + self.recs.view().len() <= usize::MAX
        &&& all_gens_wf(self.nonrecs.view())
        &&& all_gens_wf(self.recs.view())
    }

    open spec fn spec_run(&self, seed: Seed, size: Size) -> RecPickNode<G> {
        let i = spec_next_integer(0, (offered(*self, size) - 1) as i64, spec_split(seed).0);
        RecPickNode::Outer(Towards { destination: 0, value: i }, self.nonrecs, self.recs, spec_split(seed).1, size)
    }

    proof fn lemma_run_wf(&self, seed: Seed, size: Size) {
    }

    fn run(&self, seed: Seed, size: Size) -> (r: RecPickNode<G>) {
        let (s1, s2) = split(seed);
        let nl = self.nonrecs.dup().into_vec().len();
        let total = if size.0 <= 1 { nl } else { nl + self.recs.dup().into_vec().len() };
        let i = uniform_index(total, s1, size);
        RecPickNode::Outer(Towards { destination: 0, value: i as i64 }, self.nonrecs.dup(), self.recs.dup(), s2, size)
    }
}

/// Picks among non-recursive and recursive generators; `None` when there is no
/// non-recursive one, or when there are more than `i64::MAX` in all.
pub fn choice_rec<G: Gen>(nonrecs: Vec<G>, recs: Vec<G>) -> (r: Option<ChoiceRec<G>>)
    ensures
        r is Some <==> nonrecs@.len() >= 1 && nonrecs@.len() + recs@.len() <= i64::MAX,
        r is Some ==> r->0.nonrecs.view() == nonrecs@ && r->0.recs.view() == recs@,
{
    if nonrecs.len() == 0 || recs.len() as u128 + nonrecs.len() as u128 > i64::MAX as u128 {
        None
    } else {
        Some(ChoiceRec { nonrecs: List::from_vec(nonrecs), recs: List::from_vec(recs) })
    }
}

/// The tree of an item picked from a list: the index shrinks toward the first item.
pub struct ItemNode<A> {
    pub index: Towards,
    pub items: List<A>,
}

impl<A: Dup> Dup for ItemNode<A> {
    fn dup(&self) -> (r: Self) {
        ItemNode { index: self.index, items: self.items.dup() }
    }
}

impl<A: Dup> Node for ItemNode<A> {
    type Value = A;

    open spec fn wf(&self) -> bool {
        self.index.destination == 0 && 0 <= self.index.value < self.items.view().len()
    }

    open spec fn view_value(&self) -> A {
        self.items.view()[self.index.value as int]
    }

    open spec fn view_children(&self) -> Seq<Self> {
        self.index.view_children().map_values(|c: Towards| ItemNode { index: c, items: self.items })
    }

    proof fn lemma_children_wf(&self) {
        lemma_towards_between(0, self.index.value as int);
    }

    fn value(&self) -> (r: A) {
        let v = self.items.dup().into_vec();
        v[self.index.value as usize].dup()
    }

    fn children(&self) -> (r: Vec<Self>) {
        let cs = self.index.children();
        let mut out: Vec<ItemNode<A>> = Vec::new();
        let mut i: usize = 0;
        while i < cs.len()
            invariant
                i <= cs@.len(),
                cs@ == self.index.view_children(),
                out@ == self.view_children().subrange(0, i as int),
            decreases cs@.len() - i,
        {
            out.push(ItemNode { index: cs[i], items: self.items.dup() });
            i += 1;
        }
        proof {
            assert(out@ =~= self.view_children());
        }
        out
    }
}

/// One of the items, picked uniformly.
pub struct Item<A> {
    pub items: List<A>,
}

impl<A: Dup> Gen for Item<A> {
    type Output = ItemNode<A>;

    open spec fn wf(&self) -> bool {
        1 <= self.items.view().len() <= i64::MAX
    }

    open spec fn spec_run(&self, seed: Seed, size: Size) -> ItemNode<A> {
        let i = spec_next_integer(0, (self.items.view().len() - 1) as i64, spec_split(seed).0);
        ItemNode { index: Towards { destination: 0, value: i }, items: self.items }
    }

    proof fn lemma_run_wf(&self, seed: Seed, size: Size) {
    }

    fn run(&self, seed: Seed, size: Size) -> (r: ItemNode<A>) {
        let (s1, _) = split(seed);
        let n = self.items.dup().into_vec().len();
        let i = uniform_index(n, s1, size);
        ItemNode { index: Towards { destination: 0, value: i as i64 }, items: self.items.dup() }
    }
}

/// One of `xs`, picked uniformly, shrinking toward the first; `None` when there
/// are none.
pub fn item<A: Dup>(xs: Vec<A>) -> (r: Option<Item<A>>)
    ensures
        r is Some <==> xs@.len() >= 1,
        r is Some ==> r->0.items.view() == xs@,
{
    if xs.len() == 0 {
        None
    } else {
        Some(Item { items: List::from_vec(xs) })
    }
}

/// `None` with weight 2 against `Some` of a value of `gen` with weight one more
/// than the size (clamped to `0..=99`); a present value shrinks to `None` first.
pub struct OptionGen<G> {
    pub gen: G,
}

/// The size clamped to `0..=99`.
pub open spec fn clamped(size: Size) -> int {
    if size.0 < 0 {
        0
    } else if size.0 > 99 {
        99
    } else {
        size.0 as int
    }
}

impl<G: Gen> Gen for OptionGen<G> {
    type Output = Maybe<G::Output>;

    open spec fn wf(&self) -> bool {
        self.gen.wf()
    }

    open spec fn spec_run(&self, seed: Seed, size: Size) -> Maybe<G::Output> {
        let n = spec_next_integer(1, (3 + clamped(size)) as i64, spec_split(seed).0);
        if n <= 2 {
            Maybe::Absent
        } else {
            Maybe::Offered(self.gen.spec_run(spec_split(seed).1, size))
        }
    }

    proof fn lemma_run_wf(&self, seed: Seed, size: Size) {
        self.gen.lemma_run_wf(spec_split(seed).1, size);
    }

    fn run(&self, seed: Seed, size: Size) -> (r: Maybe<G::Output>) {
        let (s1, s2) = split(seed);
        let sz: i64 = if size.0 < 0 {
            0
        } else if size.0 > 99 {
            99
        } else {
            size.0 as i64
        };
        let n = random::integral(constant_range(1, 3 + sz), s1, size);
        if n <= 2 {
            Maybe::Absent
        } else {
            Maybe::Offered(self.gen.run(s2, size))
        }
    }
}

/// Optional values of `g`: absent more often at small sizes, present more often
/// at large ones.
pub fn option<G: Gen>(g: G) -> (r: OptionGen<G>)
    ensures
        r.gen == g,
{
    OptionGen { gen: g }
}

/// The values of `gen`, without their shrinks.
pub struct NoShrink<G> {
    pub gen: G,
}

impl<G: Gen> Gen for NoShrink<G> where <G::Output as Node>::Value: Dup {
    type Output = Tree<<G::Output as Node>::Value>;

    open spec fn wf(&self) -> bool {
        self.gen.wf()
    }

    open spec fn spec_run(&self, seed: Seed, size: Size) -> Tree<<G::Output as Node>::Value> {
        Tree { root: self.gen.spec_run(seed, size).view_value(), subtrees: Box::new(Forest::Nil) }
    }

    proof fn lemma_run_wf(&self, seed: Seed, size: Size) {
    }

    fn run(&self, seed: Seed, size: Size) -> (r: Tree<<G::Output as Node>::Value>) {
        proof {
            self.gen.lemma_run_wf(seed, size);
        }
        let t = self.gen.run(seed, size);
        Tree { root: t.value(), subtrees: Box::new(Forest::Nil) }
    }
}

/// Drops the shrinks of `g`.
pub fn no_shrink<G: Gen>(g: G) -> (r: NoShrink<G>)
    ensures
        r.gen == g,
{
    NoShrink { gen: g }
}

impl<A: Dup> Dup for Constant<A> {
    fn dup(&self) -> (r: Self) {
        Constant { value: self.value.dup() }
    }
}

impl Dup for Integral {
    fn dup(&self) -> (r: Self) {
        Integral { range: self.range }
    }
}

impl<F: Copy, R: Copy> Dup for Create<F, R> {
    fn dup(&self) -> (r: Self) {
        Create { shrink: self.shrink, random: self.random }
    }
}

impl<G: Dup, F: Copy> Dup for ShrinkGen<G, F> {
    fn dup(&self) -> (r: Self) {
        ShrinkGen { gen: self.gen.dup(), f: self.f }
    }
}

impl<G: Dup, F: Copy> Dup for MapGen<G, F> {
    fn dup(&self) -> (r: Self) {
        MapGen { gen: self.gen.dup(), f: self.f }
    }
}

impl<G: Dup, K: Copy> Dup for BindGen<G, K> {
    fn dup(&self) -> (r: Self) {
        BindGen { gen: self.gen.dup(), k: self.k }
    }
}

impl<F: Copy> Dup for Sized<F> {
    fn dup(&self) -> (r: Self) {
        Sized { f: self.f }
    }
}

impl<G: Dup> Dup for Resize<G> {
    fn dup(&self) -> (r: Self) {
        Resize { size: self.size, gen: self.gen.dup() }
    }
}

impl<G: Dup, F: Copy> Dup for Scale<G, F> {
    fn dup(&self) -> (r: Self) {
        Scale { f: self.f, gen: self.gen.dup() }
    }
}

impl<G: Dup> Dup for VecGen<G> {
    fn dup(&self) -> (r: Self) {
        VecGen { range: self.range, gen: self.gen.dup() }
    }
}

impl<G: Dup, P: Copy> Dup for TryFilter<G, P> {
    fn dup(&self) -> (r: Self) {
        TryFilter { gen: self.gen.dup(), p: self.p }
    }
}

impl<G: Dup, P: Copy> Dup for Filter<G, P> {
    fn dup(&self) -> (r: Self) {
        Filter { gen: self.gen.dup(), p: self.p }
    }
}

impl<A: Dup> Dup for Item<A> {
    fn dup(&self) -> (r: Self) {
        Item { items: self.items.dup() }
    }
}

impl<G: Dup> Dup for OptionGen<G> {
    fn dup(&self) -> (r: Self) {
        OptionGen { gen: self.gen.dup() }
    }
}

impl<G: Dup> Dup for NoShrink<G> {
    fn dup(&self) -> (r: Self) {
        NoShrink { gen: self.gen.dup() }
    }
}

/// Sampling is deterministic: two runs of one generator with the same seed and
/// size give trees with equal root values and equal children.
pub proof fn law_deterministic<G: Gen>(g: G, seed: Seed, size: Size, t1: G::Output, t2: G::Output)
    requires
        t1 == g.spec_run(seed, size),
        t2 == g.spec_run(seed, size),
    ensures
        t1.view_value() == t2.view_value(),
        t1.view_children() == t2.view_children(),
{
}

/// Splitting moves the first half away from the parent seed, and a bound
/// generator runs its first generator on exactly that first half: its tree is
/// the one the first generator yields alone with it.
pub proof fn law_split_bind<G: Gen, G2: Gen, K: Fn(<G::Output as Node>::Value) -> G2 + Copy>(
    g: G,
    k: K,
    seed: Seed,
    size: Size,
)
    requires
        seed.wf(),
    ensures
        spec_split(seed).0 != seed,
        match (BindGen { gen: g, k }).spec_run(seed, size) {
            BoundNode::Outer(t, k2, s2, n2) => t == g.spec_run(spec_split(seed).0, size) && k2 == k
                && s2 == spec_split(seed).1 && n2 == size,
            BoundNode::Inner(_) => false,
        },
{
    lemma_split_moves(seed);
}

/// Mapping over a constant behaves as the constant of the mapped value: the same
/// root value and no shrinks.
pub proof fn law_map_constant<A: Dup, B: Dup, F: Fn(A) -> B + Copy>(f: F, x: A, seed: Seed, size: Size)
    requires
        pure_fn(f),
    ensures
        (MapGen { gen: Constant { value: x }, f }).spec_run(seed, size).view_value() == (Constant { value: app(f, x) }).spec_run(seed, size).view_value(),
        (MapGen { gen: Constant { value: x }, f }).spec_run(seed, size).view_children().len() == 0,
        (Constant { value: app(f, x) }).spec_run(seed, size).view_children().len() == 0,
{
}

/// Binding a constant behaves as the continuation applied to it (run with the
/// second half of the split seed): the same root value, and its shrinks.
pub proof fn law_bind_constant<A: Dup, G2: Gen, K: Fn(A) -> G2 + Copy>(x: A, k: K, seed: Seed, size: Size)
    requires
        pure_cont(k),
    ensures
        ({
            let b = (BindGen { gen: Constant { value: x }, k }).spec_run(seed, size);
            let t = app(k, x).spec_run(spec_split(seed).1, size);
            &&& b.view_value() == t.view_value()
            &&& b.view_children() == t.view_children().map_values(|c: G2::Output| BoundNode::<Tree<A>, K, G2::Output>::Inner(c))
        }),
{
    let b = (BindGen { gen: Constant { value: x }, k }).spec_run(seed, size);
    let t = app(k, x).spec_run(spec_split(seed).1, size);
    let outer = Seq::<Tree<A>>::empty().map_values(|c: Tree<A>| BoundNode::<Tree<A>, K, G2::Output>::Outer(c, k, spec_split(seed).1, size));
    assert(outer + t.view_children().map_values(|c: G2::Output| BoundNode::<Tree<A>, K, G2::Output>::Inner(c))
        =~= t.view_children().map_values(|c: G2::Output| BoundNode::<Tree<A>, K, G2::Output>::Inner(c)));
}

/// A generated sequence is never shorter than the lower bound of its length
/// range (at the size, raised to one), when that bound is a possible length; and
/// its tree keeps that bound as its minimum length, which every shrink respects
/// (see `law_sequence_keeps_min_len`).
pub proof fn law_vec_at_least<G: Gen>(range: Range, g: G, seed: Seed, size: Size)
    ensures
        ({
            let lb = spec_lower_bound(at_least_one(size).0 as int, range);
            let t = (VecGen { range, gen: g }).spec_run(seed, size);
            &&& lb <= usize::MAX ==> t.view_value().view().len() >= lb
            &&& t.min_len == count_of(lb)
            &&& t.items.view().len() >= t.min_len
        }),
{
    let sz = at_least_one(size);
    let k = spec_integral(range, seed, sz);
    let items = spec_replicate(count_of(k as int), g, spec_split(seed).1, sz);
    List::lemma_view_of_seq(items);
    let vals = items.map_values(|e: G::Output| e.view_value());
    List::lemma_view_of_seq(vals);
}

/// `count` trees of `g` at `size`, from a fresh random seed.
pub fn sample_tree<G: Gen>(size: Size, count: usize, g: &G) -> (r: Vec<G::Output>)
    requires
        g.wf(),
    ensures
        exists|s: Seed| r@ == spec_replicate(count as nat, *g, s, at_least_one(size)),
{
    replicate(count, g, seed::random(), run_size(size))
}

/// `count` values of `g` at `size`, from a fresh random seed.
pub fn sample<G: Gen>(size: Size, count: usize, g: &G) -> (r: Vec<<G::Output as Node>::Value>)
    requires
        g.wf(),
    ensures
        exists|s: Seed| r@ == spec_replicate(count as nat, *g, s, at_least_one(size)).map_values(|t: G::Output| t.view_value()),
{
    let ts = sample_tree(size, count, g);
    let ghost s = choose|s: Seed| ts@ == spec_replicate(count as nat, *g, s, at_least_one(size));
    proof {
        lemma_replicate_wf(count as nat, *g, s, at_least_one(size));
    }
    let mut out: Vec<<G::Output as Node>::Value> = Vec::new();
    let mut i: usize = 0;
    while i < ts.len()
        invariant
            i <= ts@.len(),
            ts@ == spec_replicate(count as nat, *g, s, at_least_one(size)),
            all_wf(ts@),
            out@ == ts@.map_values(|t: G::Output| t.view_value()).subrange(0, i as int),
        decreases ts@.len() - i,
    {
        let v = ts[i].value();
        proof {
            assert(out@.push(v) =~= ts@.map_values(|t: G::Output| t.view_value()).subrange(0, i + 1));
        }
        out.push(v);
        i += 1;
    }
    proof {
        assert(out@ =~= ts@.map_values(|t: G::Output| t.view_value()));
    }
    out
}

/// One tree of `g` at size 30, from a fresh random seed.
pub fn generate_tree<G: Gen>(g: &G) -> (r: G::Output)
    requires
        g.wf(),
    ensures
        exists|s: Seed| r == g.spec_run(s, Size(30)),
{
    g.run(seed::random(), Size(30))
}

} // verus!
