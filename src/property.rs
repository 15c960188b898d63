use vstd::prelude::*;
use vstd::string::StringExecFns;
use crate::gen::Gen;
use crate::journal::Journal;
use crate::outcome::Outcome;
use crate::range::Size;
use crate::seed;
use crate::seed::{spec_split, split, Seed};
use crate::tree::{app, pure_fn, Dup, Node};

verus! {

/// The character of a decimal digit.
pub open spec fn digit_char(d: int) -> char {
    if d == 0 {
        '0'
    } else if d == 1 {
        '1'
    } else if d == 2 {
        '2'
    } else if d == 3 {
        '3'
    } else if d == 4 {
        '4'
    } else if d == 5 {
        '5'
    } else if d == 6 {
        '6'
    } else if d == 7 {
        '7'
    } else if d == 8 {
        '8'
    } else {
        '9'
    }
}

/// The decimal digits of `n`, most significant first.
pub open spec fn digits(n: nat) -> Seq<char>
    decreases n,
{
    if n < 10 {
        seq![digit_char(n as int)]
    } else {
        digits(n / 10).push(digit_char((n % 10) as int))
    }
}

/// `x` in decimal, with a leading `-` when negative.
pub open spec fn decimal(x: int) -> Seq<char> {
    if x < 0 {
        seq!['-'] + digits((-x) as nat)
    } else {
        digits(x as nat)
    }
}

/// Relies on the `Display` of `i64` (through `to_string`): the decimal digits of
/// `x`, with a leading `-` when it is negative.
#[verifier::external_body]
pub(crate) fn decimal_string(x: i64) -> (r: String)
    ensures
        r@ == decimal(x as int),
{
    x.to_string()
}

/// A value that can be written as a line of a journal.
pub trait Show {
    spec fn shown(&self) -> Seq<char>;

    fn show(&self) -> (r: String)
        ensures
            r@ == self.shown(),
    ;
}

impl Show for i64 {
    open spec fn shown(&self) -> Seq<char> {
        decimal(*self as int)
    }

    fn show(&self) -> (r: String) {
        decimal_string(*self)
    }
}

impl Show for bool {
    open spec fn shown(&self) -> Seq<char> {
        if *self {
            seq!['t', 'r', 'u', 'e']
        } else {
            seq!['f', 'a', 'l', 's', 'e']
        }
    }

    fn show(&self) -> (r: String) {
        if *self {
            proof {
                reveal_strlit("true");
            }
            String::from_str("true")
        } else {
            proof {
                reveal_strlit("false");
            }
            String::from_str("false")
        }
    }
}

/// The tree of a property over the values of a generator: each node holds the
/// generated value and the outcome of the predicate on it.
pub struct ForAllNode<N, P> {
    pub inner: N,
    pub p: P,
}

impl<N: Node, P: Copy> Dup for ForAllNode<N, P> {
    fn dup(&self) -> (r: Self) {
        ForAllNode { inner: self.inner.dup(), p: self.p }
    }
}

impl<N: Node, B, P: Fn(N::Value) -> Outcome<B> + Copy> Node for ForAllNode<N, P> where N::Value: Dup {
    type Value = (N::Value, Outcome<B>);

    open spec fn wf(&self) -> bool {
        self.inner.wf() && pure_fn(self.p)
    }

    open spec fn view_value(&self) -> (N::Value, Outcome<B>) {
        (self.inner.view_value(), app(self.p, self.inner.view_value()))
    }

    open spec fn view_children(&self) -> Seq<Self> {
        self.inner.view_children().map_values(|c: N| ForAllNode { inner: c, p: self.p })
    }

    proof fn lemma_children_wf(&self) {
        self.inner.lemma_children_wf();
    }

    fn value(&self) -> (r: (N::Value, Outcome<B>)) {
        let v = self.inner.value();
        let o = (self.p)(v.dup());
        (v, o)
    }

    fn children(&self) -> (r: Vec<Self>) {
        let cs = self.inner.children();
        let mut out: Vec<Self> = Vec::new();
        let mut i: usize = 0;
        while i < cs.len()
            invariant
                i <= cs@.len(),
                out@ == self.view_children().subrange(0, i as int),
                cs@ == self.inner.view_children(),
            decreases cs@.len() - i,
        {
            out.push(ForAllNode { inner: cs[i].dup(), p: self.p });
            i += 1;
        }
        proof {
            assert(out@ =~= self.view_children());
        }
        out
    }
}

/// The property that `p` holds of the values of `gen`.
pub struct ForAll<G, P> {
    pub gen: G,
    pub p: P,
}

impl<G: Gen, B, P: Fn(<G::Output as Node>::Value) -> Outcome<B> + Copy> Gen for ForAll<G, P> where <G::Output as Node>::Value: Dup {
    type Output = ForAllNode<G::Output, P>;

    open spec fn wf(&self) -> bool {
        self.gen.wf() && pure_fn(self.p)
    }

    open spec fn spec_run(&self, seed: Seed, size: Size) -> ForAllNode<G::Output, P> {
        ForAllNode { inner: self.gen.spec_run(seed, size), p: self.p }
    }

    proof fn lemma_run_wf(&self, seed: Seed, size: Size) {
        self.gen.lemma_run_wf(seed, size);
    }

    fn run(&self, seed: Seed, size: Size) -> (r: ForAllNode<G::Output, P>) {
        ForAllNode { inner: self.gen.run(seed, size), p: self.p }
    }
}

impl<G: Dup, P: Copy> Dup for ForAll<G, P> {
    fn dup(&self) -> (r: Self) {
        ForAll { gen: self.gen.dup(), p: self.p }
    }
}

/// The property that `p` holds of every value of `g`; each value is recorded in
/// the journal of a counterexample.
pub fn for_all<G: Gen, B, P: Fn(<G::Output as Node>::Value) -> Outcome<B> + Copy>(g: G, p: P) -> (r: ForAll<G, P>)
    where <G::Output as Node>::Value: Dup
    ensures
        r == (ForAll { gen: g, p }),
{
    ForAll { gen: g, p }
}

impl Show for () {
    open spec fn shown(&self) -> Seq<char> {
        Seq::empty()
    }

    fn show(&self) -> (r: String) {
        String::new()
    }
}

impl<A: Show, C: Show> Show for (A, Option<C>) {
    open spec fn shown(&self) -> Seq<char> {
        match self.1 {
            Some(c) => self.0.shown() + c.shown(),
            None => self.0.shown(),
        }
    }

    fn show(&self) -> (r: String) {
        let mut s = self.0.show();
        match &self.1 {
            Some(c) => {
                let t = c.show();
                s.append(t.as_str());
            },
            None => {},
        }
        s
    }
}

/// The record and outcome of a property sequenced after another: a failure or a
/// discard of the first stops there; a success runs the continuation's property
/// on its value, and keeps both records.
pub open spec fn chained<A, B, C, D>(first: (A, Outcome<B>), then: Option<(C, Outcome<D>)>) -> ((A, Option<C>), Outcome<D>) {
    match first.1 {
        Outcome::Failure => ((first.0, None), Outcome::Failure),
        Outcome::Discard => ((first.0, None), Outcome::Discard),
        Outcome::Success(_) => match then {
            Some(t) => ((first.0, Some(t.0)), t.1),
            None => ((first.0, None), Outcome::Failure),
        },
    }
}

/// The tree of a property bound through a continuation: an `Outer` node stands
/// for a node of the first property's tree, followed (on success) by the
/// continuation's property run with the stored seed and size; an `Inner` node is
/// a node of such a run, with the record of the first property's node it followed.
pub enum PropBindNode<NA, K, A, NB> {
    Outer(NA, K, Seed, Size),
    Inner(A, NB),
}

impl<NA: Node, K: Copy, A: Dup, NB: Node> Dup for PropBindNode<NA, K, A, NB> {
    fn dup(&self) -> (r: Self) {
        match self {
            PropBindNode::Outer(t, k, s, n) => PropBindNode::Outer(t.dup(), *k, *s, *n),
            PropBindNode::Inner(a, x) => PropBindNode::Inner(a.dup(), x.dup()),
        }
    }
}

/// The tree that the continuation's property gives after the outcome `o`, if it
/// is a success.
pub open spec fn then_tree<B, G2: Gen, K: Fn(B) -> G2>(k: K, o: Outcome<B>, s: Seed, n: Size) -> Option<G2::Output> {
    match o {
        Outcome::Success(b) => Some(app::<B, G2, K>(k, b).spec_run(s, n)),
        _ => None,
    }
}

impl<A: Dup, B, C, D, NA: Node<Value = (A, Outcome<B>)>, NB: Node<Value = (C, Outcome<D>)>, G2: Gen<Output = NB>, K: Fn(B) -> G2 + Copy>
    Node for PropBindNode<NA, K, A, NB> {
    type Value = ((A, Option<C>), Outcome<D>);

    open spec fn wf(&self) -> bool {
        match self {
            PropBindNode::Outer(t, k, s, n) => t.wf() && crate::gen::pure_cont::<B, G2, K>(*k),
            PropBindNode::Inner(a, x) => x.wf(),
        }
    }

    open spec fn view_value(&self) -> ((A, Option<C>), Outcome<D>) {
        match self {
            PropBindNode::Outer(t, k, s, n) => chained(
                t.view_value(),
                match then_tree::<B, G2, K>(*k, t.view_value().1, *s, *n) {
                    Some(u) => Some(u.view_value()),
                    None => None,
                },
            ),
            PropBindNode::Inner(a, x) => ((*a, Some(x.view_value().0)), x.view_value().1),
        }
    }

    open spec fn view_children(&self) -> Seq<Self> {
        match self {
            PropBindNode::Outer(t, k, s, n) => t.view_children().map_values(|c: NA| PropBindNode::<NA, K, A, NB>::Outer(c, *k, *s, *n))
                + match then_tree::<B, G2, K>(*k, t.view_value().1, *s, *n) {
                    Some(u) => u.view_children().map_values(|c: NB| PropBindNode::<NA, K, A, NB>::Inner(t.view_value().0, c)),
                    None => Seq::empty(),
                },
            PropBindNode::Inner(a, x) => x.view_children().map_values(|c: NB| PropBindNode::<NA, K, A, NB>::Inner(*a, c)),
        }
    }

    proof fn lemma_children_wf(&self) {
        match self {
            PropBindNode::Outer(t, k, s, n) => {
                t.lemma_children_wf();
                match t.view_value().1 {
                    Outcome::Success(b) => {
                        let g: G2 = app::<B, G2, K>(*k, b);
                        g.lemma_run_wf(*s, *n);
                        g.spec_run(*s, *n).lemma_children_wf();
                    },
                    _ => {},
                }
            },
            PropBindNode::Inner(a, x) => x.lemma_children_wf(),
        }
    }

    fn value(&self) -> (r: ((A, Option<C>), Outcome<D>)) {
        match self {
            PropBindNode::Outer(t, k, s, n) => {
                let (a, o) = t.value();
                match o {
                    Outcome::Failure => ((a, None), Outcome::Failure),
                    Outcome::Discard => ((a, None), Outcome::Discard),
                    Outcome::Success(b) => {
                        let g: G2 = k(b);
                        proof {
                            g.lemma_run_wf(*s, *n);
                        }
                        let (c, o2) = g.run(*s, *n).value();
                        ((a, Some(c)), o2)
                    },
                }
            },
            PropBindNode::Inner(a, x) => {
                let (c, o) = x.value();
                ((a.dup(), Some(c)), o)
            },
        }
    }

    fn children(&self) -> (r: Vec<Self>) {
        match self {
            PropBindNode::Outer(t, k, s, n) => {
                let ts = t.children();
                let mut out: Vec<Self> = Vec::new();
                let mut i: usize = 0;
                while i < ts.len()
                    invariant
                        i <= ts@.len(),
                        out@ == ts@.map_values(|c: NA| PropBindNode::<NA, K, A, NB>::Outer(c, *k, *s, *n)).subrange(0, i as int),
                    decreases ts@.len() - i,
                {
                    out.push(PropBindNode::Outer(ts[i].dup(), *k, *s, *n));
                    i += 1;
                }
                proof {
                    assert(out@ =~= ts@.map_values(|c: NA| PropBindNode::<NA, K, A, NB>::Outer(c, *k, *s, *n)));
                }
                let (a, o) = t.value();
                match o {
                    Outcome::Success(b) => {
                        let g: G2 = k(b);
                        proof {
                            g.lemma_run_wf(*s, *n);
                        }
                        let xs = g.run(*s, *n).children();
                        let ghost front = out@;
                        let mut j: usize = 0;
                        while j < xs.len()
                            invariant
                                j <= xs@.len(),
                                out@ == front + xs@.map_values(|c: NB| PropBindNode::<NA, K, A, NB>::Inner(a, c)).subrange(0, j as int),
                            decreases xs@.len() - j,
                        {
                            out.push(PropBindNode::Inner(a.dup(), xs[j].dup()));
                            j += 1;
                            proof {
                                assert(xs@.map_values(|c: NB| PropBindNode::<NA, K, A, NB>::Inner(a, c)).subrange(0, j as int)
                                    =~= xs@.map_values(|c: NB| PropBindNode::<NA, K, A, NB>::Inner(a, c)).subrange(0, j - 1).push(PropBindNode::Inner(a, xs@[j - 1])));
                            }
                        }
                        proof {
                            assert(xs@.map_values(|c: NB| PropBindNode::<NA, K, A, NB>::Inner(a, c)).subrange(0, xs@.len() as int)
                                =~= xs@.map_values(|c: NB| PropBindNode::<NA, K, A, NB>::Inner(a, c)));
                        }
                        out
                    },
                    _ => {
                        proof {
                            assert(out@ + Seq::<Self>::empty() =~= out@);
                        }
                        out
                    },
                }
            },
            PropBindNode::Inner(a, x) => {
                let xs = x.children();
                let mut out: Vec<Self> = Vec::new();
                let mut i: usize = 0;
                while i < xs.len()
                    invariant
                        i <= xs@.len(),
                        out@ == xs@.map_values(|c: NB| PropBindNode::<NA, K, A, NB>::Inner(*a, c)).subrange(0, i as int),
                    decreases xs@.len() - i,
                {
                    out.push(PropBindNode::Inner(a.dup(), xs[i].dup()));
                    i += 1;
                }
                proof {
                    assert(out@ =~= xs@.map_values(|c: NB| PropBindNode::<NA, K, A, NB>::Inner(*a, c)));
                }
                out
            },
        }
    }
}

/// The property `prop` followed by the property that `k` gives for the value of
/// each success.
pub struct BindProp<G, K> {
    pub prop: G,
    pub k: K,
}

impl<G: Dup, K: Copy> Dup for BindProp<G, K> {
    fn dup(&self) -> (r: Self) {
        BindProp { prop: self.prop.dup(), k: self.k }
    }
}

impl<A: Dup, B, C, D, NA: Node<Value = (A, Outcome<B>)>, G: Gen<Output = NA>, NB: Node<Value = (C, Outcome<D>)>, G2: Gen<Output = NB>, K: Fn(B) -> G2 + Copy>
    Gen for BindProp<G, K> {
    type Output = PropBindNode<NA, K, A, NB>;

    open spec fn wf(&self) -> bool {
        self.prop.wf() && crate::gen::pure_cont::<B, G2, K>(self.k)
    }

    open spec fn spec_run(&self, seed: Seed, size: Size) -> PropBindNode<NA, K, A, NB> {
        PropBindNode::Outer(self.prop.spec_run(spec_split(seed).0, size), self.k, spec_split(seed).1, size)
    }

    proof fn lemma_run_wf(&self, seed: Seed, size: Size) {
        self.prop.lemma_run_wf(spec_split(seed).0, size);
    }

    fn run(&self, seed: Seed, size: Size) -> (r: PropBindNode<NA, K, A, NB>) {
        let (s1, s2) = split(seed);
        PropBindNode::Outer(self.prop.run(s1, size), self.k, s2, size)
    }
}

/// Sequences two properties: a failure or a discard of `m` ends the trial; a
/// success runs the property that `k` gives for its value, and the records of
/// both go into the counterexample.
pub fn bind<G, K>(m: G, k: K) -> (r: BindProp<G, K>)
    ensures
        r == (BindProp { prop: m, k }),
{
    BindProp { prop: m, k }
}

/// The property whose every trial has the outcome `x`, with an empty record.
pub fn from_result<B: Dup>(x: Outcome<B>) -> (r: crate::gen::Constant<((), Outcome<B>)>)
    ensures
        r.value == ((), x),
{
    crate::gen::constant(((), x))
}

/// The property that always fails.
pub fn failure() -> (r: crate::gen::Constant<((), Outcome<()>)>)
    ensures
        r.value == ((), Outcome::<()>::Failure),
{
    from_result(Outcome::Failure)
}

/// The property that always discards.
pub fn discard() -> (r: crate::gen::Constant<((), Outcome<()>)>)
    ensures
        r.value == ((), Outcome::<()>::Discard),
{
    from_result(Outcome::Discard)
}

/// The property that always succeeds with `x`.
pub fn success<B: Dup>(x: B) -> (r: crate::gen::Constant<((), Outcome<B>)>)
    ensures
        r.value == ((), Outcome::Success(x)),
{
    from_result(Outcome::Success(x))
}

/// How a run of trials ended.
pub enum Status {
    /// A counterexample, after the given number of shrinks, described by the journal.
    Failed(isize, Journal),
    GaveUp,
    /// Every trial passed.
    Passed,
}

/// The result of a run of trials.
pub struct Report {
    pub tests: isize,
    pub discards: isize,
    pub status: Status,
}

/// The most shrink steps that the search for a smaller counterexample takes.
/// Shrink trees are lazy and may be infinite (a shrink function of the user's
/// may never run out of failing candidates), so the walk is bounded to end on
/// every tree; on a tree whose first-failure path is shorter, it is the whole walk.
pub const SHRINK_LIMIT: usize = 10000;

/// The first position, from `i` on, of a node whose outcome is a failure, or the
/// length when there is none.
pub open spec fn first_failure<N: Node<Value = (A, Outcome<B>)>, A, B>(cs: Seq<N>, i: int) -> int
    decreases cs.len() - i,
{
    if i >= cs.len() {
        cs.len() as int
    } else if cs[i].view_value().1 is Failure {
        i
    } else {
        first_failure(cs, i + 1)
    }
}

/// The end of the first-failure walk from `t`: the node reached, and the number of
/// steps taken, with at most `fuel` steps.
pub open spec fn spec_smallest<N: Node<Value = (A, Outcome<B>)>, A, B>(t: N, steps: nat, fuel: nat) -> (N, nat)
    decreases fuel,
{
    if fuel == 0 {
        (t, steps)
    } else {
        let cs = t.view_children();
        let j = first_failure(cs, 0);
        if j < cs.len() {
            spec_smallest(cs[j], steps + 1, (fuel - 1) as nat)
        } else {
            (t, steps)
        }
    }
}

proof fn lemma_first_failure_bounds<N: Node<Value = (A, Outcome<B>)>, A, B>(cs: Seq<N>, i: int)
    requires
        0 <= i <= cs.len(),
    ensures
        i <= first_failure(cs, i) <= cs.len(),
        first_failure(cs, i) < cs.len() ==> cs[first_failure(cs, i)].view_value().1 is Failure,
    decreases cs.len() - i,
{
    if i < cs.len() && !(cs[i].view_value().1 is Failure) {
        lemma_first_failure_bounds(cs, i + 1);
    }
}

/// The first-failure walk is sound: from a failing node it ends at a failing
/// node; and when it stops before using up its steps, no child of that node fails.
pub proof fn law_smallest_fails<N: Node<Value = (A, Outcome<B>)>, A, B>(t: N, steps: nat, fuel: nat)
    requires
        t.view_value().1 is Failure,
    ensures
        spec_smallest(t, steps, fuel).0.view_value().1 is Failure,
        steps <= spec_smallest(t, steps, fuel).1 <= steps + fuel,
        spec_smallest(t, steps, fuel).1 < steps + fuel ==> forall|i: int|
            0 <= i < spec_smallest(t, steps, fuel).0.view_children().len()
                ==> !(#[trigger] spec_smallest(t, steps, fuel).0.view_children()[i].view_value().1 is Failure),
    decreases fuel,
{
    if fuel > 0 {
        let cs = t.view_children();
        lemma_first_failure_bounds(cs, 0);
        let j = first_failure(cs, 0);
        if j < cs.len() {
            law_smallest_fails(cs[j], steps + 1, (fuel - 1) as nat);
        } else {
            lemma_no_failure_before(cs, 0);
        }
    }
}

proof fn lemma_no_failure_before<N: Node<Value = (A, Outcome<B>)>, A, B>(cs: Seq<N>, i: int)
    requires
        0 <= i <= cs.len(),
        first_failure(cs, i) == cs.len(),
    ensures
        forall|k: int| i <= k < cs.len() ==> !(#[trigger] cs[k].view_value().1 is Failure),
    decreases cs.len() - i,
{
    if i < cs.len() {
        lemma_no_failure_before(cs, i + 1);
    }
}

/// The position of the first child whose outcome is a failure, if any.
fn find_failure<N: Node<Value = (A, Outcome<B>)>, A, B>(cs: &Vec<N>) -> (r: usize)
    requires
        forall|i: int| 0 <= i < cs@.len() ==> #[trigger] cs@[i].wf(),
    ensures
        r == first_failure(cs@, 0),
{
    let mut i: usize = 0;
    while i < cs.len()
        invariant
            i <= cs@.len(),
            forall|k: int| 0 <= k < cs@.len() ==> #[trigger] cs@[k].wf(),
            first_failure(cs@, 0) == first_failure(cs@, i as int),
        decreases cs@.len() - i,
    {
        let (_, o) = cs[i].value();
        if let Outcome::Failure = o {
            return i;
        }
        i += 1;
    }
    i
}

/// Walks down from a failing node: to the first child that also fails, as long as
/// there is one (at most `limit` steps); the node reached is the
/// counterexample, recorded in the journal. The node reached fails, and when the
/// walk took fewer than `limit` steps (as it does whenever the tree's first-failure
/// path is shorter), it is the whole walk: none of its children fails, none of its children fails.
pub fn take_smallest_within<N: Node<Value = (A, Outcome<B>)>, A: Show, B>(t: N, limit: usize) -> (r: Status)
    requires
        t.wf(),
        limit <= isize::MAX,
    ensures
        t.view_value().1 is Failure ==> ({
            let (m, k) = spec_smallest(t, 0, limit as nat);
            &&& r is Failed
            &&& r->Failed_0 == k
            &&& r->Failed_1.entries@.len() == 1
            &&& r->Failed_1.entries@[0]@ == m.view_value().0.shown()
            &&& m.view_value().1 is Failure
            &&& k < limit ==> forall|i: int| 0 <= i < m.view_children().len()
                ==> !(#[trigger] m.view_children()[i].view_value().1 is Failure)
        }),
        t.view_value().1 is Discard ==> r is GaveUp,
        t.view_value().1 is Success ==> r is Passed,
{
    let (_, o) = t.value();
    match o {
        Outcome::Discard => return Status::GaveUp,
        Outcome::Success(_) => return Status::Passed,
        Outcome::Failure => {},
    }
    proof {
        law_smallest_fails(t, 0, limit as nat);
    }
    let mut cur = t;
    let mut steps: usize = 0;
    let mut fuel: usize = limit;
    loop
        invariant
            cur.wf(),
            steps + fuel == limit,
            spec_smallest(cur, steps as nat, fuel as nat) == spec_smallest(t, 0, limit as nat),
        ensures
            spec_smallest(cur, steps as nat, fuel as nat) == (cur, steps as nat),
            cur.wf(),
            steps <= limit,
        decreases fuel,
    {
        if fuel == 0 {
            break;
        }
        let mut cs = cur.children();
        proof {
            cur.lemma_children_wf();
        }
        let j = find_failure(&cs);
        proof {
            lemma_first_failure_bounds(cs@, 0);
        }
        if j == cs.len() {
            break;
        }
        let ghost next = cs@[j as int];
        assert(spec_smallest(cur, steps as nat, fuel as nat) == spec_smallest(next, (steps + 1) as nat, (fuel - 1) as nat));
        cur = cs.swap_remove(j);
        steps += 1;
        fuel -= 1;
    }
    let (v, _) = cur.value();
    let line = v.show();
    Status::Failed(steps as isize, Journal { entries: vec![line] })
}

/// Walks down from a failing node to a smaller counterexample, with at most
/// `SHRINK_LIMIT` steps (see `take_smallest_within`).
pub fn take_smallest<N: Node<Value = (A, Outcome<B>)>, A: Show, B>(t: N) -> (r: Status)
    requires
        t.wf(),
    ensures
        t.view_value().1 is Failure ==> ({
            let (m, k) = spec_smallest(t, 0, SHRINK_LIMIT as nat);
            &&& r is Failed
            &&& r->Failed_0 == k
            &&& r->Failed_1.entries@.len() == 1
            &&& r->Failed_1.entries@[0]@ == m.view_value().0.shown()
            &&& m.view_value().1 is Failure
            &&& k < SHRINK_LIMIT ==> forall|i: int| 0 <= i < m.view_children().len()
                ==> !(#[trigger] m.view_children()[i].view_value().1 is Failure)
        }),
        t.view_value().1 is Discard ==> r is GaveUp,
        t.view_value().1 is Success ==> r is Passed,
{
    take_smallest_within(t, SHRINK_LIMIT)
}

/// The size after `size`: one more, wrapping to one once it passes 99.
pub open spec fn next_size(size: Size) -> Size {
    if size.0 >= 99 || size.0 < 1 {
        Size(1)
    } else {
        Size((size.0 + 1) as isize)
    }
}

/// The number of discards after which a run gives up.
pub const DISCARD_LIMIT: isize = 100;

/// The trials of `prop` from the given state: the final counts of tests and
/// discards, and the tree of the failing trial, if one failed.
#[verifier::opaque]
pub open spec fn spec_trials<G: Gen<Output = N>, N: Node<Value = (A, Outcome<B>)>, A, B>(
    prop: G,
    n: int,
    seed: Seed,
    size: Size,
    tests: int,
    discards: int,
) -> (int, int, Option<N>)
    decreases n - tests, DISCARD_LIMIT - discards,
{
    if tests >= n || discards >= DISCARD_LIMIT {
        (tests, discards, None)
    } else {
        let t = prop.spec_run(spec_split(seed).0, size);
        match t.view_value().1 {
            Outcome::Failure => (tests + 1, discards, Some(t)),
            Outcome::Success(_) => spec_trials(prop, n, spec_split(seed).1, next_size(size), tests + 1, discards),
            Outcome::Discard => spec_trials(prop, n, spec_split(seed).1, size, tests, discards + 1),
        }
    }
}

/// `r` reports trials that ended with the given counts and failing tree (if any)
/// out of `n` asked for.
pub open spec fn report_agrees<N: Node<Value = (A, Outcome<B>)>, A: Show, B>(
    r: Report,
    n: int,
    tests: int,
    discards: int,
    failed: Option<N>,
) -> bool {
    &&& r.tests == tests
    &&& r.discards == discards
    &&& match failed {
        Some(t) => {
            let (m, k) = spec_smallest(t, 0, SHRINK_LIMIT as nat);
            &&& r.status is Failed
            &&& r.status->Failed_0 == k
            &&& r.status->Failed_1.entries@.len() == 1
            &&& r.status->Failed_1.entries@[0]@ == m.view_value().0.shown()
        },
        None => if tests >= n { r.status is Passed } else { r.status is GaveUp },
    }
}

proof fn lemma_trials_done<G: Gen<Output = N>, N: Node<Value = (A, Outcome<B>)>, A, B>(
    prop: G,
    n: int,
    seed: Seed,
    size: Size,
    tests: int,
    discards: int,
)
    requires
        tests >= n || discards >= DISCARD_LIMIT,
    ensures
        spec_trials(prop, n, seed, size, tests, discards) == (tests, discards, Option::<N>::None),
{
    reveal(spec_trials);
}

/// `r` reports the trials of `prop` from `seed`, out of `n` asked for.
pub open spec fn reports<G: Gen<Output = N>, N: Node<Value = (A, Outcome<B>)>, A: Show, B>(r: Report, prop: G, n: int, seed: Seed) -> bool {
    let m = spec_trials(prop, n, seed, Size(1), 0, 0);
    report_agrees(r, n, m.0, m.1, m.2)
}

/// One trial of `prop` in the given state: the report when the run ends with
/// it, else the state for the next trial.
fn trial<G: Gen<Output = N>, N: Node<Value = (A, Outcome<B>)>, A: Show, B>(
    n: isize,
    prop: &G,
    seed: Seed,
    size: Size,
    tests: isize,
    discards: isize,
) -> (r: (Option<Report>, Seed, Size, isize, isize))
    requires
        prop.wf(),
        0 <= tests < n,
        0 <= discards < DISCARD_LIMIT,
    ensures
        ({
            let m = spec_trials(*prop, n as int, seed, size, tests as int, discards as int);
            match r.0 {
                Some(rep) => report_agrees(rep, n as int, m.0, m.1, m.2),
                None => {
                    &&& spec_trials(*prop, n as int, r.1, r.2, r.3 as int, r.4 as int) == m
                    &&& 0 <= r.3 <= n
                    &&& 0 <= r.4 <= DISCARD_LIMIT
                    &&& ((r.3 == tests + 1 && r.4 == discards) || (r.3 == tests && r.4 == discards + 1))
                },
            }
        }),
{
    proof {
        reveal(spec_trials);
    }
    let (s1, s2) = split(seed);
    let t = prop.run(s1, size);
    proof {
        prop.lemma_run_wf(s1, size);
    }
    let (_, o) = t.value();
    match o {
        Outcome::Failure => {
            let status = take_smallest(t);
            (Some(Report { tests: tests + 1, discards, status }), s2, size, tests + 1, discards)
        },
        Outcome::Success(_) => {
            let next = if size.0 >= 99 || size.0 < 1 { Size(1) } else { Size(size.0 + 1) };
            (None, s2, next, tests + 1, discards)
        },
        Outcome::Discard => (None, s2, size, tests, discards + 1),
    }
}

/// Runs up to `n` trials of `prop` from `seed`, at sizes growing from one: stops
/// at the first failure (then searches for a smaller counterexample), after `n`
/// successes, or after `DISCARD_LIMIT` discards.
pub fn report_from<G: Gen<Output = N>, N: Node<Value = (A, Outcome<B>)>, A: Show, B>(n: isize, prop: &G, seed: Seed) -> (r: Report)
    requires
        prop.wf(),
        0 <= n,
    ensures
        ({
            let m = spec_trials(*prop, n as int, seed, Size(1), 0, 0);
            report_agrees(r, n as int, m.0, m.1, m.2)
        }),
{
    let ghost m = spec_trials(*prop, n as int, seed, Size(1), 0, 0);
    let mut cur = seed;
    let mut size = Size(1);
    let mut tests: isize = 0;
    let mut discards: isize = 0;
    loop
        invariant
            prop.wf(),
            0 <= tests <= n,
            0 <= discards <= DISCARD_LIMIT,
            m == spec_trials(*prop, n as int, seed, Size(1), 0, 0),
            spec_trials(*prop, n as int, cur, size, tests as int, discards as int) == m,
        decreases n - tests, DISCARD_LIMIT - discards,
    {
        if tests == n || discards >= DISCARD_LIMIT {
            proof {
                lemma_trials_done(*prop, n as int, cur, size, tests as int, discards as int);
            }
            let status = if tests == n { Status::Passed } else { Status::GaveUp };
            return Report { tests, discards, status };
        }
        let (done, s, z, t, d) = trial(n, prop, cur, size, tests, discards);
        if let Some(rep) = done {
            return rep;
        }
        cur = s;
        size = z;
        tests = t;
        discards = d;
    }
}

/// Runs up to `n` trials of `prop` from a fresh random seed.
pub fn report_tick<G: Gen<Output = N>, N: Node<Value = (A, Outcome<B>)>, A: Show, B>(n: isize, prop: &G) -> (r: Report)
    requires
        prop.wf(),
        0 <= n,
    ensures
        exists|s: Seed| #[trigger] reports(r, *prop, n as int, s),
{
    let s = seed::random();
    let r = report_from(n, prop, s);
    assert(reports(r, *prop, n as int, s));
    r
}

/// Runs up to 100 trials of `prop` from a fresh random seed.
pub fn report<G: Gen<Output = N>, N: Node<Value = (A, Outcome<B>)>, A: Show, B>(prop: &G) -> (r: Report)
    requires
        prop.wf(),
    ensures
        exists|s: Seed| #[trigger] reports(r, *prop, 100, s),
{
    report_tick(100, prop)
}

/// Runs up to `n` trials of `prop` and discards the report.
pub fn check_tick<G: Gen<Output = N>, N: Node<Value = (A, Outcome<B>)>, A: Show, B>(n: isize, prop: &G)
    requires
        prop.wf(),
        0 <= n,
{
    let _ = report_tick(n, prop);
}

/// Runs up to 100 trials of `prop` and discards the report.
pub fn check<G: Gen<Output = N>, N: Node<Value = (A, Outcome<B>)>, A: Show, B>(prop: &G)
    requires
        prop.wf(),
{
    let _ = report(prop);
}

} // verus!
