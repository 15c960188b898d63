use vstd::prelude::*;

verus! {

/// What a deterministic function `f` returns on `a`.
pub open spec fn app<A, B, F: Fn(A) -> B>(f: F, a: A) -> B {
    choose|b: B| call_ensures(f, (a,), b)
}

/// `f` accepts every argument and returns one result for each.
pub open spec fn pure_fn<A, B, F: Fn(A) -> B>(f: F) -> bool {
    &&& forall|a: A| #[trigger] call_requires(f, (a,))
    &&& forall|a: A, b: B| #[trigger] call_ensures(f, (a,), b) ==> b == app(f, a)
}

/// The candidates that a deterministic shrink function gives for `a`.
pub open spec fn shrunk<A, G: Fn(A) -> Vec<A>>(g: G, a: A) -> Seq<A> {
    (choose|v: Vec<A>| call_ensures(g, (a,), v))@
}

/// `g` accepts every value and gives the same candidates for each (as a
/// sequence: vectors with equal contents count as one answer).
pub open spec fn pure_shrink<A, G: Fn(A) -> Vec<A>>(g: G) -> bool {
    &&& forall|a: A| #[trigger] call_requires(g, (a,))
    &&& forall|a: A, v1: Vec<A>, v2: Vec<A>| #[trigger] call_ensures(g, (a,), v1) && #[trigger] call_ensures(g, (a,), v2) ==> v1@ == v2@
}

/// What a pure shrink function returns holds its candidates.
pub proof fn lemma_shrunk<A, G: Fn(A) -> Vec<A>>(g: G, a: A, v: Vec<A>)
    requires
        pure_shrink(g),
        call_ensures(g, (a,), v),
    ensures
        v@ == shrunk(g, a),
{
    let c = choose|v: Vec<A>| call_ensures(g, (a,), v);
    assert(call_ensures(g, (a,), c));
}

/// A value that can be copied faithfully.
pub trait Dup: Sized {
    fn dup(&self) -> (r: Self)
        ensures
            r == *self,
    ;
}

impl Dup for i64 {
    fn dup(&self) -> (r: Self) {
        *self
    }
}

impl Dup for u64 {
    fn dup(&self) -> (r: Self) {
        *self
    }
}

impl Dup for i8 {
    fn dup(&self) -> (r: Self) {
        *self
    }
}

impl Dup for i16 {
    fn dup(&self) -> (r: Self) {
        *self
    }
}

impl Dup for i32 {
    fn dup(&self) -> (r: Self) {
        *self
    }
}

impl Dup for isize {
    fn dup(&self) -> (r: Self) {
        *self
    }
}

impl Dup for u8 {
    fn dup(&self) -> (r: Self) {
        *self
    }
}

impl Dup for u16 {
    fn dup(&self) -> (r: Self) {
        *self
    }
}

impl Dup for u32 {
    fn dup(&self) -> (r: Self) {
        *self
    }
}

impl Dup for usize {
    fn dup(&self) -> (r: Self) {
        *self
    }
}

impl Dup for char {
    fn dup(&self) -> (r: Self) {
        *self
    }
}

impl Dup for bool {
    fn dup(&self) -> (r: Self) {
        *self
    }
}

impl Dup for () {
    fn dup(&self) -> (r: Self) {
        ()
    }
}

impl<T: Dup> Dup for Option<T> {
    fn dup(&self) -> (r: Self) {
        match self {
            None => None,
            Some(x) => Some(x.dup()),
        }
    }
}

impl<A: Dup, B: Dup> Dup for (A, B) {
    fn dup(&self) -> (r: Self) {
        (self.0.dup(), self.1.dup())
    }
}

/// An immutable sequence, built from the front.
pub enum List<T> {
    Nil,
    Cons(T, Box<List<T>>),
}

impl<T> List<T> {
    pub open spec fn view(&self) -> Seq<T>
        decreases self,
    {
        match self {
            List::Nil => Seq::empty(),
            List::Cons(x, rest) => seq![*x] + rest.view(),
        }
    }

    pub open spec fn of_seq(s: Seq<T>) -> List<T>
        decreases s.len(),
    {
        if s.len() == 0 {
            List::Nil
        } else {
            List::Cons(s[0], Box::new(List::of_seq(s.drop_first())))
        }
    }

    pub proof fn lemma_view_of_seq(s: Seq<T>)
        ensures
            List::of_seq(s).view() == s,
        decreases s.len(),
    {
        if s.len() > 0 {
            List::lemma_view_of_seq(s.drop_first());
            assert(seq![s[0]] + s.drop_first() =~= s);
        }
    }

    pub proof fn lemma_of_seq_view(l: List<T>)
        ensures
            List::of_seq(l.view()) == l,
        decreases l,
    {
        match l {
            List::Nil => {},
            List::Cons(x, rest) => {
                List::lemma_of_seq_view(*rest);
                assert((seq![x] + rest.view()).drop_first() =~= rest.view());
            },
        }
    }

    /// The list that holds the items of `v`, in order.
    pub fn from_vec(v: Vec<T>) -> (l: List<T>)
        ensures
            l.view() == v@,
    {
        let ghost all = v@;
        let mut v = v;
        let mut l: List<T> = List::Nil;
        while v.len() > 0
            invariant
                v@ == all.subrange(0, v@.len() as int),
                l.view() == all.subrange(v@.len() as int, all.len() as int),
                v@.len() <= all.len(),
            decreases v@.len(),
        {
            let x = v.pop().unwrap();
            proof {
                assert(seq![x] + l.view() =~= all.subrange(v@.len() as int, all.len() as int));
            }
            l = List::Cons(x, Box::new(l));
        }
        proof {
            assert(all.subrange(0, all.len() as int) =~= all);
        }
        l
    }

    /// The items of the list, in order.
    pub fn into_vec(self) -> (v: Vec<T>)
        ensures
            v@ == self.view(),
    {
        let ghost all = self.view();
        let mut cur = self;
        let mut v: Vec<T> = Vec::new();
        loop
            invariant
                v@ + cur.view() == all,
            ensures
                v@ == all,
            decreases cur.view().len(),
        {
            match cur {
                List::Nil => {
                    proof {
                        assert(v@ + Seq::<T>::empty() =~= v@);
                    }
                    break;
                },
                List::Cons(x, rest) => {
                    proof {
                        assert(v@.push(x) + rest.view() =~= v@ + (seq![x] + rest.view()));
                    }
                    v.push(x);
                    cur = *rest;
                },
            }
        }
        v
    }
}

impl<T: Dup> Dup for List<T> {
    fn dup(&self) -> (r: Self)
        decreases self,
    {
        match self {
            List::Nil => List::Nil,
            List::Cons(x, rest) => List::Cons(x.dup(), Box::new((**rest).dup())),
        }
    }
}

/// A node of a lazily expanded shrink tree: its value and its children (the
/// candidates that are smaller than it) are computed when asked for. A node is a
/// pure description, so asking again gives the same answer; nothing below a
/// node is built before its children are asked for. Nothing is cached either:
/// each call of `value` or `children` computes its answer again (to keep a value,
/// hold it in a `Lazy` and force it).
pub trait Node: Dup {
    type Value;

    /// The node's well-formedness.
    spec fn wf(&self) -> bool;

    spec fn view_value(&self) -> Self::Value;

    spec fn view_children(&self) -> Seq<Self>;

    /// Every child of a well-formed node is well formed.
    proof fn lemma_children_wf(&self)
        requires
            self.wf(),
        ensures
            forall|i: int| 0 <= i < self.view_children().len() ==> #[trigger] self.view_children()[i].wf(),
    ;

    fn value(&self) -> (r: Self::Value)
        requires
            self.wf(),
        ensures
            r == self.view_value(),
    ;

    fn children(&self) -> (r: Vec<Self>)
        requires
            self.wf(),
        ensures
            r@ == self.view_children(),
    ;
}

/// A tree whose children are already built.
pub struct Tree<A> {
    pub root: A,
    pub subtrees: Box<Forest<A>>,
}

/// The children of a built tree, in order.
pub enum Forest<A> {
    Nil,
    Cons(Tree<A>, Box<Forest<A>>),
}

impl<A> Forest<A> {
    pub open spec fn view(&self) -> Seq<Tree<A>>
        decreases self,
    {
        match self {
            Forest::Nil => Seq::empty(),
            Forest::Cons(t, rest) => seq![*t] + rest.view(),
        }
    }

    /// The forest that holds the trees of `v`, in order.
    pub fn from_vec(v: Vec<Tree<A>>) -> (l: Forest<A>)
        ensures
            l.view() == v@,
    {
        let ghost all = v@;
        let mut v = v;
        let mut l: Forest<A> = Forest::Nil;
        while v.len() > 0
            invariant
                v@ == all.subrange(0, v@.len() as int),
                l.view() == all.subrange(v@.len() as int, all.len() as int),
                v@.len() <= all.len(),
            decreases v@.len(),
        {
            let x = v.pop().unwrap();
            proof {
                assert(seq![x] + l.view() =~= all.subrange(v@.len() as int, all.len() as int));
            }
            l = Forest::Cons(x, Box::new(l));
        }
        proof {
            assert(all.subrange(0, all.len() as int) =~= all);
        }
        l
    }
}

impl<A: Dup> Dup for Tree<A> {
    fn dup(&self) -> (r: Self)
        decreases self,
    {
        Tree { root: self.root.dup(), subtrees: Box::new(self.subtrees.dup()) }
    }
}

impl<A: Dup> Dup for Forest<A> {
    fn dup(&self) -> (r: Self)
        decreases self,
    {
        match self {
            Forest::Nil => Forest::Nil,
            Forest::Cons(t, rest) => Forest::Cons(t.dup(), Box::new((**rest).dup())),
        }
    }
}

impl<A: Dup> Forest<A> {
    /// Copies of the trees, in order.
    pub fn to_vec(&self) -> (v: Vec<Tree<A>>)
        ensures
            v@ == self.view(),
        decreases self,
    {
        match self {
            Forest::Nil => Vec::new(),
            Forest::Cons(t, rest) => {
                let mut v = vec![t.dup()];
                let mut tail = rest.to_vec();
                v.append(&mut tail);
                v
            },
        }
    }
}

impl<A: Dup> Tree<A> {
    /// A node with the given value and children.
    pub fn new(value: A, children: Vec<Tree<A>>) -> (t: Tree<A>)
        ensures
            t.root == value,
            t.subtrees.view() == children@,
    {
        Tree { root: value, subtrees: Box::new(Forest::from_vec(children)) }
    }

    /// A node with no children.
    pub fn singleton(value: A) -> (t: Tree<A>)
        ensures
            t.root == value,
            t.subtrees.view() == Seq::<Tree<A>>::empty(),
    {
        Tree { root: value, subtrees: Box::new(Forest::Nil) }
    }
}

impl<A: Dup> Node for Tree<A> {
    type Value = A;

    open spec fn wf(&self) -> bool {
        true
    }

    open spec fn view_value(&self) -> A {
        self.root
    }

    open spec fn view_children(&self) -> Seq<Self> {
        self.subtrees.view()
    }

    proof fn lemma_children_wf(&self) {
    }

    fn value(&self) -> (r: A) {
        self.root.dup()
    }

    fn children(&self) -> (r: Vec<Self>) {
        self.subtrees.to_vec()
    }
}

/// The node's value.
pub fn outcome<N: Node>(t: &N) -> (r: N::Value)
    requires
        t.wf(),
    ensures
        r == t.view_value(),
{
    t.value()
}

/// The node's children: the shrink candidates of its value.
pub fn shrinks<N: Node>(t: &N) -> (r: Vec<N>)
    requires
        t.wf(),
    ensures
        r@ == t.view_children(),
{
    t.children()
}

/// A tree with `f` applied to every value of `inner`.
pub struct MapNode<N, F> {
    pub inner: N,
    pub f: F,
}

impl<N: Node, F: Copy> Dup for MapNode<N, F> {
    fn dup(&self) -> (r: Self) {
        MapNode { inner: self.inner.dup(), f: self.f }
    }
}

impl<N: Node, B, F: Fn(N::Value) -> B + Copy> Node for MapNode<N, F> {
    type Value = B;

    open spec fn wf(&self) -> bool {
        self.inner.wf() && pure_fn(self.f)
    }

    open spec fn view_value(&self) -> B {
        app(self.f, self.inner.view_value())
    }

    open spec fn view_children(&self) -> Seq<Self> {
        self.inner.view_children().map_values(|c: N| MapNode { inner: c, f: self.f })
    }

    proof fn lemma_children_wf(&self) {
        self.inner.lemma_children_wf();
    }

    fn value(&self) -> (r: B) {
        (self.f)(self.inner.value())
    }

    fn children(&self) -> (r: Vec<Self>) {
        let cs = self.inner.children();
        let mut out: Vec<Self> = Vec::new();
        let mut i: usize = 0;
        while i < cs.len()
            invariant
                i <= cs@.len(),
                out@ == self.view_children().subrange(0, i as int),
                cs@ == self.inner.view_children(),
            decreases cs@.len() - i,
        {
            out.push(MapNode { inner: cs[i].dup(), f: self.f });
            i += 1;
        }
        proof {
            assert(out@ =~= self.view_children());
        }
        out
    }
}

/// Applies `f` to every value of the tree `t`.
pub fn map<N: Node, B, F: Fn(N::Value) -> B + Copy>(f: F, t: N) -> (r: MapNode<N, F>)
    ensures
        r == (MapNode { inner: t, f }),
{
    MapNode { inner: t, f }
}

/// The tree of `t` bound through `k`: an `Outer` node stands for `k` applied to
/// the value of a node of `t`; an `Inner` node is a node of the tree that `k`
/// returned.
pub enum BindNode<NA, K, NB> {
    Outer(NA, K),
    Inner(NB),
}

impl<NA: Node, K: Copy, NB: Node> Dup for BindNode<NA, K, NB> {
    fn dup(&self) -> (r: Self) {
        match self {
            BindNode::Outer(t, k) => BindNode::Outer(t.dup(), *k),
            BindNode::Inner(n) => BindNode::Inner(n.dup()),
        }
    }
}

impl<NA: Node, K: Fn(NA::Value) -> NB + Copy, NB: Node> Node for BindNode<NA, K, NB> {
    type Value = NB::Value;

    open spec fn wf(&self) -> bool {
        match self {
            BindNode::Outer(t, k) => t.wf() && pure_fn(*k) && forall|a: NA::Value| #[trigger] app(*k, a).wf(),
            BindNode::Inner(n) => n.wf(),
        }
    }

    open spec fn view_value(&self) -> NB::Value {
        match self {
            BindNode::Outer(t, k) => app(*k, t.view_value()).view_value(),
            BindNode::Inner(n) => n.view_value(),
        }
    }

    open spec fn view_children(&self) -> Seq<Self> {
        match self {
            BindNode::Outer(t, k) => t.view_children().map_values(|c: NA| BindNode::Outer(c, *k))
                + app(*k, t.view_value()).view_children().map_values(|c: NB| BindNode::Inner(c)),
            BindNode::Inner(n) => n.view_children().map_values(|c: NB| BindNode::Inner(c)),
        }
    }

    proof fn lemma_children_wf(&self) {
        match self {
            BindNode::Outer(t, k) => {
                t.lemma_children_wf();
                app(*k, t.view_value()).lemma_children_wf();
            },
            BindNode::Inner(n) => {
                n.lemma_children_wf();
            },
        }
    }

    fn value(&self) -> (r: NB::Value) {
        match self {
            BindNode::Outer(t, k) => {
                let n = k(t.value());
                n.value()
            },
            BindNode::Inner(n) => n.value(),
        }
    }

    fn children(&self) -> (r: Vec<Self>) {
        match self {
            BindNode::Outer(t, k) => {
                let mut out = bind_forest(t.children(), *k);
                let n = k(t.value());
                let mut rest = inner_forest::<NA, K, NB>(n.children());
                out.append(&mut rest);
                out
            },
            BindNode::Inner(n) => inner_forest::<NA, K, NB>(n.children()),
        }
    }
}

/// Each tree of `ts` bound through `k`.
pub fn bind_forest<NA: Node, K: Fn(NA::Value) -> NB + Copy, NB: Node>(ts: Vec<NA>, k: K) -> (r: Vec<BindNode<NA, K, NB>>)
    ensures
        r@ == ts@.map_values(|c: NA| BindNode::<NA, K, NB>::Outer(c, k)),
{
    let mut out: Vec<BindNode<NA, K, NB>> = Vec::new();
    let mut i: usize = 0;
    while i < ts.len()
        invariant
            i <= ts@.len(),
            out@ == ts@.map_values(|c: NA| BindNode::<NA, K, NB>::Outer(c, k)).subrange(0, i as int),
        decreases ts@.len() - i,
    {
        out.push(BindNode::Outer(ts[i].dup(), k));
        i += 1;
    }
    proof {
        assert(out@ =~= ts@.map_values(|c: NA| BindNode::<NA, K, NB>::Outer(c, k)));
    }
    out
}

fn inner_forest<NA, K, NB: Node>(ts: Vec<NB>) -> (r: Vec<BindNode<NA, K, NB>>)
    ensures
        r@ == ts@.map_values(|c: NB| BindNode::<NA, K, NB>::Inner(c)),
{
    let mut out: Vec<BindNode<NA, K, NB>> = Vec::new();
    let mut i: usize = 0;
    while i < ts.len()
        invariant
            i <= ts@.len(),
            out@ == ts@.map_values(|c: NB| BindNode::<NA, K, NB>::Inner(c)).subrange(0, i as int),
        decreases ts@.len() - i,
    {
        out.push(BindNode::Inner(ts[i].dup()));
        i += 1;
    }
    proof {
        assert(out@ =~= ts@.map_values(|c: NB| BindNode::<NA, K, NB>::Inner(c)));
    }
    out
}

/// Substitutes the value of `t` through `k`; the shrinks of `t`, each bound
/// through `k`, come before the shrinks of the tree that `k` returned.
pub fn bind<NA: Node, K: Fn(NA::Value) -> NB + Copy, NB: Node>(t: NA, k: K) -> (r: BindNode<NA, K, NB>)
    ensures
        r == BindNode::<NA, K, NB>::Outer(t, k),
{
    BindNode::Outer(t, k)
}

/// The nodes of `ts` whose value satisfies `p`, each filtered in turn.
pub open spec fn spec_filter_forest<N: Node, P: Fn(N::Value) -> bool>(p: P, ts: Seq<N>) -> Seq<FilterNode<N, P>>
    decreases ts.len(),
{
    if ts.len() == 0 {
        Seq::empty()
    } else {
        let front = spec_filter_forest(p, ts.drop_last());
        if app(p, ts.last().view_value()) {
            front.push(FilterNode { inner: ts.last(), p })
        } else {
            front
        }
    }
}

/// A tree that keeps, below its root, only the nodes whose value satisfies `p`.
pub struct FilterNode<N, P> {
    pub inner: N,
    pub p: P,
}

impl<N: Node, P: Copy> Dup for FilterNode<N, P> {
    fn dup(&self) -> (r: Self) {
        FilterNode { inner: self.inner.dup(), p: self.p }
    }
}

proof fn lemma_filter_forest_wf<N: Node, P: Fn(N::Value) -> bool + Copy>(p: P, ts: Seq<N>)
    requires
        pure_fn(p),
        forall|i: int| 0 <= i < ts.len() ==> #[trigger] ts[i].wf(),
    ensures
        forall|i: int| 0 <= i < spec_filter_forest(p, ts).len() ==> #[trigger] spec_filter_forest(p, ts)[i].wf(),
    decreases ts.len(),
{
    if ts.len() > 0 {
        lemma_filter_forest_wf(p, ts.drop_last());
        assert(ts.last() == ts[ts.len() - 1]);
        let front = spec_filter_forest(p, ts.drop_last());
        let whole = spec_filter_forest(p, ts);
        assert forall|i: int| 0 <= i < whole.len() implies #[trigger] whole[i].wf() by {
            if i < front.len() {
                assert(whole[i] == front[i]);
            } else {
                assert(whole[i] == (FilterNode { inner: ts.last(), p }));
            }
        }
    }
}

impl<N: Node, P: Fn(N::Value) -> bool + Copy> Node for FilterNode<N, P> {
    type Value = N::Value;

    open spec fn wf(&self) -> bool {
        self.inner.wf() && pure_fn(self.p)
    }

    open spec fn view_value(&self) -> N::Value {
        self.inner.view_value()
    }

    open spec fn view_children(&self) -> Seq<Self> {
        spec_filter_forest(self.p, self.inner.view_children())
    }

    proof fn lemma_children_wf(&self) {
        self.inner.lemma_children_wf();
        lemma_filter_forest_wf(self.p, self.inner.view_children());
    }

    fn value(&self) -> (r: N::Value) {
        self.inner.value()
    }

    fn children(&self) -> (r: Vec<Self>) {
        proof {
            self.inner.lemma_children_wf();
        }
        filter_forest(self.p, self.inner.children())
    }
}

/// Keeps the trees of `ts` whose root value satisfies `p`, and filters each.
pub fn filter_forest<N: Node, P: Fn(N::Value) -> bool + Copy>(p: P, ts: Vec<N>) -> (r: Vec<FilterNode<N, P>>)
    requires
        pure_fn(p),
        forall|i: int| 0 <= i < ts@.len() ==> #[trigger] ts@[i].wf(),
    ensures
        r@ == spec_filter_forest(p, ts@),
{
    let mut out: Vec<FilterNode<N, P>> = Vec::new();
    let mut i: usize = 0;
    while i < ts.len()
        invariant
            i <= ts@.len(),
            pure_fn(p),
            forall|j: int| 0 <= j < ts@.len() ==> #[trigger] ts@[j].wf(),
            out@ == spec_filter_forest(p, ts@.subrange(0, i as int)),
        decreases ts@.len() - i,
    {
        let keep = p(ts[i].value());
        proof {
            let s = ts@.subrange(0, i + 1);
            assert(s.drop_last() =~= ts@.subrange(0, i as int));
            assert(s.last() == ts@[i as int]);
        }
        if keep {
            out.push(FilterNode { inner: ts[i].dup(), p });
        }
        i += 1;
    }
    proof {
        assert(ts@.subrange(0, ts@.len() as int) =~= ts@);
    }
    out
}

/// Keeps the shrinks of `t` (recursively) whose value satisfies `p`; the root stays.
pub fn filter<N: Node, P: Fn(N::Value) -> bool + Copy>(p: P, t: N) -> (r: FilterNode<N, P>)
    ensures
        r == (FilterNode { inner: t, p }),
{
    FilterNode { inner: t, p }
}

/// The tree unfolded from `value` by a shrink function: the children are the
/// candidates that `shrink` gives for the value, each unfolded in turn.
pub struct Unfold<A, G> {
    pub value: A,
    pub shrink: G,
}

impl<A: Dup, G: Copy> Dup for Unfold<A, G> {
    fn dup(&self) -> (r: Self) {
        Unfold { value: self.value.dup(), shrink: self.shrink }
    }
}

impl<A: Dup, G: Fn(A) -> Vec<A> + Copy> Node for Unfold<A, G> {
    type Value = A;

    open spec fn wf(&self) -> bool {
        pure_shrink(self.shrink)
    }

    open spec fn view_value(&self) -> A {
        self.value
    }

    open spec fn view_children(&self) -> Seq<Self> {
        shrunk(self.shrink, self.value).map_values(|c: A| Unfold { value: c, shrink: self.shrink })
    }

    proof fn lemma_children_wf(&self) {
    }

    fn value(&self) -> (r: A) {
        self.value.dup()
    }

    fn children(&self) -> (r: Vec<Self>) {
        unfold_children(self.shrink, self.value.dup())
    }
}

/// The trees unfolded from each shrink candidate of `x`.
fn unfold_children<A: Dup, G: Fn(A) -> Vec<A> + Copy>(g: G, x: A) -> (r: Vec<Unfold<A, G>>)
    requires
        pure_shrink(g),
    ensures
        r@ == shrunk(g, x).map_values(|c: A| Unfold { value: c, shrink: g }),
{
    let ghost x0 = x;
    let cs = g(x);
    proof {
        lemma_shrunk(g, x0, cs);
    }
    let mut out: Vec<Unfold<A, G>> = Vec::new();
    let mut i: usize = 0;
    while i < cs.len()
        invariant
            i <= cs@.len(),
            out@ == cs@.map_values(|c: A| Unfold { value: c, shrink: g }).subrange(0, i as int),
        decreases cs@.len() - i,
    {
        out.push(Unfold { value: cs[i].dup(), shrink: g });
        i += 1;
    }
    proof {
        assert(out@ =~= cs@.map_values(|c: A| Unfold { value: c, shrink: g }));
    }
    out
}

/// The tree whose nodes are `f` of the seeds that `g` unfolds from `x`.
pub fn unfold<A: Dup, B, F: Fn(A) -> B + Copy, G: Fn(A) -> Vec<A> + Copy>(f: F, g: G, x: A) -> (r: MapNode<Unfold<A, G>, F>)
    ensures
        r == (MapNode { inner: Unfold { value: x, shrink: g }, f }),
{
    MapNode { inner: Unfold { value: x, shrink: g }, f }
}

/// The children of `unfold(f, g, x)`: for each candidate that `g` gives for
/// `x`, the tree whose nodes are `f` of the seeds that `g` unfolds from it.
pub fn unfold_forest<A: Dup, B, F: Fn(A) -> B + Copy, G: Fn(A) -> Vec<A> + Copy>(f: F, g: G, x: A) -> (r: Vec<MapNode<Unfold<A, G>, F>>)
    requires
        pure_shrink(g),
    ensures
        r@ == (MapNode { inner: Unfold { value: x, shrink: g }, f }).view_children(),
        r@.len() == shrunk(g, x).len(),
        forall|i: int| 0 <= i < r@.len() ==> (#[trigger] r@[i]).inner.value == shrunk(g, x)[i] && r@[i].f == f,
{
    let us = unfold_children(g, x);
    let mut out: Vec<MapNode<Unfold<A, G>, F>> = Vec::new();
    let mut i: usize = 0;
    while i < us.len()
        invariant
            i <= us@.len(),
            out@ == us@.map_values(|u: Unfold<A, G>| MapNode { inner: u, f }).subrange(0, i as int),
        decreases us@.len() - i,
    {
        out.push(MapNode { inner: us[i].dup(), f });
        i += 1;
    }
    proof {
        assert(out@ =~= us@.map_values(|u: Unfold<A, G>| MapNode { inner: u, f }));
        assert(out@ =~= (MapNode { inner: Unfold { value: x, shrink: g }, f }).view_children());
    }
    out
}

/// A tree with an extra shrink function: every node keeps its children, and
/// gains the tree that `f` unfolds from its value.
pub enum Expanded<N, A, F> {
    Base(N, F),
    Grown(Unfold<A, F>),
}

impl<N: Node<Value = A>, A: Dup, F: Copy> Dup for Expanded<N, A, F> {
    fn dup(&self) -> (r: Self) {
        match self {
            Expanded::Base(n, f) => Expanded::Base(n.dup(), *f),
            Expanded::Grown(u) => Expanded::Grown(Unfold { value: u.value.dup(), shrink: u.shrink }),
        }
    }
}

impl<N: Node<Value = A>, A: Dup, F: Fn(A) -> Vec<A> + Copy> Node for Expanded<N, A, F> {
    type Value = A;

    open spec fn wf(&self) -> bool {
        match self {
            Expanded::Base(n, f) => n.wf() && pure_shrink(*f),
            Expanded::Grown(u) => u.wf(),
        }
    }

    open spec fn view_value(&self) -> A {
        match self {
            Expanded::Base(n, f) => n.view_value(),
            Expanded::Grown(u) => u.view_value(),
        }
    }

    open spec fn view_children(&self) -> Seq<Self> {
        match self {
            Expanded::Base(n, f) => n.view_children().map_values(|c: N| Expanded::<N, A, F>::Base(c, *f))
                + shrunk(*f, n.view_value()).map_values(|c: A| Expanded::<N, A, F>::Grown(Unfold { value: c, shrink: *f })),
            Expanded::Grown(u) => u.view_children().map_values(|c: Unfold<A, F>| Expanded::<N, A, F>::Grown(c)),
        }
    }

    proof fn lemma_children_wf(&self) {
        match self {
            Expanded::Base(n, f) => n.lemma_children_wf(),
            Expanded::Grown(u) => {},
        }
    }

    fn value(&self) -> (r: A) {
        match self {
            Expanded::Base(n, f) => n.value(),
            Expanded::Grown(u) => u.value(),
        }
    }

    fn children(&self) -> (r: Vec<Self>) {
        match self {
            Expanded::Base(n, f) => {
                let cs = n.children();
                let mut out: Vec<Self> = Vec::new();
                let mut i: usize = 0;
                while i < cs.len()
                    invariant
                        i <= cs@.len(),
                        out@ == cs@.map_values(|c: N| Expanded::<N, A, F>::Base(c, *f)).subrange(0, i as int),
                    decreases cs@.len() - i,
                {
                    out.push(Expanded::Base(cs[i].dup(), *f));
                    i += 1;
                }
                proof {
                    assert(out@ =~= cs@.map_values(|c: N| Expanded::<N, A, F>::Base(c, *f)));
                }
                let us = unfold_children(*f, n.value());
                let mut j: usize = 0;
                while j < us.len()
                    invariant
                        j <= us@.len(),
                        out@ == cs@.map_values(|c: N| Expanded::<N, A, F>::Base(c, *f))
                            + us@.map_values(|u: Unfold<A, F>| Expanded::<N, A, F>::Grown(u)).subrange(0, j as int),
                    decreases us@.len() - j,
                {
                    out.push(Expanded::Grown(us[j].dup()));
                    j += 1;
                    proof {
                        assert(us@.map_values(|u: Unfold<A, F>| Expanded::<N, A, F>::Grown(u)).subrange(0, j as int)
                            =~= us@.map_values(|u: Unfold<A, F>| Expanded::<N, A, F>::Grown(u)).subrange(0, j - 1).push(Expanded::Grown(us@[j - 1])));
                    }
                }
                proof {
                    assert(us@.map_values(|u: Unfold<A, F>| Expanded::<N, A, F>::Grown(u)).subrange(0, us@.len() as int)
                        =~= shrunk(*f, n.view_value()).map_values(|c: A| Expanded::<N, A, F>::Grown(Unfold { value: c, shrink: *f })));
                }
                out
            },
            Expanded::Grown(u) => {
                let us = u.children();
                let mut out: Vec<Self> = Vec::new();
                let mut i: usize = 0;
                while i < us.len()
                    invariant
                        i <= us@.len(),
                        out@ == us@.map_values(|c: Unfold<A, F>| Expanded::<N, A, F>::Grown(c)).subrange(0, i as int),
                    decreases us@.len() - i,
                {
                    out.push(Expanded::Grown(us[i].dup()));
                    i += 1;
                }
                proof {
                    assert(out@ =~= us@.map_values(|c: Unfold<A, F>| Expanded::<N, A, F>::Grown(c)));
                }
                out
            },
        }
    }
}

impl<A: Dup> Tree<A> {
    /// Adds to every node of `t` the tree that `f` unfolds from its value.
    pub fn expand<N: Node<Value = A>, F: Fn(A) -> Vec<A> + Copy>(f: F, t: N) -> (r: Expanded<N, A, F>)
        ensures
            r == Expanded::<N, A, F>::Base(t, f),
    {
        Expanded::Base(t, f)
    }
}

/// The tree of the subtrees of a tree: each node's value is the node itself.
pub struct Duplicated<N> {
    pub inner: N,
}

impl<N: Node> Dup for Duplicated<N> {
    fn dup(&self) -> (r: Self) {
        Duplicated { inner: self.inner.dup() }
    }
}

impl<N: Node> Node for Duplicated<N> {
    type Value = N;

    open spec fn wf(&self) -> bool {
        self.inner.wf()
    }

    open spec fn view_value(&self) -> N {
        self.inner
    }

    open spec fn view_children(&self) -> Seq<Self> {
        self.inner.view_children().map_values(|c: N| Duplicated { inner: c })
    }

    proof fn lemma_children_wf(&self) {
        self.inner.lemma_children_wf();
    }

    fn value(&self) -> (r: N) {
        self.inner.dup()
    }

    fn children(&self) -> (r: Vec<Self>) {
        let cs = self.inner.children();
        let mut out: Vec<Self> = Vec::new();
        let mut i: usize = 0;
        while i < cs.len()
            invariant
                i <= cs@.len(),
                out@ == cs@.map_values(|c: N| Duplicated { inner: c }).subrange(0, i as int),
            decreases cs@.len() - i,
        {
            out.push(Duplicated { inner: cs[i].dup() });
            i += 1;
        }
        proof {
            assert(out@ =~= cs@.map_values(|c: N| Duplicated { inner: c }));
        }
        out
    }
}

/// The tree whose node values are the subtrees of `t`.
pub fn duplicate<N: Node>(t: N) -> (r: Duplicated<N>)
    ensures
        r == (Duplicated { inner: t }),
{
    Duplicated { inner: t }
}

/// Every node of type `M` is well formed (as every built tree is).
pub open spec fn always_wf<M: Node>() -> bool {
    forall|m: M| #[trigger] m.wf()
}

/// A tree of trees flattened: the shrinks of the outer tree (each flattened)
/// come before those of the tree at its root.
pub enum Joined<N, M> {
    Outer(N),
    Inner(M),
}

impl<N: Node<Value = M>, M: Node> Dup for Joined<N, M> {
    fn dup(&self) -> (r: Self) {
        match self {
            Joined::Outer(n) => Joined::Outer(n.dup()),
            Joined::Inner(m) => Joined::Inner(m.dup()),
        }
    }
}

impl<N: Node<Value = M>, M: Node> Node for Joined<N, M> {
    type Value = M::Value;

    open spec fn wf(&self) -> bool {
        match self {
            Joined::Outer(n) => n.wf() && always_wf::<M>(),
            Joined::Inner(m) => m.wf(),
        }
    }

    open spec fn view_value(&self) -> M::Value {
        match self {
            Joined::Outer(n) => n.view_value().view_value(),
            Joined::Inner(m) => m.view_value(),
        }
    }

    open spec fn view_children(&self) -> Seq<Self> {
        match self {
            Joined::Outer(n) => n.view_children().map_values(|c: N| Joined::<N, M>::Outer(c))
                + n.view_value().view_children().map_values(|c: M| Joined::<N, M>::Inner(c)),
            Joined::Inner(m) => m.view_children().map_values(|c: M| Joined::<N, M>::Inner(c)),
        }
    }

    proof fn lemma_children_wf(&self) {
        match self {
            Joined::Outer(n) => {
                n.lemma_children_wf();
                assert(n.view_value().wf());
                n.view_value().lemma_children_wf();
            },
            Joined::Inner(m) => m.lemma_children_wf(),
        }
    }

    fn value(&self) -> (r: M::Value) {
        match self {
            Joined::Outer(n) => {
                let m = n.value();
                assert(m.wf());
                m.value()
            },
            Joined::Inner(m) => m.value(),
        }
    }

    fn children(&self) -> (r: Vec<Self>) {
        match self {
            Joined::Outer(n) => {
                let cs = n.children();
                let mut out: Vec<Self> = Vec::new();
                let mut i: usize = 0;
                while i < cs.len()
                    invariant
                        i <= cs@.len(),
                        out@ == cs@.map_values(|c: N| Joined::<N, M>::Outer(c)).subrange(0, i as int),
                    decreases cs@.len() - i,
                {
                    out.push(Joined::Outer(cs[i].dup()));
                    i += 1;
                }
                proof {
                    assert(out@ =~= cs@.map_values(|c: N| Joined::<N, M>::Outer(c)));
                }
                let m = n.value();
                assert(m.wf());
                let ms = m.children();
                let mut j: usize = 0;
                while j < ms.len()
                    invariant
                        j <= ms@.len(),
                        out@ == cs@.map_values(|c: N| Joined::<N, M>::Outer(c))
                            + ms@.map_values(|c: M| Joined::<N, M>::Inner(c)).subrange(0, j as int),
                    decreases ms@.len() - j,
                {
                    out.push(Joined::Inner(ms[j].dup()));
                    j += 1;
                    proof {
                        assert(ms@.map_values(|c: M| Joined::<N, M>::Inner(c)).subrange(0, j as int)
                            =~= ms@.map_values(|c: M| Joined::<N, M>::Inner(c)).subrange(0, j - 1).push(Joined::Inner(ms@[j - 1])));
                    }
                }
                proof {
                    assert(ms@.map_values(|c: M| Joined::<N, M>::Inner(c)).subrange(0, ms@.len() as int)
                        =~= ms@.map_values(|c: M| Joined::<N, M>::Inner(c)));
                }
                out
            },
            Joined::Inner(m) => {
                let ms = m.children();
                let mut out: Vec<Self> = Vec::new();
                let mut i: usize = 0;
                while i < ms.len()
                    invariant
                        i <= ms@.len(),
                        out@ == ms@.map_values(|c: M| Joined::<N, M>::Inner(c)).subrange(0, i as int),
                    decreases ms@.len() - i,
                {
                    out.push(Joined::Inner(ms[i].dup()));
                    i += 1;
                }
                proof {
                    assert(out@ =~= ms@.map_values(|c: M| Joined::<N, M>::Inner(c)));
                }
                out
            },
        }
    }
}

/// Flattens a tree of trees.
pub fn join<N: Node<Value = M>, M: Node>(t: N) -> (r: Joined<N, M>)
    ensures
        r == Joined::<N, M>::Outer(t),
{
    Joined::Outer(t)
}

/// `f` of the root value and `g` of the folds of the children, all the way down
/// a built tree.
pub open spec fn spec_fold<A, X, B, F: Fn(A, X) -> B, G: Fn(Vec<B>) -> X>(f: F, g: G, t: Tree<A>) -> B
    decreases t, 2int,
{
    choose|b: B| call_ensures(f, (t.root, spec_fold_forest(f, g, *t.subtrees)), b)
}

/// `g` of the folds of the trees of a forest.
pub open spec fn spec_fold_forest<A, X, B, F: Fn(A, X) -> B, G: Fn(Vec<B>) -> X>(f: F, g: G, l: Forest<A>) -> X
    decreases l, 1int,
{
    choose|x: X| #[trigger] combines(g, spec_folds(f, g, l), x)
}

/// `x` is what `g` returns for a vector that holds `bs`.
pub open spec fn combines<B, X, G: Fn(Vec<B>) -> X>(g: G, bs: Seq<B>, x: X) -> bool {
    exists|v: Vec<B>| v@ == bs && #[trigger] call_ensures(g, (v,), x)
}

/// The fold of each tree of a forest, in order.
pub open spec fn spec_folds<A, X, B, F: Fn(A, X) -> B, G: Fn(Vec<B>) -> X>(f: F, g: G, l: Forest<A>) -> Seq<B>
    decreases l, 0int,
{
    match l {
        Forest::Nil => Seq::empty(),
        Forest::Cons(t, rest) => seq![spec_fold(f, g, t)] + spec_folds(f, g, *rest),
    }
}

/// `f` and `g` accept every argument and return one result for each (for `g`,
/// one result for each sequence of items).
pub open spec fn pure_folders<A, X, B, F: Fn(A, X) -> B, G: Fn(Vec<B>) -> X>(f: F, g: G) -> bool {
    &&& forall|a: A, x: X| #[trigger] call_requires(f, (a, x))
    &&& forall|a: A, x: X, b1: B, b2: B| #[trigger] call_ensures(f, (a, x), b1) && #[trigger] call_ensures(f, (a, x), b2) ==> b1 == b2
    &&& forall|v: Vec<B>| #[trigger] call_requires(g, (v,))
    &&& forall|v1: Vec<B>, v2: Vec<B>, x1: X, x2: X| #[trigger] call_ensures(g, (v1,), x1) && #[trigger] call_ensures(g, (v2,), x2) && v1@ == v2@ ==> x1 == x2
}

/// Folds a built tree: `f` of the root value and `g` of the folds of the children.
pub fn fold<A: Dup, X, B, F: Fn(A, X) -> B, G: Fn(Vec<B>) -> X>(f: &F, g: &G, t: &Tree<A>) -> (r: B)
    requires
        pure_folders(*f, *g),
    ensures
        r == spec_fold(*f, *g, *t),
    decreases t, 2int,
{
    let x = fold_forest(f, g, &*t.subtrees);
    f(t.root.dup(), x)
}

/// Folds each tree of a forest, and combines the results with `g`.
pub fn fold_forest<A: Dup, X, B, F: Fn(A, X) -> B, G: Fn(Vec<B>) -> X>(f: &F, g: &G, l: &Forest<A>) -> (r: X)
    requires
        pure_folders(*f, *g),
    ensures
        r == spec_fold_forest(*f, *g, *l),
    decreases l, 1int,
{
    let bs = folds(f, g, l);
    let x = g(bs);
    proof {
        assert(combines(*g, spec_folds(*f, *g, *l), x));
    }
    x
}

fn folds<A: Dup, X, B, F: Fn(A, X) -> B, G: Fn(Vec<B>) -> X>(f: &F, g: &G, l: &Forest<A>) -> (r: Vec<B>)
    requires
        pure_folders(*f, *g),
    ensures
        r@ == spec_folds(*f, *g, *l),
    decreases l, 0int,
{
    match l {
        Forest::Nil => Vec::new(),
        Forest::Cons(t, rest) => {
            let b = fold(f, g, t);
            let mut v = vec![b];
            let mut more = folds(f, g, &**rest);
            v.append(&mut more);
            v
        },
    }
}

} // verus!
