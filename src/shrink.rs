use vstd::prelude::*;
use crate::range::div_trunc;
use crate::tree::{Dup, List, Node};

verus! {

/// `n / 2`, rounded toward zero.
pub open spec fn half(n: int) -> int {
    div_trunc(n, 2)
}

/// `n, n/2, n/4, ...`, down to (not including) zero.
pub open spec fn spec_halves(n: int) -> Seq<int>
    decreases (if n >= 0 { n } else { -n }),
{
    if n == 0 {
        Seq::empty()
    } else {
        seq![n] + spec_halves(half(n))
    }
}

/// `ys` with `d` put in front, unless `ys` is empty or already starts with `d`.
pub open spec fn cons_nub(d: int, ys: Seq<int>) -> Seq<int> {
    if ys.len() == 0 {
        ys
    } else if ys[0] == d {
        ys
    } else {
        seq![d] + ys
    }
}

/// The shrink candidates of `x` toward `destination`: `x - h` for each `h` in the
/// halves of the (halved) distance, with the destination tried first.
pub open spec fn spec_towards(destination: int, x: int) -> Seq<int> {
    if destination == x {
        Seq::empty()
    } else {
        let diff = half(x) - half(destination);
        cons_nub(destination, spec_halves(diff).map_values(|h: int| x - h))
    }
}

/// The values of a sequence of machine integers, as mathematical integers.
pub open spec fn ints(v: Seq<i64>) -> Seq<int> {
    v.map_values(|x: i64| x as int)
}

fn half_i64(n: i64) -> (r: i64)
    ensures
        r == half(n as int),
{
    if n >= 0 {
        n / 2
    } else {
        let m: i128 = -(n as i128);
        (-(m / 2)) as i64
    }
}

proof fn lemma_halves_bounded(n: int)
    ensures
        forall|i: int| 0 <= i < spec_halves(n).len() ==>
            if n >= 0 { 0 < #[trigger] spec_halves(n)[i] <= n } else { n <= spec_halves(n)[i] < 0 },
    decreases (if n >= 0 { n } else { -n }),
{
    if n != 0 {
        lemma_halves_bounded(half(n));
        assert forall|i: int| 0 <= i < spec_halves(n).len() implies
            if n >= 0 { 0 < #[trigger] spec_halves(n)[i] <= n } else { n <= spec_halves(n)[i] < 0 } by {
            if i > 0 {
                assert(spec_halves(n)[i] == spec_halves(half(n))[i - 1]);
            }
        }
    }
}

/// `n, n/2, n/4, ...`, down to (not including) zero.
pub fn halves(n: i64) -> (r: Vec<i64>)
    ensures
        ints(r@) == spec_halves(n as int),
{
    let mut out: Vec<i64> = Vec::new();
    let mut x: i64 = n;
    while x != 0
        invariant
            ints(out@) + spec_halves(x as int) == spec_halves(n as int),
        decreases (if x >= 0 { x as int } else { -x }),
    {
        proof {
            assert(ints(out@.push(x)) =~= ints(out@).push(x as int));
            assert(ints(out@).push(x as int) + spec_halves(half(x as int)) =~= ints(out@) + spec_halves(x as int));
        }
        out.push(x);
        x = half_i64(x);
    }
    proof {
        assert(ints(out@) + Seq::<int>::empty() =~= ints(out@));
    }
    out
}

/// Shrinks an integer by edging towards a destination: the destination first,
/// then values that get geometrically closer to `x`.
pub fn towards(destination: i64, x: i64) -> (r: Vec<i64>)
    ensures
        ints(r@) == spec_towards(destination as int, x as int),
        destination == x ==> r@.len() == 0,
{
    if destination == x {
        proof {
            assert(ints(Seq::<i64>::empty()) =~= Seq::<int>::empty());
        }
        return Vec::new();
    }
    let diff = half_i64(x) - half_i64(destination);
    let hs = halves(diff);
    let ghost cands = spec_halves(diff as int).map_values(|h: int| x - h);
    proof {
        lemma_halves_bounded(diff as int);
        assert(ints(hs@).len() == hs@.len());
    }
    let mut ys: Vec<i64> = Vec::new();
    let mut i: usize = 0;
    while i < hs.len()
        invariant
            i <= hs@.len(),
            ints(hs@) == spec_halves(diff as int),
            diff == half(x as int) - half(destination as int),
            forall|j: int| 0 <= j < spec_halves(diff as int).len() ==>
                if diff >= 0 { 0 < #[trigger] spec_halves(diff as int)[j] <= diff } else { diff <= spec_halves(diff as int)[j] < 0 },
            cands == spec_halves(diff as int).map_values(|h: int| x - h),
            cands.len() == hs@.len(),
            ints(ys@) == cands.subrange(0, i as int),
            ys@.len() == i,
        decreases hs@.len() - i,
    {
        let h = hs[i];
        assert(h == spec_halves(diff as int)[i as int]) by {
            assert(ints(hs@)[i as int] == hs@[i as int] as int);
        }
        let y = x - h;
        proof {
            assert(cands[i as int] == x - h);
            assert forall|j: int| 0 <= j < i + 1 implies #[trigger] ints(ys@.push(y))[j] == cands.subrange(0, i + 1)[j] by {
                if j < i {
                    assert(ints(ys@)[j] == cands.subrange(0, i as int)[j]);
                }
            }
            assert(ints(ys@.push(y)) =~= cands.subrange(0, i + 1));
        }
        ys.push(y);
        i += 1;
    }
    proof {
        assert(cands.subrange(0, hs@.len() as int) =~= cands);
    }
    if ys.len() == 0 {
        ys
    } else if ys[0] == destination {
        ys
    } else {
        let mut out: Vec<i64> = vec![destination];
        out.append(&mut ys);
        proof {
            assert(ints(out@) =~= seq![destination as int] + cands);
        }
        out
    }
}

/// The tree of integers that shrink toward `destination`, at `value`.
#[derive(Clone, Copy, Debug, PartialEq, Eq, Structural)]
pub struct Towards {
    pub destination: i64,
    pub value: i64,
}

impl Dup for Towards {
    fn dup(&self) -> (r: Self) {
        *self
    }
}

impl Node for Towards {
    type Value = i64;

    open spec fn wf(&self) -> bool {
        true
    }

    open spec fn view_value(&self) -> i64 {
        self.value
    }

    open spec fn view_children(&self) -> Seq<Self> {
        Seq::new(
            spec_towards(self.destination as int, self.value as int).len(),
            |i: int| Towards { destination: self.destination, value: spec_towards(self.destination as int, self.value as int)[i] as i64 },
        )
    }

    proof fn lemma_children_wf(&self) {
    }

    fn value(&self) -> (r: i64) {
        self.value
    }

    fn children(&self) -> (r: Vec<Self>) {
        let vs = towards(self.destination, self.value);
        let mut out: Vec<Towards> = Vec::new();
        let mut i: usize = 0;
        while i < vs.len()
            invariant
                i <= vs@.len(),
                ints(vs@) == spec_towards(self.destination as int, self.value as int),
                out@ == self.view_children().subrange(0, i as int),
            decreases vs@.len() - i,
        {
            assert(ints(vs@)[i as int] == vs@[i as int] as int);
            out.push(Towards { destination: self.destination, value: vs[i] });
            i += 1;
        }
        proof {
            assert(out@ =~= self.view_children());
        }
        out
    }
}

/// The sequences of `ss`, one after another.
pub open spec fn concat<T>(ss: Seq<Seq<T>>) -> Seq<T>
    decreases ss.len(),
{
    if ss.len() == 0 {
        Seq::empty()
    } else {
        concat(ss.drop_last()) + ss.last()
    }
}

/// The contents of each vector.
pub open spec fn views<T>(v: Seq<Vec<T>>) -> Seq<Seq<T>> {
    v.map_values(|x: Vec<T>| x@)
}

/// Every way of deleting a contiguous run of `k` items from `s`, by the position
/// of the run; none when `k` is zero or exceeds the length.
pub open spec fn spec_removes<T>(k: int, s: Seq<T>) -> Seq<Seq<T>> {
    if k <= 0 || k > s.len() {
        Seq::empty()
    } else {
        Seq::new((s.len() - k + 1) as nat, |i: int| s.subrange(0, i) + s.subrange(i + k, s.len() as int))
    }
}

/// Deletions of runs of length `k`, `k/2`, `k/4`, ... (down to one) from `s`,
/// keeping only those that leave at least `m` items.
pub open spec fn spec_deletions<T>(k: nat, s: Seq<T>, m: nat) -> Seq<Seq<T>>
    decreases k,
{
    if k == 0 {
        Seq::empty()
    } else {
        (if s.len() - k >= m { spec_removes(k as int, s) } else { Seq::empty() }) + spec_deletions(k / 2, s, m)
    }
}

/// Deletions of runs of each length in the halves of the length of `s`, longest first.
pub open spec fn spec_vec_shrink<T>(s: Seq<T>) -> Seq<Seq<T>> {
    spec_deletions(s.len(), s, 0)
}

/// The sequences that replace one node of `s` by one of its children: position by
/// position, each child in order.
pub open spec fn spec_elems<N: Node>(s: Seq<N>) -> Seq<Seq<N>> {
    concat(Seq::new(s.len(), |i: int| s[i].view_children().map_values(|c: N| s.update(i, c))))
}

pub proof fn lemma_concat_member<T>(ss: Seq<Seq<T>>, j: int)
    requires
        0 <= j < concat(ss).len(),
    ensures
        exists|a: int, b: int| 0 <= a < ss.len() && 0 <= b < ss[a].len() && concat(ss)[j] == ss[a][b],
    decreases ss.len(),
{
    if ss.len() > 0 {
        let front = concat(ss.drop_last());
        if j < front.len() {
            lemma_concat_member(ss.drop_last(), j);
            let (a, b) = choose|a: int, b: int| 0 <= a < ss.drop_last().len() && 0 <= b < ss.drop_last()[a].len() && front[j] == ss.drop_last()[a][b];
            assert(ss[a] == ss.drop_last()[a]);
        } else {
            assert(concat(ss)[j] == ss[ss.len() - 1][j - front.len()]);
        }
    }
}

proof fn lemma_views_push<T>(v: Seq<Vec<T>>, x: Vec<T>)
    ensures
        views(v.push(x)) == views(v).push(x@),
{
    assert(views(v.push(x)) =~= views(v).push(x@));
}

proof fn lemma_views_add<T>(a: Seq<Vec<T>>, b: Seq<Vec<T>>)
    ensures
        views(a + b) == views(a) + views(b),
{
    assert(views(a + b) =~= views(a) + views(b));
}

proof fn lemma_concat_step<T>(parts: Seq<Seq<T>>, i: int)
    requires
        0 <= i < parts.len(),
    ensures
        concat(parts.subrange(0, i + 1)) == concat(parts.subrange(0, i)) + parts[i],
{
    assert(parts.subrange(0, i + 1).drop_last() =~= parts.subrange(0, i));
}

/// Appends copies of `xs[lo..hi]` to `out`.
fn push_range<T: Dup>(out: &mut Vec<T>, xs: &Vec<T>, lo: usize, hi: usize)
    requires
        lo <= hi <= xs@.len(),
    ensures
        final(out)@ == old(out)@ + xs@.subrange(lo as int, hi as int),
{
    let mut j: usize = lo;
    while j < hi
        invariant
            lo <= j <= hi,
            hi <= xs@.len(),
            out@ == old(out)@ + xs@.subrange(lo as int, j as int),
        decreases hi - j,
    {
        let x = xs[j].dup();
        proof {
            assert(old(out)@ + xs@.subrange(lo as int, j + 1) =~= (old(out)@ + xs@.subrange(lo as int, j as int)).push(x));
        }
        out.push(x);
        j += 1;
    }
}

/// Every way of deleting a contiguous run of `k` items from `xs`.
pub fn removes<T: Dup>(k: usize, xs: &Vec<T>) -> (r: Vec<Vec<T>>)
    ensures
        views(r@) == spec_removes(k as int, xs@),
{
    let n = xs.len();
    let mut out: Vec<Vec<T>> = Vec::new();
    if k == 0 || k > n {
        proof {
            assert(views(out@) =~= spec_removes(k as int, xs@));
        }
        return out;
    }
    let ghost spec = spec_removes(k as int, xs@);
    let mut i: usize = 0;
    while i <= n - k
        invariant
            0 < k <= n,
            n == xs@.len(),
            i <= n - k + 1,
            spec == spec_removes(k as int, xs@),
            views(out@) == spec.subrange(0, i as int),
        decreases n - k + 1 - i,
    {
        let mut c: Vec<T> = Vec::new();
        push_range(&mut c, xs, 0, i);
        push_range(&mut c, xs, i + k, n);
        proof {
            assert(c@ =~= spec[i as int]);
            lemma_views_push(out@, c);
            assert(spec.subrange(0, i as int).push(spec[i as int]) =~= spec.subrange(0, i + 1));
        }
        out.push(c);
        i += 1;
    }
    proof {
        assert(spec.subrange(0, spec.len() as int) =~= spec);
    }
    out
}

/// Deletions of chunks from `xs`, large chunks first, that leave at least
/// `min_len` items.
pub fn deletions<T: Dup>(xs: &Vec<T>, min_len: usize) -> (r: Vec<Vec<T>>)
    ensures
        views(r@) == spec_deletions(xs@.len(), xs@, min_len as nat),
{
    let n = xs.len();
    let mut out: Vec<Vec<T>> = Vec::new();
    let mut k: usize = n;
    while k > 0
        invariant
            n == xs@.len(),
            k <= n,
            views(out@) + spec_deletions(k as nat, xs@, min_len as nat) == spec_deletions(xs@.len(), xs@, min_len as nat),
        decreases k,
    {
        if n - k >= min_len {
            let mut rs = removes(k, xs);
            proof {
                lemma_views_add(out@, rs@);
                assert(views(out@) + views(rs@) + spec_deletions((k / 2) as nat, xs@, min_len as nat) =~= views(out@) + spec_deletions(k as nat, xs@, min_len as nat));
            }
            out.append(&mut rs);
        } else {
            proof {
                assert(views(out@) + spec_deletions((k / 2) as nat, xs@, min_len as nat) =~= views(out@) + spec_deletions(k as nat, xs@, min_len as nat));
            }
        }
        k = k / 2;
    }
    proof {
        assert(views(out@) + Seq::<Seq<T>>::empty() =~= views(out@));
    }
    out
}

/// Shrinks a sequence by deleting chunks: large chunks first, then smaller ones.
pub fn vec<T: Dup>(xs: &Vec<T>) -> (r: Vec<Vec<T>>)
    ensures
        views(r@) == spec_vec_shrink(xs@),
{
    deletions(xs, 0)
}

/// The sequences that replace one node of `xs` by one of its children.
pub fn elems<N: Node>(xs: &Vec<N>) -> (r: Vec<Vec<N>>)
    requires
        forall|i: int| 0 <= i < xs@.len() ==> #[trigger] xs@[i].wf(),
    ensures
        views(r@) == spec_elems(xs@),
{
    let n = xs.len();
    let ghost parts = Seq::new(xs@.len(), |i: int| xs@[i].view_children().map_values(|c: N| xs@.update(i, c)));
    let mut out: Vec<Vec<N>> = Vec::new();
    let mut i: usize = 0;
    while i < n
        invariant
            i <= n,
            n == xs@.len(),
            forall|j: int| 0 <= j < xs@.len() ==> #[trigger] xs@[j].wf(),
            parts == Seq::new(xs@.len(), |i: int| xs@[i].view_children().map_values(|c: N| xs@.update(i, c))),
            views(out@) == concat(parts.subrange(0, i as int)),
        decreases n - i,
    {
        let cs = xs[i].children();
        let ghost before = views(out@);
        let mut j: usize = 0;
        while j < cs.len()
            invariant
                i < n,
                n == xs@.len(),
                j <= cs@.len(),
                cs@ == xs@[i as int].view_children(),
                parts == Seq::new(xs@.len(), |i: int| xs@[i].view_children().map_values(|c: N| xs@.update(i, c))),
                views(out@) == before + parts[i as int].subrange(0, j as int),
            decreases cs@.len() - j,
        {
            let mut c: Vec<N> = Vec::new();
            push_range(&mut c, xs, 0, i);
            c.push(cs[j].dup());
            push_range(&mut c, xs, i + 1, n);
            proof {
                assert(c@ =~= xs@.update(i as int, cs@[j as int]));
                lemma_views_push(out@, c);
                assert(parts[i as int][j as int] == xs@.update(i as int, cs@[j as int]));
                assert((before + parts[i as int].subrange(0, j as int)).push(c@) =~= before + parts[i as int].subrange(0, j + 1));
            }
            out.push(c);
            j += 1;
        }
        proof {
            assert(parts[i as int].subrange(0, cs@.len() as int) =~= parts[i as int]);
            lemma_concat_step(parts, i as int);
        }
        i += 1;
    }
    proof {
        assert(parts.subrange(0, n as int) =~= parts);
    }
    out
}

/// Every node of `s` is well formed.
pub open spec fn all_wf<N: Node>(s: Seq<N>) -> bool {
    forall|i: int| 0 <= i < s.len() ==> #[trigger] s[i].wf()
}

/// The shrink candidates of a sequence of nodes: chunk deletions that leave at
/// least `min_len` items (when deletions are asked for), then replacements of
/// one node by one of its children.
pub open spec fn spec_sequence_shrinks<N: Node>(s: Seq<N>, deletions: bool, min_len: nat) -> Seq<Seq<N>> {
    (if deletions { spec_deletions(s.len(), s, min_len) } else { Seq::empty() }) + spec_elems(s)
}

proof fn lemma_deletions_wf<N: Node>(k: nat, s: Seq<N>, m: nat)
    requires
        all_wf(s),
    ensures
        forall|j: int| 0 <= j < spec_deletions(k, s, m).len() ==> all_wf(#[trigger] spec_deletions(k, s, m)[j]),
    decreases k,
{
    if k > 0 {
        lemma_deletions_wf(k / 2, s, m);
        let rs = if s.len() - k >= m { spec_removes(k as int, s) } else { Seq::empty() };
        assert forall|j: int| 0 <= j < spec_deletions(k, s, m).len() implies all_wf(#[trigger] spec_deletions(k, s, m)[j]) by {
            if j < rs.len() {
                let c = rs[j];
                assert(c == s.subrange(0, j) + s.subrange(j + k, s.len() as int));
                assert forall|i: int| 0 <= i < c.len() implies #[trigger] c[i].wf() by {
                    if i < j {
                        assert(c[i] == s[i]);
                    } else {
                        assert(c[i] == s[i + k]);
                    }
                }
            } else {
                assert(spec_deletions(k, s, m)[j] == spec_deletions(k / 2, s, m)[j - rs.len()]);
            }
        }
    }
}

proof fn lemma_elems_wf<N: Node>(s: Seq<N>)
    requires
        all_wf(s),
    ensures
        forall|j: int| 0 <= j < spec_elems(s).len() ==> all_wf(#[trigger] spec_elems(s)[j]),
{
    let parts = Seq::new(s.len(), |i: int| s[i].view_children().map_values(|c: N| s.update(i, c)));
    assert forall|j: int| 0 <= j < spec_elems(s).len() implies all_wf(#[trigger] spec_elems(s)[j]) by {
        lemma_concat_member(parts, j);
        let (a, b) = choose|a: int, b: int| 0 <= a < parts.len() && 0 <= b < parts[a].len() && concat(parts)[j] == parts[a][b];
        s[a].lemma_children_wf();
        let c = s[a].view_children()[b];
        assert(parts[a][b] == s.update(a, c));
        assert forall|i: int| 0 <= i < s.len() implies #[trigger] s.update(a, c)[i].wf() by {
            if i != a {
                assert(s.update(a, c)[i] == s[i]);
            }
        }
    }
}

/// A tree of sequences built from a sequence of trees: its value is the
/// sequence of their values; it shrinks by deleting chunks (when `deletions`
/// holds) and by shrinking one element at a time.
pub struct SeqNode<N> {
    pub items: List<N>,
    pub deletions: bool,
    pub min_len: usize,
}

impl<N: Node> Dup for SeqNode<N> {
    fn dup(&self) -> (r: Self) {
        SeqNode { items: self.items.dup(), deletions: self.deletions, min_len: self.min_len }
    }
}

/// The list of copies of the items of `v`.
fn list_of<T: Dup>(v: &Vec<T>) -> (l: List<T>)
    ensures
        l.view() == v@,
{
    let mut l: List<T> = List::Nil;
    let mut i: usize = v.len();
    while i > 0
        invariant
            i <= v@.len(),
            l.view() == v@.subrange(i as int, v@.len() as int),
        decreases i,
    {
        i -= 1;
        let x = v[i].dup();
        proof {
            assert(seq![x] + l.view() =~= v@.subrange(i as int, v@.len() as int));
        }
        l = List::Cons(x, Box::new(l));
    }
    proof {
        assert(v@.subrange(0, v@.len() as int) =~= v@);
    }
    l
}

impl<N: Node> Node for SeqNode<N> {
    type Value = List<N::Value>;

    open spec fn wf(&self) -> bool {
        all_wf(self.items.view())
    }

    open spec fn view_value(&self) -> List<N::Value> {
        List::of_seq(self.items.view().map_values(|e: N| e.view_value()))
    }

    open spec fn view_children(&self) -> Seq<Self> {
        spec_sequence_shrinks(self.items.view(), self.deletions, self.min_len as nat).map_values(
            |s: Seq<N>| SeqNode { items: List::of_seq(s), deletions: self.deletions, min_len: self.min_len },
        )
    }

    proof fn lemma_children_wf(&self) {
        let s = self.items.view();
        lemma_deletions_wf(s.len(), s, self.min_len as nat);
        lemma_elems_wf(s);
        let cands = spec_sequence_shrinks(s, self.deletions, self.min_len as nat);
        assert forall|j: int| 0 <= j < self.view_children().len() implies #[trigger] self.view_children()[j].wf() by {
            List::lemma_view_of_seq(cands[j]);
            if self.deletions {
                let d = spec_deletions(s.len(), s, self.min_len as nat);
                if j >= d.len() {
                    assert(cands[j] == spec_elems(s)[j - d.len()]);
                }
            } else {
                assert(cands[j] == spec_elems(s)[j]);
            }
        }
    }

    fn value(&self) -> (r: List<N::Value>) {
        let xs = self.items.dup().into_vec();
        let mut vs: Vec<N::Value> = Vec::new();
        let mut i: usize = 0;
        while i < xs.len()
            invariant
                i <= xs@.len(),
                xs@ == self.items.view(),
                all_wf(xs@),
                vs@ == xs@.map_values(|e: N| e.view_value()).subrange(0, i as int),
            decreases xs@.len() - i,
        {
            let v = xs[i].value();
            proof {
                assert(vs@.push(v) =~= xs@.map_values(|e: N| e.view_value()).subrange(0, i + 1));
            }
            vs.push(v);
            i += 1;
        }
        proof {
            assert(xs@.map_values(|e: N| e.view_value()).subrange(0, xs@.len() as int) =~= xs@.map_values(|e: N| e.view_value()));
        }
        let l = List::from_vec(vs);
        proof {
            List::lemma_of_seq_view(l);
        }
        l
    }

    fn children(&self) -> (r: Vec<Self>) {
        let xs = self.items.dup().into_vec();
        let mut cands: Vec<Vec<N>> = if self.deletions {
            deletions(&xs, self.min_len)
        } else {
            Vec::new()
        };
        let mut es = elems(&xs);
        proof {
            lemma_views_add(cands@, es@);
        }
        cands.append(&mut es);
        proof {
            assert(views(cands@) =~= spec_sequence_shrinks(xs@, self.deletions, self.min_len as nat));
        }
        let mut out: Vec<SeqNode<N>> = Vec::new();
        let mut i: usize = 0;
        while i < cands.len()
            invariant
                i <= cands@.len(),
                views(cands@) == spec_sequence_shrinks(self.items.view(), self.deletions, self.min_len as nat),
                out@ == self.view_children().subrange(0, i as int),
            decreases cands@.len() - i,
        {
            let l = list_of(&cands[i]);
            proof {
                List::lemma_of_seq_view(l);
                assert(views(cands@)[i as int] == cands@[i as int]@);
            }
            out.push(SeqNode { items: l, deletions: self.deletions, min_len: self.min_len });
            i += 1;
        }
        proof {
            assert(out@ =~= self.view_children());
        }
        out
    }
}

/// Combines trees into one tree of sequences: it shrinks by deleting chunks
/// that leave at least `min_len` items (when `deletions` holds), then by
/// shrinking one item at a time.
pub fn sequence<N: Node>(xs: Vec<N>, deletions: bool, min_len: usize) -> (r: SeqNode<N>)
    ensures
        r.items.view() == xs@,
        r.deletions == deletions,
        r.min_len == min_len,
{
    SeqNode { items: List::from_vec(xs), deletions, min_len }
}

/// Combines trees into one tree of sequences that shrinks both in length and in content.
pub fn sequence_list<N: Node>(xs: Vec<N>) -> (r: SeqNode<N>)
    ensures
        r.items.view() == xs@,
        r.deletions,
        r.min_len == 0,
{
    sequence(xs, true, 0)
}

/// Combines trees into one tree of sequences of fixed length that shrinks in content.
pub fn sequence_elems<N: Node>(xs: Vec<N>) -> (r: SeqNode<N>)
    ensures
        r.items.view() == xs@,
        !r.deletions,
        r.min_len == 0,
{
    sequence(xs, false, 0)
}

/// Whether `xs` holds at least `n` items.
pub fn at_least<A>(n: usize, xs: &Vec<A>) -> (r: bool)
    ensures
        r == (xs@.len() >= n),
{
    xs.len() >= n
}

/// Every candidate of `towards(d, x)` lies between `d` (included) and `x` (excluded).
pub proof fn lemma_towards_between(d: int, x: int)
    ensures
        forall|i: int| 0 <= i < spec_towards(d, x).len() ==>
            if d <= x { d <= #[trigger] spec_towards(d, x)[i] < x } else { x < spec_towards(d, x)[i] <= d },
{
    if d != x {
        let diff = half(x) - half(d);
        lemma_halves_bounded(diff);
        assert(d <= x ==> 0 <= diff <= x - d);
        assert(x < d ==> x - d <= diff <= 0);
        let cands = spec_halves(diff).map_values(|h: int| x - h);
        assert forall|i: int| 0 <= i < cands.len() implies
            if d <= x { d <= #[trigger] cands[i] < x } else { x < cands[i] <= d } by {
            assert(cands[i] == x - spec_halves(diff)[i]);
        }
        assert forall|i: int| 0 <= i < spec_towards(d, x).len() implies
            if d <= x { d <= #[trigger] spec_towards(d, x)[i] < x } else { x < spec_towards(d, x)[i] <= d } by {
            if cands.len() > 0 && cands[0] != d && i > 0 {
                assert(spec_towards(d, x)[i] == cands[i - 1]);
            }
        }
    }
}

/// The halves fall strictly in size and end at one (or minus one).
proof fn lemma_halves_shape(n: int)
    requires
        n != 0,
    ensures
        spec_halves(n).len() >= 1,
        spec_halves(n)[0] == n,
        spec_halves(n).last() == (if n > 0 { 1int } else { -1int }),
        forall|i: int| 0 <= i < spec_halves(n).len() - 1 ==>
            if n > 0 { 0 < #[trigger] spec_halves(n)[i + 1] < spec_halves(n)[i] } else { spec_halves(n)[i] < spec_halves(n)[i + 1] < 0 },
    decreases (if n >= 0 { n } else { -n }),
{
    let h = half(n);
    if h != 0 {
        lemma_halves_shape(h);
        assert(n > 0 ==> 0 < h < n);
        assert(n < 0 ==> n < h < 0);
        assert(spec_halves(n) == seq![n] + spec_halves(h));
        assert forall|i: int| 0 <= i < spec_halves(n).len() - 1 implies
            if n > 0 { 0 < #[trigger] spec_halves(n)[i + 1] < spec_halves(n)[i] } else { spec_halves(n)[i] < spec_halves(n)[i + 1] < 0 } by {
            if i > 0 {
                assert(spec_halves(n)[i] == spec_halves(h)[i - 1]);
                assert(spec_halves(n)[i + 1] == spec_halves(h)[(i - 1) + 1]);
            } else {
                assert(spec_halves(n)[1] == spec_halves(h)[0]);
            }
        }
    } else {
        assert(spec_halves(h) =~= Seq::<int>::empty());
        assert(spec_halves(n) =~= seq![n]);
    }
}

/// Shrinking toward a destination converges: the destination comes first, each
/// candidate is strictly closer to `x` than the one before, and the last is next
/// to `x`, whenever there is room between the halves of the two.
pub proof fn law_towards_converges(destination: int, x: int)
    requires
        destination != x,
        half(x) - half(destination) != 0,
    ensures
        ({
            let r = spec_towards(destination, x);
            let diff = half(x) - half(destination);
            &&& r.len() >= 1
            &&& r[0] == destination
            &&& forall|i: int| 0 <= i < r.len() - 1 ==> #[trigger] abs(x - r[i + 1]) < abs(x - r[i])
            &&& r.last() == x - (if diff > 0 { 1int } else { -1int })
        }),
{
    let diff = half(x) - half(destination);
    lemma_halves_shape(diff);
    assert(destination <= x ==> 0 <= diff <= x - destination);
    assert(x < destination ==> x - destination <= diff <= 0);
    let hs = spec_halves(diff);
    let cands = hs.map_values(|h: int| x - h);
    let r = spec_towards(destination, x);
    assert forall|i: int| 0 <= i < cands.len() - 1 implies #[trigger] abs(x - cands[i + 1]) < abs(x - cands[i]) by {
        assert(cands[i] == x - hs[i] && cands[i + 1] == x - hs[i + 1]);
    }
    if cands[0] == destination {
        assert(r == cands);
    } else {
        assert(r == seq![destination] + cands);
        assert(abs(x - cands[0]) < abs(x - destination)) by {
            assert(cands[0] == x - diff);
        }
        assert forall|i: int| 0 <= i < r.len() - 1 implies #[trigger] abs(x - r[i + 1]) < abs(x - r[i]) by {
            if i > 0 {
                assert(r[i] == cands[i - 1] && r[i + 1] == cands[i]);
                assert(abs(x - cands[(i - 1) + 1]) < abs(x - cands[i - 1]));
            }
        }
    }
}

/// The distance `|v|`.
pub open spec fn abs(v: int) -> int {
    if v < 0 { -v } else { v }
}

/// A sequence node whose items meet its minimum length passes that minimum on:
/// every child keeps the minimum and holds at least that many items. So no node
/// reachable from such a node is shorter than the minimum.
pub proof fn law_sequence_keeps_min_len<N: Node>(t: SeqNode<N>)
    requires
        t.items.view().len() >= t.min_len,
    ensures
        forall|i: int| 0 <= i < t.view_children().len() ==> {
            &&& (#[trigger] t.view_children()[i]).min_len == t.min_len
            &&& t.view_children()[i].items.view().len() >= t.min_len
        },
{
    let s = t.items.view();
    let d = if t.deletions { spec_deletions(s.len(), s, t.min_len as nat) } else { Seq::empty() };
    let cands = spec_sequence_shrinks(s, t.deletions, t.min_len as nat);
    lemma_deletions_len(s.len(), s, t.min_len as nat);
    lemma_elems_len(s);
    assert forall|i: int| 0 <= i < t.view_children().len() implies {
        &&& (#[trigger] t.view_children()[i]).min_len == t.min_len
        &&& t.view_children()[i].items.view().len() >= t.min_len
    } by {
        List::lemma_view_of_seq(cands[i]);
        if i < d.len() {
            assert(cands[i] == d[i]);
        } else {
            assert(cands[i] == spec_elems(s)[i - d.len()]);
        }
    }
}

proof fn lemma_deletions_len<T>(k: nat, s: Seq<T>, m: nat)
    ensures
        forall|j: int| 0 <= j < spec_deletions(k, s, m).len() ==> (#[trigger] spec_deletions(k, s, m)[j]).len() >= m,
    decreases k,
{
    if k > 0 {
        lemma_deletions_len(k / 2, s, m);
        let rs = if s.len() - k >= m { spec_removes(k as int, s) } else { Seq::empty() };
        assert forall|j: int| 0 <= j < spec_deletions(k, s, m).len() implies (#[trigger] spec_deletions(k, s, m)[j]).len() >= m by {
            if j >= rs.len() {
                assert(spec_deletions(k, s, m)[j] == spec_deletions(k / 2, s, m)[j - rs.len()]);
            }
        }
    }
}

proof fn lemma_elems_len<N: Node>(s: Seq<N>)
    ensures
        forall|j: int| 0 <= j < spec_elems(s).len() ==> (#[trigger] spec_elems(s)[j]).len() == s.len(),
{
    let parts = Seq::new(s.len(), |i: int| s[i].view_children().map_values(|c: N| s.update(i, c)));
    assert forall|j: int| 0 <= j < spec_elems(s).len() implies (#[trigger] spec_elems(s)[j]).len() == s.len() by {
        lemma_concat_member(parts, j);
        let (a, b) = choose|a: int, b: int| 0 <= a < parts.len() && 0 <= b < parts[a].len() && concat(parts)[j] == parts[a][b];
        assert(parts[a][b] == s.update(a, s[a].view_children()[b]));
    }
}

} // verus!
