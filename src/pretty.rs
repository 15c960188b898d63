use vstd::prelude::*;
use vstd::string::StringExecFns;
use crate::journal::Journal;
use crate::property::{decimal, decimal_string, Report, Show, Status};
use crate::tree::Node;

verus! {

/// The lines of a journal, one after another.
pub open spec fn joined(lines: Seq<String>) -> Seq<char>
    decreases lines.len(),
{
    if lines.len() == 0 {
        Seq::empty()
    } else {
        joined(lines.drop_last()) + lines.last()@
    }
}

/// `n` followed by a noun, in the singular for one and in the plural otherwise.
pub open spec fn counted(n: int, one: Seq<char>, many: Seq<char>) -> Seq<char> {
    if n == 1 {
        seq!['1', ' '] + one
    } else {
        decimal(n) + seq![' '] + many
    }
}

pub open spec fn spec_render_tests(x: int) -> Seq<char> {
    counted(x, "test"@, "tests"@)
}

pub open spec fn spec_render_discards(x: int) -> Seq<char> {
    counted(x, "discard"@, "discards"@)
}

pub open spec fn spec_render_and(x: int, one: Seq<char>, many: Seq<char>) -> Seq<char> {
    if x == 0 {
        Seq::empty()
    } else {
        " and "@ + counted(x, one, many)
    }
}

pub open spec fn spec_render_ok(tests: int) -> Seq<char> {
    "+++ OK, passed "@ + spec_render_tests(tests) + "."@
}

pub open spec fn spec_render_gave_up(tests: int, discards: int) -> Seq<char> {
    "*** Gave up after "@ + spec_render_discards(discards) + ", passed "@ + spec_render_tests(tests) + "."@
}

pub open spec fn spec_render_failed(tests: int, discards: int, shrinks: int, lines: Seq<String>) -> Seq<char> {
    "*** Failed! Falsifiable (after "@ + spec_render_tests(tests) + " and "@ + counted(shrinks, "shrink"@, "shrinks"@)
        + " and "@ + counted(discards, "discard"@, "discards"@) + "): "@ + joined(lines)
}

/// `n` and a noun: the singular for one, the plural otherwise.
fn render_count(n: isize, one: &str, many: &str) -> (r: String)
    ensures
        r@ == counted(n as int, one@, many@),
{
    if n == 1 {
        let mut s = String::from_str("1 ");
        proof {
            reveal_strlit("1 ");
        }
        s.append(one);
        s
    } else {
        let mut s = decimal_string(n as i64);
        s.append(" ");
        proof {
            reveal_strlit(" ");
        }
        s.append(many);
        s
    }
}

/// `1 test` or `<n> tests`.
pub fn render_tests(x: isize) -> (r: String)
    ensures
        r@ == spec_render_tests(x as int),
{
    render_count(x, "test", "tests")
}

/// `1 discard` or `<n> discards`.
pub fn render_discards(x: isize) -> (r: String)
    ensures
        r@ == spec_render_discards(x as int),
{
    render_count(x, "discard", "discards")
}

fn render_and(x: isize, one: &str, many: &str) -> (r: String)
    ensures
        r@ == spec_render_and(x as int, one@, many@),
{
    if x == 0 {
        String::new()
    } else {
        let mut s = String::from_str(" and ");
        let c = render_count(x, one, many);
        s.append(c.as_str());
        s
    }
}

/// Nothing for zero, else ` and 1 discard` or ` and <n> discards`.
pub fn render_and_discards(x: isize) -> (r: String)
    ensures
        r@ == spec_render_and(x as int, "discard"@, "discards"@),
{
    render_and(x, "discard", "discards")
}

/// Nothing for zero, else ` and 1 shrink` or ` and <n> shrinks`.
pub fn render_and_shrinks(x: isize) -> (r: String)
    ensures
        r@ == spec_render_and(x as int, "shrink"@, "shrinks"@),
{
    render_and(x, "shrink", "shrinks")
}

/// `+++ OK, passed <N> test(s).`
pub fn render_ok(tests: isize) -> (r: String)
    ensures
        r@ == spec_render_ok(tests as int),
{
    let mut s = String::from_str("+++ OK, passed ");
    let t = render_tests(tests);
    s.append(t.as_str());
    s.append(".");
    s
}

/// `*** Gave up after <D> discard(s), passed <N> test(s).`
pub fn render_gave_up(tests: isize, discards: isize) -> (r: String)
    ensures
        r@ == spec_render_gave_up(tests as int, discards as int),
{
    let mut s = String::from_str("*** Gave up after ");
    let d = render_discards(discards);
    s.append(d.as_str());
    s.append(", passed ");
    let t = render_tests(tests);
    s.append(t.as_str());
    s.append(".");
    s
}

/// `*** Failed! Falsifiable (after <N> test(s) and <S> shrink(s) and <D>
/// discard(s)): ` followed by the journal's lines; zero counts are shown too.
pub fn render_failed(tests: isize, discards: isize, shrinks: isize, journal: Journal) -> (r: String)
    ensures
        r@ == spec_render_failed(tests as int, discards as int, shrinks as int, journal.entries@),
{
    let mut s = String::from_str("*** Failed! Falsifiable (after ");
    let t = render_tests(tests);
    s.append(t.as_str());
    s.append(" and ");
    let k = render_count(shrinks, "shrink", "shrinks");
    s.append(k.as_str());
    s.append(" and ");
    let d = render_count(discards, "discard", "discards");
    s.append(d.as_str());
    s.append("): ");
    let ghost head = s@;
    let mut i: usize = 0;
    while i < journal.entries.len()
        invariant
            i <= journal.entries@.len(),
            s@ == head + joined(journal.entries@.subrange(0, i as int)),
        decreases journal.entries@.len() - i,
    {
        proof {
            assert(journal.entries@.subrange(0, i + 1).drop_last() =~= journal.entries@.subrange(0, i as int));
        }
        s.append(journal.entries[i].as_str());
        i += 1;
    }
    proof {
        assert(journal.entries@.subrange(0, journal.entries@.len() as int) =~= journal.entries@);
    }
    s
}

/// The text of a report.
pub fn render(report: Report) -> (r: String)
    ensures
        report.status is Passed ==> r@ == spec_render_ok(report.tests as int),
        report.status is GaveUp ==> r@ == spec_render_gave_up(report.tests as int, report.discards as int),
        report.status is Failed ==> r@ == spec_render_failed(
            report.tests as int,
            report.discards as int,
            report.status->Failed_0 as int,
            report.status->Failed_1.entries@,
        ),
{
    match report.status {
        Status::Passed => render_ok(report.tests),
        Status::GaveUp => render_gave_up(report.tests, report.discards),
        Status::Failed(shrinks, journal) => render_failed(report.tests, report.discards, shrinks, journal),
    }
}

/// Each line with `head` in front of the first and `other` in front of the rest.
pub open spec fn spec_shift(head: Seq<char>, other: Seq<char>, lines: Seq<Seq<char>>) -> Seq<Seq<char>> {
    Seq::new(lines.len(), |i: int| (if i == 0 { head } else { other }) + lines[i])
}

/// The contents of each string.
pub open spec fn texts(v: Seq<String>) -> Seq<Seq<char>> {
    v.map_values(|s: String| s@)
}

/// The lines that draw the tree at `x`, down to `limit` levels of children.
pub open spec fn tree_lines<N: Node>(limit: int, x: N) -> Seq<Seq<char>>
    where N::Value: Show
    decreases limit, 1int, 0int,
{
    seq![" "@ + x.view_value().shown()] + forest_lines(limit, x.view_children())
}

/// The lines that draw a forest: each tree under a branch, `...` past the limit.
pub open spec fn forest_lines<N: Node>(limit: int, forest: Seq<N>) -> Seq<Seq<char>>
    where N::Value: Show
    decreases limit, 0int, forest.len(),
{
    if limit <= 0 {
        seq!["..."@]
    } else if forest.len() == 0 {
        Seq::empty()
    } else if forest.len() == 1 {
        spec_shift(" └╼"@, "   "@, tree_lines(limit - 1, forest[0]))
    } else {
        spec_shift(" ├╼"@, " │ "@, tree_lines(limit - 1, forest[0])) + forest_lines(limit, forest.drop_first())
    }
}

/// Puts `head` in front of the first line and `other` in front of the rest.
pub fn shift(head: &str, other: &str, lines: Vec<String>) -> (r: Vec<String>)
    ensures
        texts(r@) == spec_shift(head@, other@, texts(lines@)),
{
    let mut out: Vec<String> = Vec::new();
    let mut i: usize = 0;
    while i < lines.len()
        invariant
            i <= lines@.len(),
            texts(out@) == spec_shift(head@, other@, texts(lines@)).subrange(0, i as int),
            out@.len() == i,
        decreases lines@.len() - i,
    {
        let mut s = if i == 0 { String::from_str(head) } else { String::from_str(other) };
        s.append(lines[i].as_str());
        proof {
            assert(texts(lines@)[i as int] == lines@[i as int]@);
            assert(texts(out@.push(s))[i as int] == s@);
            assert(texts(out@.push(s)) =~= spec_shift(head@, other@, texts(lines@)).subrange(0, i + 1));
        }
        out.push(s);
        i += 1;
    }
    proof {
        assert(spec_shift(head@, other@, texts(lines@)).subrange(0, lines@.len() as int) =~= spec_shift(head@, other@, texts(lines@)));
    }
    out
}

proof fn lemma_texts_add(a: Seq<String>, b: Seq<String>)
    ensures
        texts(a + b) == texts(a) + texts(b),
{
    assert(texts(a + b) =~= texts(a) + texts(b));
}

/// The lines that draw the trees of `forest` from position `start` on.
fn forest_lines_from<N: Node>(limit: i16, forest: &Vec<N>, start: usize) -> (r: Vec<String>)
    where N::Value: Show
    requires
        start <= forest@.len(),
        forall|i: int| 0 <= i < forest@.len() ==> #[trigger] forest@[i].wf(),
    ensures
        texts(r@) == forest_lines(limit as int, forest@.subrange(start as int, forest@.len() as int)),
    decreases limit, 0int, forest@.len() - start,
{
    let ghost rest = forest@.subrange(start as int, forest@.len() as int);
    if limit <= 0 {
        proof {
            reveal_strlit("...");
        }
        let v = vec![String::from_str("...")];
        proof {
            assert(texts(v@) =~= seq!["..."@]);
        }
        return v;
    }
    if start == forest.len() {
        let v: Vec<String> = Vec::new();
        proof {
            assert(texts(v@) =~= Seq::<Seq<char>>::empty());
        }
        return v;
    }
    assert(rest[0] == forest@[start as int]);
    let first = render_tree_lines(limit - 1, &forest[start]);
    if start + 1 == forest.len() {
        return shift(" └╼", "   ", first);
    }
    let mut s = shift(" ├╼", " │ ", first);
    let mut more = forest_lines_from(limit, forest, start + 1);
    proof {
        assert(rest.drop_first() =~= forest@.subrange(start + 1, forest@.len() as int));
        lemma_texts_add(s@, more@);
    }
    s.append(&mut more);
    s
}

/// The lines that draw a forest: each tree under a branch, `...` past the limit.
pub fn render_forest_lines<N: Node>(limit: i16, forest: &Vec<N>) -> (r: Vec<String>)
    where N::Value: Show
    requires
        forall|i: int| 0 <= i < forest@.len() ==> #[trigger] forest@[i].wf(),
    ensures
        texts(r@) == forest_lines(limit as int, forest@),
    decreases limit, 0int, forest@.len() + 1,
{
    proof {
        assert(forest@.subrange(0, forest@.len() as int) =~= forest@);
    }
    forest_lines_from(limit, forest, 0)
}

/// The lines that draw the tree at `x`: its value, then its children below,
/// down to `limit` levels.
pub fn render_tree_lines<N: Node>(limit: i16, x: &N) -> (r: Vec<String>)
    where N::Value: Show
    requires
        x.wf(),
    ensures
        texts(r@) == tree_lines(limit as int, *x),
    decreases limit, 1int, 0int,
{
    let cs = x.children();
    proof {
        x.lemma_children_wf();
    }
    let mut children = render_forest_lines(limit, &cs);
    let mut node = String::from_str(" ");
    let v = x.value();
    let shown = v.show();
    node.append(shown.as_str());
    let mut out = vec![node];
    proof {
        lemma_texts_add(out@, children@);
        assert(texts(out@) =~= seq![" "@ + x.view_value().shown()]);
    }
    out.append(&mut children);
    out
}

} // verus!
