use vstd::prelude::*;

verus! {

/// The ordered lines that describe a counterexample.
pub struct Journal {
    pub entries: Vec<String>,
}

/// The journal with the given lines.
pub fn from_list(xs: Vec<String>) -> (j: Journal)
    ensures
        j.entries@ == xs@,
{
    Journal { entries: xs }
}

/// The journal's lines.
pub fn to_vec(j: Journal) -> (xs: Vec<String>)
    ensures
        xs@ == j.entries@,
{
    j.entries
}

/// The journal with no lines.
pub fn empty() -> (j: Journal)
    ensures
        j.entries@.len() == 0,
{
    Journal { entries: Vec::new() }
}

/// The journal with one line.
pub fn singleton(x: String) -> (j: Journal)
    ensures
        j.entries@ == seq![x],
{
    Journal { entries: vec![x] }
}

/// The lines of `a`, then those of `b`.
pub fn append(a: Journal, b: Journal) -> (j: Journal)
    ensures
        j.entries@ == a.entries@ + b.entries@,
{
    let mut xs = a.entries;
    let mut ys = b.entries;
    xs.append(&mut ys);
    Journal { entries: xs }
}

} // verus!
