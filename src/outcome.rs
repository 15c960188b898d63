use vstd::prelude::*;
use crate::tree::{app, pure_fn, Dup};

verus! {

/// The three-way result of a trial.
pub enum Outcome<A> {
    Failure,
    Discard,
    Success(A),
}

impl<A: Dup> Dup for Outcome<A> {
    fn dup(&self) -> (r: Self) {
        match self {
            Outcome::Failure => Outcome::Failure,
            Outcome::Discard => Outcome::Discard,
            Outcome::Success(x) => Outcome::Success(x.dup()),
        }
    }
}

/// `Success` when `b` holds, `Failure` otherwise.
pub fn from_bool(b: bool) -> (r: Outcome<()>)
    ensures
        b ==> r == Outcome::Success(()),
        !b ==> r == Outcome::<()>::Failure,
{
    if b {
        Outcome::Success(())
    } else {
        Outcome::Failure
    }
}

/// Applies `f` to a success; failures and discards stay.
pub fn map<A, B, F: Fn(A) -> B>(f: F, r: Outcome<A>) -> (o: Outcome<B>)
    requires
        pure_fn(f),
    ensures
        r is Failure ==> o is Failure,
        r is Discard ==> o is Discard,
        r is Success ==> o == Outcome::Success(app(f, r->Success_0)),
{
    match r {
        Outcome::Failure => Outcome::Failure,
        Outcome::Discard => Outcome::Discard,
        Outcome::Success(x) => Outcome::Success(f(x)),
    }
}

/// Turns a success that does not satisfy `f` into a discard.
pub fn filter<A, F: Fn(&A) -> bool>(f: F, r: Outcome<A>) -> (o: Outcome<A>)
    requires
        forall|a: &A| #[trigger] f.requires((a,)),
        forall|a: &A, b1: bool, b2: bool| f.ensures((a,), b1) && f.ensures((a,), b2) ==> b1 == b2,
    ensures
        r is Failure ==> o is Failure,
        r is Discard ==> o is Discard,
        r is Success ==> (f.ensures((&r->Success_0,), true) ==> o == r) && (f.ensures((&r->Success_0,), false) ==> o is Discard),
{
    match r {
        Outcome::Failure => Outcome::Failure,
        Outcome::Discard => Outcome::Discard,
        Outcome::Success(x) => {
            if f(&x) {
                Outcome::Success(x)
            } else {
                Outcome::Discard
            }
        },
    }
}

/// Whether `r` is a failure.
pub fn is_failure<A>(r: &Outcome<A>) -> (b: bool)
    ensures
        b == (r is Failure),
{
    match r {
        Outcome::Failure => true,
        _ => false,
    }
}

/// `(f(x), y)`.
pub fn first<A, B, C, F: Fn(A) -> C>(f: F, x: A, y: B) -> (r: (C, B))
    requires
        pure_fn(f),
    ensures
        r == (app(f, x), y),
{
    (f(x), y)
}

/// `(x, f(y))`.
pub fn second<A, B, C, F: Fn(B) -> C>(f: F, x: A, y: B) -> (r: (A, C))
    requires
        pure_fn(f),
    ensures
        r == (x, app(f, y)),
{
    (x, f(y))
}

} // verus!
