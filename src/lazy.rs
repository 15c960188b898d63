use vstd::prelude::*;

verus! {

/// A deferred computation of one value.
pub trait Thunk {
    type Output;

    /// The value that the computation yields.
    spec fn result(&self) -> Self::Output;

    spec fn wf(&self) -> bool;

    fn eval(&self) -> (r: Self::Output)
        requires
            self.wf(),
        ensures
            r == self.result(),
    ;
}

/// A value that is already there.
pub struct Ready<A> {
    pub value: A,
}

impl<A: Copy> Thunk for Ready<A> {
    type Output = A;

    open spec fn result(&self) -> A {
        self.value
    }

    open spec fn wf(&self) -> bool {
        true
    }

    fn eval(&self) -> (r: A) {
        self.value
    }
}

/// What a deterministic computation without arguments returns.
pub open spec fn app0<A, F: Fn() -> A>(f: F) -> A {
    choose|a: A| call_ensures(f, (), a)
}

/// A closure, called when the value is needed.
pub struct Delayed<F> {
    pub closure: F,
}

impl<A, F: Fn() -> A> Thunk for Delayed<F> {
    type Output = A;

    open spec fn result(&self) -> A {
        app0(self.closure)
    }

    open spec fn wf(&self) -> bool {
        &&& call_requires(self.closure, ())
        &&& forall|a: A| #[trigger] call_ensures(self.closure, (), a) ==> a == app0(self.closure)
    }

    fn eval(&self) -> (r: A) {
        (self.closure)()
    }
}

/// A function applied to the value of another lazy computation.
pub struct Mapped<T: Thunk, F> {
    pub source: Lazy<T>,
    pub f: F,
}

impl<T: Thunk, B, F: Fn(T::Output) -> B> Thunk for Mapped<T, F> where T::Output: Copy {
    type Output = B;

    open spec fn result(&self) -> B {
        crate::tree::app(self.f, self.source.view())
    }

    open spec fn wf(&self) -> bool {
        self.source.wf() && crate::tree::pure_fn(self.f)
    }

    fn eval(&self) -> (r: B) {
        (self.f)(self.source.value())
    }
}

/// A lazily computed value: computed when first forced, and cached from then on.
pub struct Lazy<T: Thunk> {
    /// The cached value, once forced.
    pub value: Option<T::Output>,
    pub thunk: T,
}

impl<T: Thunk> Lazy<T> {
    /// The value that the lazy computation stands for.
    pub open spec fn view(&self) -> T::Output {
        match self.value {
            Some(v) => v,
            None => self.thunk.result(),
        }
    }

    /// A cached value, if any, is the computation's value.
    pub open spec fn wf(&self) -> bool {
        &&& self.thunk.wf()
        &&& self.value matches Some(v) ==> v == self.thunk.result()
    }
}

impl<A: Copy> Lazy<Ready<A>> {
    /// A lazy value that is already known.
    pub fn new(value: A) -> (l: Lazy<Ready<A>>)
        ensures
            l.wf(),
            l.view() == value,
            l.value is None,
    {
        Lazy { value: None, thunk: Ready { value } }
    }
}

impl<A, F: Fn() -> A> Lazy<Delayed<F>> {
    /// A lazy value that `closure` computes when it is first needed.
    pub fn from_closure(closure: F) -> (l: Lazy<Delayed<F>>)
        ensures
            l.value is None,
            l.thunk.closure == closure,
    {
        Lazy { value: None, thunk: Delayed { closure } }
    }
}

impl<T: Thunk> Lazy<T> where T::Output: Copy {
    /// Computes the value and caches it, unless it is cached already.
    pub fn force(&mut self)
        requires
            old(self).wf(),
        ensures
            final(self).wf(),
            final(self).view() == old(self).view(),
            final(self).value == Some(old(self).view()),
            final(self).thunk == old(self).thunk,
    {
        if self.value.is_none() {
            let v = self.thunk.eval();
            self.value = Some(v);
        }
    }

    /// The value: the cached one, or else computed now (without caching it:
    /// `force` is what caches).
    pub fn value(&self) -> (r: T::Output)
        requires
            self.wf(),
        ensures
            r == self.view(),
    {
        match self.value {
            Some(v) => v,
            None => self.thunk.eval(),
        }
    }

    /// The lazy value of `f` applied to this one's value.
    pub fn map<B, F: Fn(T::Output) -> B>(self, f: F) -> (l: Lazy<Mapped<T, F>>)
        ensures
            l.value is None,
            l.thunk.source == self,
            l.thunk.f == f,
    {
        Lazy { value: None, thunk: Mapped { source: self, f } }
    }
}

} // verus!
