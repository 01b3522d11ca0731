use vstd::prelude::*;
use crate::task::state::State;

verus! {

/// A closure gives at most one result for each argument.
pub open spec fn single_valued<A: core::marker::Tuple, R, F: FnOnce<A, Output = R>>(f: F) -> bool {
    forall|a: A, x: R, y: R| call_ensures(f, a, x) && call_ensures(f, a, y) ==> x == y
}

/// The result that a single-valued closure gives for `a`.
pub open spec fn value_of<A: core::marker::Tuple, R, F: FnOnce<A, Output = R>>(f: F, a: A) -> R {
    choose|r: R| call_ensures(f, a, r)
}

/// The closure has a result for `a`. Nothing shows this before a call has
/// returned, so it stands wherever a contract speaks of a call that has
/// been made.
pub open spec fn answers<A: core::marker::Tuple, R, F: FnOnce<A, Output = R>>(f: F, a: A) -> bool {
    exists|r: R| call_ensures(f, a, r)
}

/// Something that can be stepped again and again, each step giving a
/// `State`.
///
/// A stepper is described by the stream of results that its coming steps
/// give: `outcome(0)` is what the next step returns, `outcome(1)` what the
/// one after it returns, and so on. `attested(k)` says that the closures
/// behind step `k` vouch for `outcome(k)`; it is known of a step once that
/// step has been taken.
pub trait Step<T, E>: Send + Sync {
    /// What has to hold for a step to be taken.
    spec fn inv(&self) -> bool;

    /// The result of the step that comes after `k` others.
    spec fn outcome(&self, k: nat) -> State<T, E>;

    /// The closures behind the step that comes after `k` others have a
    /// result.
    spec fn attested(&self, k: nat) -> bool;

    /// The step that comes after `k` others hands a payload to the callback
    /// that the stepper was built with. A stepper without one hands nothing
    /// on.
    spec fn fed(&self, k: nat) -> bool;

    /// How often the stepper has called its callback so far.
    spec fn calls(&self) -> nat;

    /// Takes one step.
    fn step(&mut self) -> (s: State<T, E>)
        requires
            old(self).inv(),
        ensures
            s == old(self).outcome(0),
            old(self).attested(0),
            final(self).inv(),
            forall|k: nat| #[trigger] final(self).outcome(k) == old(self).outcome(k + 1),
            forall|k: nat| #[trigger] final(self).attested(k) == old(self).attested(k + 1),
            forall|k: nat| #[trigger] final(self).fed(k) == old(self).fed(k + 1),
            final(self).calls() == old(self).calls() + if old(self).fed(0) {
                1nat
            } else {
                0nat
            },
    ;
}

/// A closure that returns a `State` is a stepper that gives the same result
/// at every step.
impl<T, E, F: FnMut() -> State<T, E> + Send + Sync> Step<T, E> for F {
    open spec fn inv(&self) -> bool {
        call_requires(*self, ()) && single_valued::<(), State<T, E>, F>(*self)
    }

    open spec fn outcome(&self, k: nat) -> State<T, E> {
        value_of::<(), State<T, E>, F>(*self, ())
    }

    open spec fn attested(&self, k: nat) -> bool {
        answers::<(), State<T, E>, F>(*self, ())
    }

    open spec fn fed(&self, k: nat) -> bool {
        false
    }

    open spec fn calls(&self) -> nat {
        0
    }

    fn step(&mut self) -> (s: State<T, E>) {
        let s = self();
        s
    }
}

/// What follows a payload, as a mathematical function: which payloads it
/// accepts, what it makes of each, and whether the closure behind it has a
/// result for it.
#[verifier::reject_recursive_types(A)]
pub struct Link<A, R> {
    /// The payloads that may be handed over.
    pub pre: spec_fn(A) -> bool,
    /// The result for a payload.
    pub out: spec_fn(A) -> R,
    /// The closure behind has a result for the payload.
    pub sure: spec_fn(A) -> bool,
}

/// A closure as a link: it accepts what it may be called with, provided
/// that it gives at most one result for each argument.
pub open spec fn call_link<A, R, F: FnOnce<(A,), Output = R>>(f: F) -> Link<A, R> {
    Link {
        pre: |a: A| call_requires(f, (a,)) && single_valued::<(A,), R, F>(f),
        out: |a: A| value_of::<(A,), R, F>(f, (a,)),
        sure: |a: A| answers::<(A,), R, F>(f, (a,)),
    }
}

/// A closure on values as a link that resolves to its result.
pub open spec fn lift_link<A, U, E, F: FnOnce<(A,), Output = U>>(f: F) -> Link<A, State<U, E>> {
    Link {
        pre: |a: A| call_requires(f, (a,)) && single_valued::<(A,), U, F>(f),
        out: |a: A| State::Resolve(value_of::<(A,), U, F>(f, (a,))),
        sure: |a: A| answers::<(A,), U, F>(f, (a,)),
    }
}

/// A closure on errors as a link that rejects with its result.
pub open spec fn relay_link<A, T, O, F: FnOnce<(A,), Output = O>>(f: F) -> Link<A, State<T, O>> {
    Link {
        pre: |a: A| call_requires(f, (a,)) && single_valued::<(A,), O, F>(f),
        out: |a: A| State::Reject(value_of::<(A,), O, F>(f, (a,))),
        sure: |a: A| answers::<(A,), O, F>(f, (a,)),
    }
}

/// What follows a payload: something that can be called with the payload
/// and behaves as its link says.
pub trait Cont<A, R>: Send + Sync {
    /// The function that a call computes.
    spec fn link(&self) -> Link<A, R>;

    /// Computes the result for `a`.
    fn call(&mut self, a: A) -> (r: R)
        requires
            (old(self).link().pre)(a),
        ensures
            r == (old(self).link().out)(a),
            (old(self).link().sure)(a),
            final(self).link() == old(self).link(),
    ;
}

impl<A, R, F: FnMut(A) -> R + Send + Sync> Cont<A, R> for F {
    open spec fn link(&self) -> Link<A, R> {
        call_link::<A, R, F>(*self)
    }

    fn call(&mut self, a: A) -> (r: R) {
        let r = self(a);
        r
    }
}

/// Turns a function on values into one that resolves to its result.
pub struct Lift<F> {
    pub f: F,
}

impl<A, U, E, F: FnMut(A) -> U + Send + Sync> Cont<A, State<U, E>> for Lift<F> {
    open spec fn link(&self) -> Link<A, State<U, E>> {
        lift_link::<A, U, E, F>(self.f)
    }

    fn call(&mut self, a: A) -> (r: State<U, E>) {
        let u = (self.f)(a);
        State::Resolve(u)
    }
}

/// Turns a function on errors into one that rejects with its result.
pub struct Relay<F> {
    pub f: F,
}

impl<A, T, O, F: FnMut(A) -> O + Send + Sync> Cont<A, State<T, O>> for Relay<F> {
    open spec fn link(&self) -> Link<A, State<T, O>> {
        relay_link::<A, T, O, F>(self.f)
    }

    fn call(&mut self, a: A) -> (r: State<T, O>) {
        let o = (self.f)(a);
        State::Reject(o)
    }
}

/// A callback that is shown a payload when a task settles.
pub trait Hook<V>: Send + Sync {
    /// The payloads that may be shown.
    spec fn pre(&self, v: V) -> bool;

    /// The callback has come back from being shown `v`: what it promises
    /// of such a call holds. Nothing shows this before a call has returned.
    spec fn heard(&self, v: V) -> bool;

    /// Shows `v` to the callback.
    fn call(&mut self, v: &V)
        requires
            old(self).pre(*v),
        ensures
            old(self).heard(*v),
            forall|x: V| #[trigger] final(self).pre(x) == old(self).pre(x),
            forall|x: V| #[trigger] final(self).heard(x) == old(self).heard(x),
    ;
}

impl<V, F: FnMut(&V) + Send + Sync> Hook<V> for F {
    open spec fn pre(&self, v: V) -> bool {
        call_requires(*self, (&v,))
    }

    open spec fn heard(&self, v: V) -> bool {
        call_ensures(*self, (&v,), ())
    }

    fn call(&mut self, v: &V) {
        self(v);
    }
}

/// A callback together with the record of the payloads that it has been
/// shown. The record is moved on by `call` and by nothing else.
#[verifier::reject_recursive_types(V)]
pub struct Watch<'a, V> {
    hook: Box<dyn Hook<V> + 'a>,
    log: Ghost<Seq<V>>,
}

impl<'a, V> Watch<'a, V> {
    /// The payloads that the callback has been shown, in order.
    pub closed spec fn shown(&self) -> Seq<V> {
        self.log@
    }

    /// The payloads that may be shown.
    pub closed spec fn pre(&self, v: V) -> bool {
        self.hook.pre(v)
    }

    /// The callback has come back from being shown `v`.
    pub closed spec fn heard(&self, v: V) -> bool {
        self.hook.heard(v)
    }

    /// The callback `f`, shown nothing so far. Nothing is called.
    pub fn new<F>(f: F) -> (r: Self) where F: FnMut(&V) + Send + Sync + 'a
        ensures
            r.shown() == Seq::<V>::empty(),
            forall|v: V| #[trigger] r.pre(v) == call_requires(f, (&v,)),
            forall|v: V| #[trigger] r.heard(v) == call_ensures(f, (&v,), ()),
    {
        Watch { hook: Box::new(f), log: Ghost(Seq::empty()) }
    }

    /// Shows `v` to the callback, once, and puts it on the record.
    pub fn call(&mut self, v: &V)
        requires
            old(self).pre(*v),
        ensures
            final(self).shown() == old(self).shown().push(*v),
            old(self).heard(*v),
            forall|x: V| #[trigger] final(self).pre(x) == old(self).pre(x),
            forall|x: V| #[trigger] final(self).heard(x) == old(self).heard(x),
    {
        self.hook.call(v);
        proof {
            self.log@ = self.log@.push(*v);
        }
    }
}

/// A continuation or handler together with the record of the payloads that
/// it has been handed. The record is moved on by `call` and by nothing
/// else.
pub struct Counted<K, A> {
    cont: K,
    log: Ghost<Seq<A>>,
}

impl<K, A> Counted<K, A> {
    /// The payloads that have been handed over, in order.
    pub closed spec fn handed(&self) -> Seq<A> {
        self.log@
    }

    /// The function that a call computes.
    pub closed spec fn link<R>(&self) -> Link<A, R> where K: Cont<A, R> {
        self.cont.link()
    }

    /// `cont`, handed nothing so far. Nothing is called.
    pub fn new<R>(cont: K) -> (r: Self) where K: Cont<A, R>
        ensures
            r.handed() == Seq::<A>::empty(),
            r.link::<R>() == cont.link(),
    {
        Counted { cont, log: Ghost(Seq::empty()) }
    }

    /// Hands `a` over, once, and puts it on the record.
    pub fn call<R>(&mut self, a: A) -> (r: R) where K: Cont<A, R>
        requires
            (old(self).link::<R>().pre)(a),
        ensures
            r == (old(self).link::<R>().out)(a),
            (old(self).link::<R>().sure)(a),
            final(self).link::<R>() == old(self).link::<R>(),
            final(self).handed() == old(self).handed().push(a),
    {
        proof {
            self.log@ = self.log@.push(a);
        }
        self.cont.call(a)
    }
}

} // verus!
