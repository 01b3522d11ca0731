use vstd::prelude::*;
use crate::task::state::State;
use crate::task::step::{
    call_link, lift_link, relay_link, Cont, Counted, Lift, Link, Relay, Step,
};
use crate::task::task::Task;
use crate::task::view::TaskView;

verus! {

/// What a continuation makes of a state: it is applied to the value of a
/// `Resolve`, and every other state passes through.
pub open spec fn bind<T, U, E>(s: State<T, E>, out: spec_fn(T) -> State<U, E>) -> State<U, E> {
    match s {
        State::Pending => State::Pending,
        State::Resolve(v) => out(v),
        State::Resolved => State::Resolved,
        State::Reject(e) => State::Reject(e),
        State::Rejected => State::Rejected,
    }
}

/// What a handler makes of a state: it is applied to the error of a
/// `Reject`, and every other state passes through.
pub open spec fn mend<T, E, O>(s: State<T, E>, out: spec_fn(E) -> State<T, O>) -> State<T, O> {
    match s {
        State::Pending => State::Pending,
        State::Resolve(v) => State::Resolve(v),
        State::Resolved => State::Resolved,
        State::Reject(e) => out(e),
        State::Rejected => State::Rejected,
    }
}

/// Step `j` of a task that continues `a` with `k` is attested: the step of
/// the input is, and the continuation has a result if it is called.
pub open spec fn then_attested<T, U, E>(a: TaskView<T, E>, k: Link<T, State<U, E>>, j: nat) -> bool {
    let b = a.after(j);
    b.next_attested() && (b.next().state is Resolve ==> (k.sure)(b.next().state->Resolve_0))
}

/// The continuation accepts every value that an attested step of the input
/// hands it.
pub open spec fn then_ready<T, U, E>(a: TaskView<T, E>, k: Link<T, State<U, E>>) -> bool {
    forall|j: nat|
        (#[trigger] a.after(j)).next_attested() && a.after(j).next().state is Resolve ==> (k.pre)(
            a.after(j).next().state->Resolve_0,
        )
}

/// The task that continues `a` with `k`. It is pending and has no hooks;
/// its step `j` steps the input once, after `j` such steps before it, and
/// hands on what the input then shows.
pub open spec fn then_view<T, U, E>(a: TaskView<T, E>, k: Link<T, State<U, E>>) -> TaskView<U, E> {
    TaskView::fresh(
        |j: nat| bind(a.after(j).next().state, k.out),
        |j: nat| then_attested(a, k, j),
    )
}

/// Step `j` of a task that recovers `a` with `k` is attested.
pub open spec fn recover_attested<T, E, O>(
    a: TaskView<T, E>,
    k: Link<E, State<T, O>>,
    j: nat,
) -> bool {
    let b = a.after(j);
    b.next_attested() && (b.next().state is Reject ==> (k.sure)(b.next().state->Reject_0))
}

/// The handler accepts every error that an attested step of the input
/// hands it.
pub open spec fn recover_ready<T, E, O>(a: TaskView<T, E>, k: Link<E, State<T, O>>) -> bool {
    forall|j: nat|
        (#[trigger] a.after(j)).next_attested() && a.after(j).next().state is Reject ==> (k.pre)(
            a.after(j).next().state->Reject_0,
        )
}

/// Step `j` of a task that continues `a` hands a value to the
/// continuation: the input, stepped once after `j` such steps, shows a
/// value.
pub open spec fn then_fed<T, E>(a: TaskView<T, E>, j: nat) -> bool {
    a.after(j).next().state is Resolve
}

/// Step `j` of a task that recovers `a` hands an error to the handler: the
/// input, stepped once after `j` such steps, shows an error.
pub open spec fn recover_fed<T, E>(a: TaskView<T, E>, j: nat) -> bool {
    a.after(j).next().state is Reject
}

/// The task that recovers `a` with `k`.
pub open spec fn recover_view<T, E, O>(a: TaskView<T, E>, k: Link<E, State<T, O>>) -> TaskView<
    T,
    O,
> {
    TaskView::fresh(
        |j: nat| mend(a.after(j).next().state, k.out),
        |j: nat| recover_attested(a, k, j),
    )
}

/// A continuation that accepts every value that the input may resolve to
/// can follow it.
pub proof fn lemma_then_ready<T, U, E>(a: TaskView<T, E>, k: Link<T, State<U, E>>)
    requires
        forall|v: T| a.may_resolve(v) ==> (k.pre)(v),
    ensures
        then_ready(a, k),
{
    assert forall|j: nat|
        (#[trigger] a.after(j)).next_attested() && a.after(j).next().state is Resolve implies (
    k.pre)(a.after(j).next().state->Resolve_0) by {
        a.lemma_after_payload(j);
    }
}

/// A handler that accepts every error that the input may reject with can
/// follow it.
pub proof fn lemma_recover_ready<T, E, O>(a: TaskView<T, E>, k: Link<E, State<T, O>>)
    requires
        forall|e: E| a.may_reject(e) ==> (k.pre)(e),
    ensures
        recover_ready(a, k),
{
    assert forall|j: nat|
        (#[trigger] a.after(j)).next_attested() && a.after(j).next().state is Reject implies (
    k.pre)(a.after(j).next().state->Reject_0) by {
        a.lemma_after_payload(j);
    }
}

/// A task that continues one that settles has its first result no sooner
/// than the input lands, and it settles as well: with what the
/// continuation makes of the landing or, where that is `Pending`, one step
/// later.
pub proof fn lemma_then_settles<T, U, E>(a: TaskView<T, E>, k: Link<T, State<U, E>>)
    requires
        a.settles(),
    ensures
        then_view(a, k).settles(),
        then_view(a, k).quiet(a.lead()),
        (then_view(a, k).stream)(a.lead()) == bind(a.landing(), k.out),
        then_view(a, k).lead() >= a.lead(),
        !(bind(a.landing(), k.out) is Pending) ==> then_view(a, k).lead() == a.lead()
            && then_view(a, k).landing() == bind(a.landing(), k.out),
{
    let m = then_view(a, k);
    let n = a.lead();
    a.lemma_lead();
    a.lemma_after_landing();
    assert((m.stream)(n + 1) == bind(a.landing().emptied(), k.out));
    m.lemma_lands_somewhere(n + 1);
    let i = m.settle_index();
    if i < n {
        assert(a.after(i).next().state is Pending);
    }
    if !(bind(a.landing(), k.out) is Pending) {
        assert(m.lands_at(n));
        m.lemma_lands_unique(n, i);
    }
}

/// A task that recovers one that settles has its first result no sooner
/// than the input lands, and it settles as well.
pub proof fn lemma_recover_settles<T, E, O>(a: TaskView<T, E>, k: Link<E, State<T, O>>)
    requires
        a.settles(),
    ensures
        recover_view(a, k).settles(),
        recover_view(a, k).quiet(a.lead()),
        (recover_view(a, k).stream)(a.lead()) == mend(a.landing(), k.out),
        recover_view(a, k).lead() >= a.lead(),
        !(mend(a.landing(), k.out) is Pending) ==> recover_view(a, k).lead() == a.lead()
            && recover_view(a, k).landing() == mend(a.landing(), k.out),
{
    let m = recover_view(a, k);
    let n = a.lead();
    a.lemma_lead();
    a.lemma_after_landing();
    assert((m.stream)(n + 1) == mend(a.landing().emptied(), k.out));
    m.lemma_lands_somewhere(n + 1);
    let i = m.settle_index();
    if i < n {
        assert(a.after(i).next().state is Pending);
    }
    if !(mend(a.landing(), k.out) is Pending) {
        assert(m.lands_at(n));
        m.lemma_lands_unique(n, i);
    }
}

/// A task that continues a bounded one is bounded.
pub proof fn lemma_then_bounded<T, U, E>(a: TaskView<T, E>, k: Link<T, State<U, E>>)
    requires
        a.bounded(),
    ensures
        then_view(a, k).bounded(),
{
    let m = then_view(a, k);
    if a.settles() {
        lemma_then_settles(a, k);
        m.lemma_settles_bounded();
    } else {
        let n = choose|n: nat| #[trigger] a.stops(n);
        assert((a.stream)(n) is Pending);
        assert(a.quiet(n)) by {
            assert forall|i: nat| i < n implies #[trigger] (a.stream)(i) is Pending by {}
        }
        a.lemma_quiet_steps(n);
        assert((a.skipped(n).attested)(0) == (a.attested)(n));
        assert(!(m.attested)(n));
        assert(m.stops(n));
    }
}

/// A task that continues another one settles only where that one does.
pub proof fn lemma_then_reflects<T, U, E>(a: TaskView<T, E>, k: Link<T, State<U, E>>)
    requires
        then_view(a, k).settles(),
    ensures
        a.settles(),
{
    let m = then_view(a, k);
    let n = choose|n: nat| !(#[trigger] (m.stream)(n) is Pending);
    if !a.settles() {
        assert(a.quiet(n)) by {
            assert forall|i: nat| i < n implies #[trigger] (a.stream)(i) is Pending by {}
        }
        a.lemma_quiet_steps(n);
        assert((a.skipped(n).stream)(0) == (a.stream)(n));
        assert((a.stream)(n) is Pending);
    }
}

/// A task that recovers a bounded one is bounded.
pub proof fn lemma_recover_bounded<T, E, O>(a: TaskView<T, E>, k: Link<E, State<T, O>>)
    requires
        a.bounded(),
    ensures
        recover_view(a, k).bounded(),
{
    let m = recover_view(a, k);
    if a.settles() {
        lemma_recover_settles(a, k);
        m.lemma_settles_bounded();
    } else {
        let n = choose|n: nat| #[trigger] a.stops(n);
        assert((a.stream)(n) is Pending);
        assert(a.quiet(n)) by {
            assert forall|i: nat| i < n implies #[trigger] (a.stream)(i) is Pending by {}
        }
        a.lemma_quiet_steps(n);
        assert((a.skipped(n).attested)(0) == (a.attested)(n));
        assert(!(m.attested)(n));
        assert(m.stops(n));
    }
}

/// A task that recovers another one settles only where that one does.
pub proof fn lemma_recover_reflects<T, E, O>(a: TaskView<T, E>, k: Link<E, State<T, O>>)
    requires
        recover_view(a, k).settles(),
    ensures
        a.settles(),
{
    let m = recover_view(a, k);
    let n = choose|n: nat| !(#[trigger] (m.stream)(n) is Pending);
    if !a.settles() {
        assert(a.quiet(n)) by {
            assert forall|i: nat| i < n implies #[trigger] (a.stream)(i) is Pending by {}
        }
        a.lemma_quiet_steps(n);
        assert((a.skipped(n).stream)(0) == (a.stream)(n));
        assert((a.stream)(n) is Pending);
    }
}

/// What is known of the input once a task that continues it has settled
/// with every step attested: the input has settled, every step up to its
/// landing is attested, the continuation has a result for the value that
/// the input lands on, and what it makes of the landing, unless that is
/// `Pending`, is where the new task lands.
pub proof fn lemma_then_vouched<T, U, E>(a: TaskView<T, E>, k: Link<T, State<U, E>>)
    requires
        then_view(a, k).settles(),
        then_view(a, k).landing_attested(),
    ensures
        a.settles(),
        a.landing_attested(),
        a.landing() matches State::Resolve(v) ==> (k.sure)(v),
        !(bind(a.landing(), k.out) is Pending) ==> then_view(a, k).landing() == bind(
            a.landing(),
            k.out,
        ),
{
    let m = then_view(a, k);
    lemma_then_reflects(a, k);
    let n = a.lead();
    lemma_then_settles(a, k);
    a.lemma_lead();
    assert((m.attested)(n));
    if !a.done() {
        assert forall|j: nat| j <= a.settle_index() implies #[trigger] (a.attested)(j) by {
            assert((m.attested)(j));
            assert(a.quiet(j)) by {
                assert forall|i: nat| i < j implies #[trigger] (a.stream)(i) is Pending by {}
            }
            a.lemma_quiet_steps(j);
            assert((a.skipped(j).attested)(0) == (a.attested)(j));
        }
    }
}

/// What is known of the input once a task that recovers it has settled
/// with every step attested: the input has settled, every step up to its
/// landing is attested, the handler has a result for the error that the
/// input lands on, and what it makes of the landing, unless that is
/// `Pending`, is where the new task lands.
pub proof fn lemma_recover_vouched<T, E, O>(a: TaskView<T, E>, k: Link<E, State<T, O>>)
    requires
        recover_view(a, k).settles(),
        recover_view(a, k).landing_attested(),
    ensures
        a.settles(),
        a.landing_attested(),
        a.landing() matches State::Reject(e) ==> (k.sure)(e),
        !(mend(a.landing(), k.out) is Pending) ==> recover_view(a, k).landing() == mend(
            a.landing(),
            k.out,
        ),
{
    let m = recover_view(a, k);
    lemma_recover_reflects(a, k);
    let n = a.lead();
    lemma_recover_settles(a, k);
    a.lemma_lead();
    assert((m.attested)(n));
    if !a.done() {
        assert forall|j: nat| j <= a.settle_index() implies #[trigger] (a.attested)(j) by {
            assert((m.attested)(j));
            assert(a.quiet(j)) by {
                assert forall|i: nat| i < j implies #[trigger] (a.stream)(i) is Pending by {}
            }
            a.lemma_quiet_steps(j);
            assert((a.skipped(j).attested)(0) == (a.attested)(j));
        }
    }
}

/// The stepper of a task that continues another one.
#[verifier::reject_recursive_types(T)]
#[verifier::reject_recursive_types(E)]
pub struct Then<'a, T, E, K> {
    pub(crate) input: Task<'a, T, E>,
    pub(crate) cont: Counted<K, T>,
}

impl<'a, T: Send + Sync, U, E: Send + Sync, K: Cont<T, State<U, E>>> Step<U, E> for Then<
    'a,
    T,
    E,
    K,
> {
    closed spec fn inv(&self) -> bool {
        self.input.wf() && then_ready(self.input@, self.cont.link::<State<U, E>>())
    }

    closed spec fn outcome(&self, j: nat) -> State<U, E> {
        (then_view(self.input@, self.cont.link::<State<U, E>>()).stream)(j)
    }

    closed spec fn attested(&self, j: nat) -> bool {
        (then_view(self.input@, self.cont.link::<State<U, E>>()).attested)(j)
    }

    closed spec fn fed(&self, j: nat) -> bool {
        then_fed(self.input@, j)
    }

    closed spec fn calls(&self) -> nat {
        self.cont.handed().len()
    }

    fn step(&mut self) -> (s: State<U, E>) {
        let ghost a = self.input@;
        proof {
            assert(a.after(0) == a);
        }
        let got = self.input.pull();
        proof {
            assert forall|j: nat| #[trigger] self.input@.after(j) == a.after(j + 1) by {
                assert(a.after(j + 1) == a.pulled().after(j));
            }
        }
        let s = match got {
            State::Pending => State::Pending,
            State::Resolve(v) => self.cont.call(v),
            State::Resolved => State::Resolved,
            State::Reject(e) => State::Reject(e),
            State::Rejected => State::Rejected,
        };
        proof {
            assert forall|j: nat| #[trigger]
                self.outcome(j) == old(self).outcome(j + 1) by {
                assert(self.input@.after(j) == a.after(j + 1));
            }
            assert forall|j: nat| #[trigger]
                self.attested(j) == old(self).attested(j + 1) by {
                assert(self.input@.after(j) == a.after(j + 1));
            }
            assert forall|j: nat| #[trigger] self.fed(j) == old(self).fed(j + 1) by {
                assert(self.input@.after(j) == a.after(j + 1));
            }
            assert forall|j: nat|
                (#[trigger] self.input@.after(j)).next_attested() && self.input@.after(
                    j,
                ).next().state is Resolve implies (self.cont.link::<State<U, E>>().pre)(
                self.input@.after(j).next().state->Resolve_0,
            ) by {
                assert(self.input@.after(j) == a.after(j + 1));
            }
        }
        s
    }
}

/// The stepper of a task that handles the failure of another one.
#[verifier::reject_recursive_types(T)]
#[verifier::reject_recursive_types(E)]
pub struct Recover<'a, T, E, K> {
    pub(crate) input: Task<'a, T, E>,
    pub(crate) cont: Counted<K, E>,
}

impl<'a, T: Send + Sync, E: Send + Sync, O, K: Cont<E, State<T, O>>> Step<T, O> for Recover<
    'a,
    T,
    E,
    K,
> {
    closed spec fn inv(&self) -> bool {
        self.input.wf() && recover_ready(self.input@, self.cont.link::<State<T, O>>())
    }

    closed spec fn outcome(&self, j: nat) -> State<T, O> {
        (recover_view(self.input@, self.cont.link::<State<T, O>>()).stream)(j)
    }

    closed spec fn attested(&self, j: nat) -> bool {
        (recover_view(self.input@, self.cont.link::<State<T, O>>()).attested)(j)
    }

    closed spec fn fed(&self, j: nat) -> bool {
        recover_fed(self.input@, j)
    }

    closed spec fn calls(&self) -> nat {
        self.cont.handed().len()
    }

    fn step(&mut self) -> (s: State<T, O>) {
        let ghost a = self.input@;
        proof {
            assert(a.after(0) == a);
        }
        let got = self.input.pull();
        proof {
            assert forall|j: nat| #[trigger] self.input@.after(j) == a.after(j + 1) by {
                assert(a.after(j + 1) == a.pulled().after(j));
            }
        }
        let s = match got {
            State::Pending => State::Pending,
            State::Resolve(v) => State::Resolve(v),
            State::Resolved => State::Resolved,
            State::Reject(e) => self.cont.call(e),
            State::Rejected => State::Rejected,
        };
        proof {
            assert forall|j: nat| #[trigger]
                self.outcome(j) == old(self).outcome(j + 1) by {
                assert(self.input@.after(j) == a.after(j + 1));
            }
            assert forall|j: nat| #[trigger]
                self.attested(j) == old(self).attested(j + 1) by {
                assert(self.input@.after(j) == a.after(j + 1));
            }
            assert forall|j: nat| #[trigger] self.fed(j) == old(self).fed(j + 1) by {
                assert(self.input@.after(j) == a.after(j + 1));
            }
            assert forall|j: nat|
                (#[trigger] self.input@.after(j)).next_attested() && self.input@.after(
                    j,
                ).next().state is Reject implies (self.cont.link::<State<T, O>>().pre)(
                self.input@.after(j).next().state->Reject_0,
            ) by {
                assert(self.input@.after(j) == a.after(j + 1));
            }
        }
        s
    }
}

impl<'a, T: Send + Sync + 'a, E: Send + Sync + 'a> Task<'a, T, E> {
    /// A task that continues this one with `cont`.
    pub(crate) fn continue_with<K, U>(self, cont: K) -> (r: Task<'a, U, E>) where
        K: Cont<T, State<U, E>> + 'a,
        U: 'a,

        requires
            self.wf(),
            then_ready(self@, cont.link()),
        ensures
            r.wf(),
            r@ == then_view(self@, cont.link()),
            r.calls() == 0,
            forall|j: nat| #[trigger] r.fed(j) == then_fed(self@, j),
    {
        let counted = Counted::new(cont);
        let r = Task::from_step(Then { input: self, cont: counted });
        proof {
            r@.lemma_same(then_view(self@, cont.link()));
        }
        r
    }

    /// A task that recovers this one with `cont`.
    pub(crate) fn recover_with<K, O>(self, cont: K) -> (r: Task<'a, T, O>) where
        K: Cont<E, State<T, O>> + 'a,
        O: 'a,

        requires
            self.wf(),
            recover_ready(self@, cont.link()),
        ensures
            r.wf(),
            r@ == recover_view(self@, cont.link()),
            r.calls() == 0,
            forall|j: nat| #[trigger] r.fed(j) == recover_fed(self@, j),
    {
        let counted = Counted::new(cont);
        let r = Task::from_step(Recover { input: self, cont: counted });
        proof {
            r@.lemma_same(recover_view(self@, cont.link()));
        }
        r
    }

    /// A task that continues this one with `task`: each step steps the
    /// input once; a value is handed to `task`, whose result is the result
    /// of the step, and an error passes through. Nothing is stepped or
    /// called before the first step of the new task.
    pub fn then<F, U>(self, task: F) -> (r: Task<'a, U, E>) where
        F: FnMut(T) -> State<U, E> + Send + Sync + 'a,
        U: 'a,

        requires
            self.wf(),
            then_ready(self@, call_link::<T, State<U, E>, F>(task)),
        ensures
            r.wf(),
            r@ == then_view(self@, call_link::<T, State<U, E>, F>(task)),
            r.calls() == 0,
            forall|j: nat| #[trigger] r.fed(j) == then_fed(self@, j),
    {
        self.continue_with(task)
    }

    /// A task that resolves to what `map` makes of the value of this one;
    /// an error passes through. Nothing is stepped or called before the
    /// first step of the new task.
    pub fn map<F, U>(self, map: F) -> (r: Task<'a, U, E>) where
        F: FnMut(T) -> U + Send + Sync + 'a,
        U: 'a,

        requires
            self.wf(),
            then_ready(self@, lift_link::<T, U, E, F>(map)),
        ensures
            r.wf(),
            r@ == then_view(self@, lift_link::<T, U, E, F>(map)),
            r.calls() == 0,
            forall|j: nat| #[trigger] r.fed(j) == then_fed(self@, j),
    {
        self.continue_with(Lift { f: map })
    }

    /// A task that shows the value of this one to `done` and resolves to
    /// the unit value; an error passes through.
    pub fn done<F>(self, done: F) -> (r: Task<'a, (), E>) where F: FnMut(T) + Send + Sync + 'a
        requires
            self.wf(),
            then_ready(self@, lift_link::<T, (), E, F>(done)),
        ensures
            r.wf(),
            r@ == then_view(self@, lift_link::<T, (), E, F>(done)),
            r.calls() == 0,
            forall|j: nat| #[trigger] r.fed(j) == then_fed(self@, j),
    {
        self.map(done)
    }

    /// A task that hands the error of this one to `recover`, whose result
    /// is then the result of the step; a value passes through. Nothing is
    /// stepped or called before the first step of the new task.
    pub fn recover<F, O>(self, recover: F) -> (r: Task<'a, T, O>) where
        F: FnMut(E) -> State<T, O> + Send + Sync + 'a,
        O: 'a,

        requires
            self.wf(),
            recover_ready(self@, call_link::<E, State<T, O>, F>(recover)),
        ensures
            r.wf(),
            r@ == recover_view(self@, call_link::<E, State<T, O>, F>(recover)),
            r.calls() == 0,
            forall|j: nat| #[trigger] r.fed(j) == recover_fed(self@, j),
    {
        self.recover_with(recover)
    }

    /// A task that shows the error of this one to `catch` and rejects with
    /// the unit value; a value passes through.
    pub fn catch<F>(self, catch: F) -> (r: Task<'a, T, ()>) where F: FnMut(E) + Send + Sync + 'a
        requires
            self.wf(),
            recover_ready(self@, relay_link::<E, T, (), F>(catch)),
        ensures
            r.wf(),
            r@ == recover_view(self@, relay_link::<E, T, (), F>(catch)),
            r.calls() == 0,
            forall|j: nat| #[trigger] r.fed(j) == recover_fed(self@, j),
    {
        self.recover_with(Relay { f: catch })
    }
}

} // verus!
