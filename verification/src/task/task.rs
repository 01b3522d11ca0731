use vstd::prelude::*;
use crate::task::source::{Produce, Ready};
use crate::task::state::State;
use crate::task::step::{answers, single_valued, value_of, Step, Watch};
use crate::task::view::TaskView;

verus! {

/// A polled unit of work: a stepper that is tried again and again until it
/// gives a result other than `Pending`, together with the state that it has
/// reached.
///
/// A task is driven by `exec`, `poll` or `wait`, or by a runner; the
/// combinators build new tasks that own the ones they were made from.
#[verifier::reject_recursive_types(T)]
#[verifier::reject_recursive_types(E)]
pub struct Task<'a, T = (), E = ()> {
    pub(crate) step: Box<dyn Step<T, E> + 'a>,
    pub(crate) state: State<T, E>,
    pub(crate) on_resolve: Option<Watch<'a, T>>,
    pub(crate) on_reject: Option<Watch<'a, E>>,
}

impl<'a, T, E> Task<'a, T, E> {
    /// The state, the coming results and the hooks of the task.
    pub closed spec fn view(&self) -> TaskView<T, E> {
        TaskView {
            state: self.state,
            stream: |k: nat| self.step.outcome(k),
            attested: |k: nat| self.step.attested(k),
            watch_ok: self.on_resolve is Some,
            watch_err: self.on_reject is Some,
            ok_shown: match self.on_resolve {
                Some(h) => h.shown(),
                None => Seq::empty(),
            },
            err_shown: match self.on_reject {
                Some(h) => h.shown(),
                None => Seq::empty(),
            },
        }
    }

    /// The task can be stepped: its stepper can, and each hook accepts
    /// every payload that an attested step may show it.
    pub closed spec fn wf(&self) -> bool {
        &&& self.step.inv()
        &&& self.view().tidy()
        &&& self.on_resolve matches Some(h) ==> forall|k: nat|
            self.step.attested(k) && #[trigger] self.step.outcome(k) is Resolve ==> h.pre(
                self.step.outcome(k)->Resolve_0,
            )
        &&& self.on_reject matches Some(h) ==> forall|k: nat|
            self.step.attested(k) && #[trigger] self.step.outcome(k) is Reject ==> h.pre(
                self.step.outcome(k)->Reject_0,
            )
    }

    /// There is a hook for success, and it has come back from being shown
    /// `v`.
    pub closed spec fn ok_heard(&self, v: T) -> bool {
        self.on_resolve matches Some(h) && h.heard(v)
    }

    /// There is a hook for failure, and it has come back from being shown
    /// `e`.
    pub closed spec fn err_heard(&self, e: E) -> bool {
        self.on_reject matches Some(h) && h.heard(e)
    }

    /// How often the task has called the callback that it was built with.
    pub closed spec fn calls(&self) -> nat {
        self.step.calls()
    }

    /// The step that comes after `k` others hands a payload to the callback
    /// that the task was built with.
    pub closed spec fn fed(&self, k: nat) -> bool {
        self.step.fed(k)
    }

    /// The task has been stepped once since `before`: the callback was
    /// called if that step handed it a payload, and not otherwise; a task
    /// that had settled took no step.
    pub open spec fn stepped_from(&self, before: &Self) -> bool {
        if before@.done() {
            self.untouched_from(before)
        } else {
            &&& self.calls() == before.calls() + if before.fed(0) {
                1nat
            } else {
                0nat
            }
            &&& forall|k: nat| #[trigger] self.fed(k) == before.fed(k + 1)
        }
    }

    /// The callback of the task has not been called since `before`.
    pub open spec fn untouched_from(&self, before: &Self) -> bool {
        &&& self.calls() == before.calls()
        &&& forall|k: nat| #[trigger] self.fed(k) == before.fed(k)
    }

    /// The hooks of the task are those of `other`.
    pub open spec fn hooks_as(&self, other: &Self) -> bool {
        &&& forall|v: T| #[trigger] self.ok_heard(v) == other.ok_heard(v)
        &&& forall|e: E| #[trigger] self.err_heard(e) == other.err_heard(e)
    }

    /// The hook that the next step calls, if it calls one, has come back
    /// from being shown the payload of that step.
    pub open spec fn heard_next(&self) -> bool {
        &&& self@.fires_ok() ==> self.ok_heard((self@.stream)(0)->Resolve_0)
        &&& self@.fires_err() ==> self.err_heard((self@.stream)(0)->Reject_0)
    }

    /// The hook that waits for the payload on which a pending task lands
    /// has come back from being shown it.
    pub open spec fn heard_landing(&self) -> bool {
        !self@.done() ==> {
            &&& self@.watch_ok && self@.landing() is Resolve ==> self.ok_heard(
                self@.landing()->Resolve_0,
            )
            &&& self@.watch_err && self@.landing() is Reject ==> self.err_heard(
                self@.landing()->Reject_0,
            )
        }
    }

    /// Of a task that can be stepped, the hooks have been called once at
    /// most, one of them, and not before the task settled.
    pub proof fn lemma_hooks_once(&self)
        requires
            self.wf(),
        ensures
            self@.tidy(),
    {
    }

    /// A pending task without hooks around a stepper.
    pub fn from_step<S>(step: S) -> (r: Self) where S: Step<T, E> + 'a
        requires
            step.inv(),
        ensures
            r.wf(),
            r@ == TaskView::<T, E>::fresh(|k: nat| step.outcome(k), |k: nat| step.attested(k)),
            r.calls() == step.calls(),
            forall|k: nat| #[trigger] r.fed(k) == step.fed(k),
    {
        let r = Task {
            step: Box::new(step),
            state: State::Pending,
            on_resolve: None,
            on_reject: None,
        };
        proof {
            r@.lemma_same(TaskView::<T, E>::fresh(
                |k: nat| step.outcome(k),
                |k: nat| step.attested(k),
            ));
        }
        r
    }

    /// A pending task whose steps call `task`. Nothing is called before the
    /// first step.
    pub fn new<F>(task: F) -> (r: Self) where F: FnMut() -> State<T, E> + Send + Sync + 'a
        requires
            call_requires(task, ()),
            single_valued::<(), State<T, E>, F>(task),
        ensures
            r.wf(),
            r@ == TaskView::<T, E>::fresh(
                |k: nat| value_of::<(), State<T, E>, F>(task, ()),
                |k: nat| answers::<(), State<T, E>, F>(task, ()),
            ),
            r.calls() == 0,
            forall|k: nat| !#[trigger] r.fed(k),
    {
        let r = Self::from_step(task);
        proof {
            r@.lemma_same(TaskView::<T, E>::fresh(
                |k: nat| value_of::<(), State<T, E>, F>(task, ()),
                |k: nat| answers::<(), State<T, E>, F>(task, ()),
            ));
        }
        r
    }

    /// A pending task that resolves to `val` at its first step.
    pub fn from(val: T) -> (r: Self) where T: Send + Sync + 'a
        ensures
            r.wf(),
            r@ == TaskView::<T, E>::fresh(
                |k: nat|
                    if k == 0 {
                        State::Resolve(val)
                    } else {
                        State::Resolved
                    },
                |k: nat| true,
            ),
            r.calls() == 0,
            forall|k: nat| !#[trigger] r.fed(k),
    {
        let r = Self::from_step(Ready { val: Some(val) });
        proof {
            r@.lemma_same(TaskView::<T, E>::fresh(
                |k: nat|
                    if k == 0 {
                        State::Resolve(val)
                    } else {
                        State::Resolved
                    },
                |k: nat| true,
            ));
        }
        r
    }

    /// A pending task that resolves at its first step to what `with`
    /// returns. Nothing is called before the first step.
    pub fn with<F>(with: F) -> (r: Self) where F: FnMut() -> T + Send + Sync + 'a
        requires
            call_requires(with, ()),
            single_valued::<(), T, F>(with),
        ensures
            r.wf(),
            r@ == TaskView::<T, E>::fresh(
                |k: nat| State::Resolve(value_of::<(), T, F>(with, ())),
                |k: nat| answers::<(), T, F>(with, ()),
            ),
            r.calls() == 0,
            forall|k: nat| !#[trigger] r.fed(k),
    {
        let r = Self::from_step(Produce { make: with });
        proof {
            r@.lemma_same(TaskView::<T, E>::fresh(
                |k: nat| State::Resolve(value_of::<(), T, F>(with, ())),
                |k: nat| answers::<(), T, F>(with, ()),
            ));
        }
        r
    }

    /// The state that the task has reached.
    pub fn state(&self) -> (r: &State<T, E>)
        ensures
            *r == self@.state,
    {
        &self.state
    }

    /// Takes one step, unless the task has settled: then nothing is called
    /// and nothing changes. A step that settles the task shows the payload
    /// to the hook that waits for it. Returns whether the task has settled.
    pub fn exec(&mut self) -> (done: bool)
        requires
            old(self).wf(),
        ensures
            final(self).wf(),
            final(self)@ == old(self)@.next(),
            done == final(self)@.done(),
            old(self)@.next_attested(),
            old(self).heard_next(),
            final(self).hooks_as(old(self)),
            final(self).stepped_from(old(self)),
    {
        if !self.state.is_pending() {
            return true;
        }
        let s = self.step.step();
        self.state = s;
        match &self.state {
            State::Resolve(v) => {
                match &mut self.on_resolve {
                    Some(h) => {
                        h.call(v);
                    },
                    None => {},
                }
            },
            State::Reject(e) => {
                match &mut self.on_reject {
                    Some(h) => {
                        h.call(e);
                    },
                    None => {},
                }
            },
            _ => {},
        }
        proof {
            self@.lemma_same(old(self)@.next());
        }
        !self.state.is_pending()
    }

    /// Takes out of the task the state that it shows.
    pub(crate) fn take_state(&mut self) -> (got: State<T, E>)
        requires
            old(self).wf(),
        ensures
            final(self).wf(),
            final(self)@ == old(self)@.spent(),
            got == old(self)@.state,
            final(self).hooks_as(old(self)),
            final(self).untouched_from(old(self)),
    {
        let got = self.state.take();
        proof {
            self@.lemma_same(old(self)@.spent());
        }
        got
    }

    /// The task without its hooks.
    pub(crate) fn unwatch(self) -> (r: Self)
        requires
            self.wf(),
        ensures
            r.wf(),
            r@ == self@.unwatched(),
            forall|v: T| !r.ok_heard(v),
            forall|e: E| !r.err_heard(e),
            r.untouched_from(&self),
    {
        let mut r = self;
        r.on_resolve = None;
        r.on_reject = None;
        proof {
            r@.lemma_same(self@.unwatched());
        }
        r
    }

    /// Takes one step and takes out of the task the state that it then
    /// shows.
    pub(crate) fn pull(&mut self) -> (got: State<T, E>)
        requires
            old(self).wf(),
        ensures
            final(self).wf(),
            final(self)@ == old(self)@.pulled(),
            got == old(self)@.next().state,
            old(self)@.next_attested(),
            old(self).heard_next(),
            final(self).hooks_as(old(self)),
            final(self).stepped_from(old(self)),
    {
        self.exec();
        self.take_state()
    }

    /// Takes one step and takes the payload out if the task has settled:
    /// success or failure for a task that has just settled, nothing for
    /// one that is still pending or whose payload is already gone.
    pub fn poll(&mut self) -> (r: Option<Result<T, E>>)
        requires
            old(self).wf(),
        ensures
            final(self).wf(),
            final(self)@ == old(self)@.pulled(),
            r == old(self)@.next().state.outcome(),
            old(self)@.next_attested(),
            old(self).heard_next(),
            final(self).hooks_as(old(self)),
            final(self).stepped_from(old(self)),
    {
        self.pull().into_result()
    }

    /// Steps the task until it has settled and returns its payload. The
    /// task has to be bounded, else it might be stepped for ever.
    pub fn wait(self) -> (r: Option<Result<T, E>>)
        requires
            self.wf(),
            self@.bounded(),
        ensures
            self@.settles(),
            r == self@.landing().outcome(),
            self@.landing_attested(),
            !self@.done() ==> (self@.attested)(self@.settle_index()),
            self.heard_landing(),
    {
        let mut task = self;
        let ghost mut i: nat = 0;
        proof {
            if !self@.done() {
                self@.lemma_same(self@.skipped(0));
            }
        }
        loop
            invariant
                task.wf(),
                task@.bounded(),
                task.hooks_as(&self),
                self@.done() ==> task@ == self@,
                !self@.done() ==> {
                    &&& task@ == self@.skipped(i)
                    &&& self@.quiet(i)
                    &&& forall|k: nat| k < i ==> #[trigger] (self@.attested)(k)
                },
            decreases task@.reach(),
        {
            let ghost before = task@;
            let done = task.exec();
            if done {
                proof {
                    if !self@.done() {
                        assert((before.stream)(0) == (self@.stream)(i));
                        assert((before.attested)(0) == (self@.attested)(i));
                        assert(self@.lands_at(i));
                        self@.lemma_lands_somewhere(i);
                        self@.lemma_lands_unique(i, self@.settle_index());
                    }
                }
                return task.state.into_result();
            }
            proof {
                assert((before.stream)(0) == (self@.stream)(i));
                assert((before.attested)(0) == (self@.attested)(i));
                before.lemma_next_reach();
                task@.lemma_same(self@.skipped(i + 1));
                i = i + 1;
            }
        }
    }

    /// Registers `hook` as the callback that is shown the value when the
    /// task resolves; it takes the place of one registered before, and the
    /// record of what the hook for success was shown starts anew.
    pub fn finally<F>(self, hook: F) -> (r: Self) where F: FnMut(&T) + Send + Sync + 'a
        requires
            self.wf(),
            forall|k: nat|
                (self@.attested)(k) && #[trigger] (self@.stream)(k) is Resolve ==> call_requires(
                    hook,
                    (&(self@.stream)(k)->Resolve_0,),
                ),
        ensures
            r.wf(),
            r@ == (TaskView { watch_ok: true, ok_shown: Seq::empty(), ..self@ }),
            forall|v: T| #[trigger] r.ok_heard(v) == call_ensures(hook, (&v,), ()),
            forall|e: E| #[trigger] r.err_heard(e) == self.err_heard(e),
            r.untouched_from(&self),
    {
        let mut r = self;
        let watch = Watch::new(hook);
        r.on_resolve = Some(watch);
        proof {
            r@.lemma_same((TaskView { watch_ok: true, ok_shown: Seq::empty(), ..self@ }));
            assert forall|k: nat|
                r.step.attested(k) && #[trigger] r.step.outcome(k) is Resolve implies watch.pre(
                r.step.outcome(k)->Resolve_0,
            ) by {
                assert((self@.attested)(k) && (self@.stream)(k) is Resolve);
            }
        }
        r
    }

    /// Registers `hook` as the callback that is shown the error when the
    /// task rejects; it takes the place of one registered before, and the
    /// record of what the hook for failure was shown starts anew.
    pub fn on_reject<F>(self, hook: F) -> (r: Self) where F: FnMut(&E) + Send + Sync + 'a
        requires
            self.wf(),
            forall|k: nat|
                (self@.attested)(k) && #[trigger] (self@.stream)(k) is Reject ==> call_requires(
                    hook,
                    (&(self@.stream)(k)->Reject_0,),
                ),
        ensures
            r.wf(),
            r@ == (TaskView { watch_err: true, err_shown: Seq::empty(), ..self@ }),
            forall|e: E| #[trigger] r.err_heard(e) == call_ensures(hook, (&e,), ()),
            forall|v: T| #[trigger] r.ok_heard(v) == self.ok_heard(v),
            r.untouched_from(&self),
    {
        let mut r = self;
        let watch = Watch::new(hook);
        r.on_reject = Some(watch);
        proof {
            r@.lemma_same((TaskView { watch_err: true, err_shown: Seq::empty(), ..self@ }));
            assert forall|k: nat|
                r.step.attested(k) && #[trigger] r.step.outcome(k) is Reject implies watch.pre(
                r.step.outcome(k)->Reject_0,
            ) by {
                assert((self@.attested)(k) && (self@.stream)(k) is Reject);
            }
        }
        r
    }
}

} // verus!
