use vstd::prelude::*;
use crate::task::state::State;

verus! {

/// What a task is, as far as its callers can tell: the state it shows, the
/// results that its coming steps will give, and its settlement hooks.
pub struct TaskView<T, E> {
    /// The state that the task shows now.
    pub state: State<T, E>,
    /// The results of the coming steps: `stream(0)` is that of the next one.
    pub stream: spec_fn(nat) -> State<T, E>,
    /// Whether the closures behind a coming step vouch for its result.
    pub attested: spec_fn(nat) -> bool,
    /// A hook waits for a success.
    pub watch_ok: bool,
    /// A hook waits for a failure.
    pub watch_err: bool,
    /// The values that the hook for success has been shown, in order; none
    /// where there is no such hook.
    pub ok_shown: Seq<T>,
    /// The errors that the hook for failure has been shown, in order; none
    /// where there is no such hook.
    pub err_shown: Seq<E>,
}

impl<T, E> TaskView<T, E> {
    /// The task has left `Pending`.
    pub open spec fn done(self) -> bool {
        !(self.state is Pending)
    }

    /// The view of a task that has not been stepped yet and has no hooks.
    pub open spec fn fresh(stream: spec_fn(nat) -> State<T, E>, attested: spec_fn(nat) -> bool) -> Self {
        TaskView {
            state: State::Pending,
            stream,
            attested,
            watch_ok: false,
            watch_err: false,
            ok_shown: Seq::empty(),
            err_shown: Seq::empty(),
        }
    }

    /// The success hook is called by the next step.
    pub open spec fn fires_ok(self) -> bool {
        self.state is Pending && self.watch_ok && (self.stream)(0) is Resolve
    }

    /// The failure hook is called by the next step.
    pub open spec fn fires_err(self) -> bool {
        self.state is Pending && self.watch_err && (self.stream)(0) is Reject
    }

    /// The task after one step. A task that has settled stays as it is; a
    /// pending one takes the next result of its stream as its state, and
    /// shows it to the hook that waits for it.
    pub open spec fn next(self) -> Self {
        if self.state is Pending {
            TaskView {
                state: (self.stream)(0),
                stream: |k: nat| (self.stream)(k + 1),
                attested: |k: nat| (self.attested)(k + 1),
                watch_ok: self.watch_ok,
                watch_err: self.watch_err,
                ok_shown: if self.fires_ok() {
                    self.ok_shown.push((self.stream)(0)->Resolve_0)
                } else {
                    self.ok_shown
                },
                err_shown: if self.fires_err() {
                    self.err_shown.push((self.stream)(0)->Reject_0)
                } else {
                    self.err_shown
                },
            }
        } else {
            self
        }
    }

    /// The task after its payload has been taken out.
    pub open spec fn spent(self) -> Self {
        TaskView { state: self.state.emptied(), ..self }
    }

    /// The task after one step whose payload, if any, has been taken out.
    pub open spec fn pulled(self) -> Self {
        self.next().spent()
    }

    /// The task after `k` steps, the payload taken out after each.
    pub open spec fn after(self, k: nat) -> Self
        decreases k,
    {
        if k == 0 {
            self
        } else {
            self.pulled().after((k - 1) as nat)
        }
    }

    /// The task after `k` steps, no payload taken out.
    pub open spec fn run(self, k: nat) -> Self
        decreases k,
    {
        if k == 0 {
            self
        } else {
            self.next().run((k - 1) as nat)
        }
    }

    /// What the task shows after `k + 1` steps, no payload taken out.
    pub open spec fn seen(self, k: nat) -> State<T, E> {
        self.run(k).next().state
    }

    /// A pending task whose stream starts `j` steps later.
    pub open spec fn skipped(self, j: nat) -> Self {
        TaskView {
            state: State::Pending,
            stream: |k: nat| (self.stream)(k + j),
            attested: |k: nat| (self.attested)(k + j),
            ..self
        }
    }

    /// How many steps leave the task pending before it settles; none for a
    /// task that has settled.
    pub open spec fn lead(self) -> nat {
        if self.done() {
            0
        } else {
            self.settle_index()
        }
    }

    /// The hooks have been called as a task allows: not at all while it is
    /// pending, and once at most, one of them, after it has settled.
    pub open spec fn tidy(self) -> bool {
        &&& self.state is Pending ==> self.ok_shown.len() + self.err_shown.len() == 0
        &&& self.ok_shown.len() + self.err_shown.len() <= 1
    }

    /// The task with both hooks removed, and with them the record of what
    /// they were shown.
    pub open spec fn unwatched(self) -> Self {
        TaskView {
            watch_ok: false,
            watch_err: false,
            ok_shown: Seq::empty(),
            err_shown: Seq::empty(),
            ..self
        }
    }

    /// The next step is attested, if there is one to take.
    pub open spec fn next_attested(self) -> bool {
        self.state is Pending ==> (self.attested)(0)
    }

    /// The first `n` coming steps all give `Pending`.
    pub open spec fn quiet(self, n: nat) -> bool {
        forall|k: nat| k < n ==> #[trigger] (self.stream)(k) is Pending
    }

    /// The step after `n` others is the first that does not give `Pending`.
    pub open spec fn lands_at(self, n: nat) -> bool {
        !((self.stream)(n) is Pending) && self.quiet(n)
    }

    /// The task has settled or some coming step settles it.
    pub open spec fn settles(self) -> bool {
        self.done() || exists|n: nat| !(#[trigger] (self.stream)(n) is Pending)
    }

    /// How many steps give `Pending` before the one that settles the task.
    pub open spec fn settle_index(self) -> nat {
        choose|n: nat| self.lands_at(n)
    }

    /// The coming step `n` gives a result or is not attested.
    pub open spec fn stops(self, n: nat) -> bool {
        !((self.stream)(n) is Pending) || !(self.attested)(n)
    }

    /// The task does not stay pending for ever: it has settled, or a coming
    /// step gives a result or is not attested. Every step that is taken is
    /// attested, so a task of which this holds settles after finitely many
    /// steps. It can be shown of a task before any of its closures has been
    /// called, from what they promise of their results.
    pub open spec fn bounded(self) -> bool {
        self.done() || self.stops(0) || exists|n: nat| #[trigger] self.stops(n)
    }

    /// The step after `n` others is the first that gives a result or is not
    /// attested.
    pub open spec fn halts_at(self, n: nat) -> bool {
        self.stops(n) && forall|k: nat| k < n ==> !#[trigger] self.stops(k)
    }

    /// How many steps go before the first that gives a result or is not
    /// attested.
    pub open spec fn horizon(self) -> nat {
        choose|n: nat| self.halts_at(n)
    }

    /// A bound on the steps that a bounded task still takes until it has
    /// settled.
    pub open spec fn reach(self) -> nat {
        if self.done() {
            0
        } else {
            self.horizon() + 1
        }
    }

    /// The state in which the task settles: the one it shows if it has
    /// settled, else the first result of its stream that is not `Pending`.
    pub open spec fn landing(self) -> State<T, E> {
        if self.done() {
            self.state
        } else {
            (self.stream)(self.settle_index())
        }
    }

    /// Every step up to the one that settles the task is attested.
    pub open spec fn landing_attested(self) -> bool {
        !self.done() ==> forall|k: nat| k <= self.settle_index() ==> #[trigger] (self.attested)(k)
    }

    /// Two views are the same where they show the same state, give the same
    /// results at every coming step and agree on the hooks.
    pub proof fn lemma_same(self, other: Self)
        requires
            self.state == other.state,
            forall|k: nat| #[trigger] (self.stream)(k) == (other.stream)(k),
            forall|k: nat| #[trigger] (self.attested)(k) == (other.attested)(k),
            self.watch_ok == other.watch_ok,
            self.watch_err == other.watch_err,
            self.ok_shown == other.ok_shown,
            self.err_shown == other.err_shown,
        ensures
            self == other,
    {
        assert(self.stream =~= other.stream);
        assert(self.attested =~= other.attested);
    }

    /// The task shows the value `v` now, or an attested coming step gives
    /// it.
    pub open spec fn may_resolve(self, v: T) -> bool {
        self.state == State::<T, E>::Resolve(v) || exists|i: nat|
            (self.attested)(i) && #[trigger] (self.stream)(i) == State::<T, E>::Resolve(v)
    }

    /// The task shows the error `e` now, or an attested coming step gives
    /// it.
    pub open spec fn may_reject(self, e: E) -> bool {
        self.state == State::<T, E>::Reject(e) || exists|i: nat|
            (self.attested)(i) && #[trigger] (self.stream)(i) == State::<T, E>::Reject(e)
    }

    /// Whatever payload a task shows after some steps, it showed at the
    /// start or an attested step of its stream gave it.
    pub proof fn lemma_after_payload(self, j: nat)
        requires
            self.after(j).next_attested(),
        ensures
            self.after(j).next().state matches State::Resolve(v) ==> self.may_resolve(v),
            self.after(j).next().state matches State::Reject(e) ==> self.may_reject(e),
        decreases j,
    {
        if j == 0 {
            if self.state is Pending {
                assert((self.attested)(0));
            }
        } else {
            let p = self.pulled();
            p.lemma_after_payload((j - 1) as nat);
            let s = self.after(j).next().state;
            match s {
                State::Resolve(v) => {
                    assert(p.may_resolve(v));
                    let i = choose|i: nat|
                        (p.attested)(i) && #[trigger] (p.stream)(i) == State::<T, E>::Resolve(v);
                    if self.state is Pending {
                        assert((self.attested)(i + 1) && (self.stream)(i + 1) == s);
                    } else {
                        assert((self.attested)(i) && (self.stream)(i) == s);
                    }
                },
                State::Reject(e) => {
                    assert(p.may_reject(e));
                    let i = choose|i: nat|
                        (p.attested)(i) && #[trigger] (p.stream)(i) == State::<T, E>::Reject(e);
                    if self.state is Pending {
                        assert((self.attested)(i + 1) && (self.stream)(i + 1) == s);
                    } else {
                        assert((self.attested)(i) && (self.stream)(i) == s);
                    }
                },
                _ => {},
            }
        }
    }

    /// At most one step settles a task first.
    pub proof fn lemma_lands_unique(self, a: nat, b: nat)
        requires
            self.lands_at(a),
            self.lands_at(b),
        ensures
            a == b,
    {
        if a < b {
            assert((self.stream)(a) is Pending);
        }
        if b < a {
            assert((self.stream)(b) is Pending);
        }
    }

    /// Where some step does not give `Pending`, one of them is the first.
    pub proof fn lemma_lands_somewhere(self, n: nat)
        requires
            !((self.stream)(n) is Pending),
        ensures
            self.lands_at(self.settle_index()),
            self.settle_index() <= n,
        decreases n,
    {
        if self.quiet(n) {
            assert(self.lands_at(n));
        } else {
            let k = choose|k: nat| k < n && !(#[trigger] (self.stream)(k) is Pending);
            self.lemma_lands_somewhere(k);
        }
        let i = self.settle_index();
        if n < i {
            assert((self.stream)(n) is Pending);
        }
    }

    /// A step that leaves a task pending brings its settlement one step
    /// nearer.
    pub proof fn lemma_next_nearer(self)
        requires
            !self.done(),
            self.settles(),
            (self.stream)(0) is Pending,
        ensures
            self.next().settles(),
            !self.next().done(),
            self.settle_index() == self.next().settle_index() + 1,
            self.next().landing() == self.landing(),
    {
        let n = choose|n: nat| !(#[trigger] (self.stream)(n) is Pending);
        self.lemma_lands_somewhere(n);
        let i = self.settle_index();
        assert(i > 0);
        let j = (i - 1) as nat;
        let nx = self.next();
        assert((nx.stream)(j) == (self.stream)(j + 1));
        assert(nx.quiet(j)) by {
            assert forall|k: nat| k < j implies #[trigger] (nx.stream)(k) is Pending by {
                assert((self.stream)(k + 1) is Pending);
            }
        }
        assert(nx.lands_at(j));
        nx.lemma_lands_unique(j, nx.settle_index());
    }

    /// Where some step gives a result or is not attested, one of them is
    /// the first.
    pub proof fn lemma_halts_somewhere(self, n: nat)
        requires
            self.stops(n),
        ensures
            self.halts_at(self.horizon()),
            self.horizon() <= n,
        decreases n,
    {
        if forall|k: nat| k < n ==> !#[trigger] self.stops(k) {
            assert(self.halts_at(n));
        } else {
            let k = choose|k: nat| k < n && #[trigger] self.stops(k);
            self.lemma_halts_somewhere(k);
        }
        let i = self.horizon();
        if n < i {
            assert(!self.stops(n));
        }
    }

    /// An attested step that leaves a bounded task pending leaves it
    /// bounded and brings the end of its reach one step nearer.
    pub proof fn lemma_next_reach(self)
        requires
            !self.done(),
            self.bounded(),
            (self.stream)(0) is Pending,
            (self.attested)(0),
        ensures
            self.next().bounded(),
            !self.next().done(),
            self.reach() == self.next().reach() + 1,
    {
        let n = choose|n: nat| #[trigger] self.stops(n);
        self.lemma_halts_somewhere(n);
        let i = self.horizon();
        assert(!self.stops(0));
        assert(i > 0);
        let j = (i - 1) as nat;
        let nx = self.next();
        assert(nx.stops(j) == self.stops(j + 1));
        assert forall|k: nat| k < j implies !#[trigger] nx.stops(k) by {
            assert(nx.stops(k) == self.stops(k + 1));
            assert(!self.stops(k + 1));
        }
        assert(nx.halts_at(j));
        nx.lemma_halts_somewhere(j);
        let h = nx.horizon();
        if h < j {
            assert(!nx.stops(h));
        }
    }

    /// A task that settles is bounded.
    pub proof fn lemma_settles_bounded(self)
        requires
            self.settles(),
        ensures
            self.bounded(),
    {
        if !self.done() {
            let n = choose|n: nat| !(#[trigger] (self.stream)(n) is Pending);
            assert(self.stops(n));
        }
    }

    /// A task that settles at its next step settles to the result of that
    /// step.
    pub proof fn lemma_lands_now(self)
        requires
            !self.done(),
            !((self.stream)(0) is Pending),
        ensures
            self.settle_index() == 0,
            self.landing() == (self.stream)(0),
            self.settles(),
    {
        assert(self.lands_at(0));
        self.lemma_lands_unique(0, self.settle_index());
    }
    /// A task that has settled stays as it is, however often it is
    /// stepped.
    pub proof fn lemma_run_done(self, k: nat)
        requires
            self.done(),
        ensures
            self.run(k) == self,
        decreases k,
    {
        if k > 0 {
            self.next().lemma_run_done((k - 1) as nat);
        }
    }

    /// Steps that give `Pending` leave a pending task as it was, but for
    /// its stream, which has moved on.
    pub proof fn lemma_quiet_steps(self, j: nat)
        requires
            !self.done(),
            self.quiet(j),
        ensures
            self.after(j) == self.skipped(j),
            self.run(j) == self.skipped(j),
        decreases j,
    {
        if j == 0 {
            self.lemma_same(self.skipped(0));
        } else {
            assert((self.stream)(0) is Pending);
            let p = self.next();
            p.lemma_same(self.skipped(1));
            assert(p.spent() == p);
            assert(p.quiet((j - 1) as nat)) by {
                assert forall|k: nat| k < (j - 1) as nat implies #[trigger] (p.stream)(k) is Pending by {
                    assert((self.stream)(k + 1) is Pending);
                }
            }
            p.lemma_quiet_steps((j - 1) as nat);
            p.skipped((j - 1) as nat).lemma_same(self.skipped(j));
        }
    }

    /// A task that settles is led to its landing: it has settled or the
    /// step after `lead()` quiet ones is the first to give a result.
    pub proof fn lemma_lead(self)
        requires
            self.settles(),
        ensures
            !self.done() ==> self.lands_at(self.lead()) && self.landing() == (self.stream)(
                self.lead(),
            ),
            !(self.landing() is Pending),
            self.after(self.lead()).next().state == self.landing(),
            self.after(self.lead()).next_attested() ==> (self.done() || (self.attested)(
                self.lead(),
            )),
            forall|j: nat| j < self.lead() ==> (#[trigger] self.after(j)).next().state is Pending,
    {
        if self.done() {
            assert(self.after(0) == self);
        } else {
            let n = choose|n: nat| !(#[trigger] (self.stream)(n) is Pending);
            self.lemma_lands_somewhere(n);
            let i = self.lead();
            self.lemma_quiet_steps(i);
            assert((self.skipped(i).stream)(0) == (self.stream)(i));
            assert forall|j: nat| j < i implies (#[trigger] self.after(j)).next().state is Pending by {
                assert(self.quiet(j)) by {
                    assert forall|k: nat| k < j implies #[trigger] (self.stream)(k) is Pending by {}
                }
                self.lemma_quiet_steps(j);
                assert((self.skipped(j).stream)(0) == (self.stream)(j));
            }
        }
    }

    /// What a task that settles shows after `k + 1` steps: `Pending` while
    /// fewer steps than its lead have gone before, its landing from then
    /// on.
    pub proof fn lemma_seen(self, k: nat)
        requires
            self.settles(),
        ensures
            self.seen(k) == (if k >= self.lead() {
                self.landing()
            } else {
                State::Pending
            }),
        decreases k,
    {
        if self.done() {
            self.lemma_run_done(k);
        } else if (self.stream)(0) is Pending {
            self.lemma_next_nearer();
            if k > 0 {
                self.next().lemma_seen((k - 1) as nat);
            }
        } else {
            self.lemma_lands_now();
            if k > 0 {
                self.next().lemma_seen((k - 1) as nat);
            }
        }
    }
    /// One more step, its payload taken out, can be counted at the end as
    /// well as at the start.
    pub proof fn lemma_after_succ(self, j: nat)
        ensures
            self.after(j + 1) == self.after(j).pulled(),
        decreases j,
    {
        if j == 0 {
            assert(self.after(1) == self.pulled().after(0));
        } else {
            self.pulled().lemma_after_succ((j - 1) as nat);
            assert(self.after(j + 1) == self.pulled().after(j));
        }
    }

    /// Once a task has landed and its payload has been taken out, it shows
    /// a state without payload that is not `Pending`.
    pub proof fn lemma_after_landing(self)
        requires
            self.settles(),
        ensures
            self.after(self.lead() + 1).next().state == self.landing().emptied(),
            !(self.landing().emptied() is Pending),
    {
        self.lemma_lead();
        self.lemma_after_succ(self.lead());
    }
    /// Removing the hooks changes neither whether a task settles nor where
    /// it lands.
    pub proof fn lemma_unwatched(self)
        ensures
            self.unwatched().settles() == self.settles(),
            self.settles() ==> self.unwatched().landing() == self.landing() && self.unwatched().lead()
                == self.lead(),
            forall|k: nat| self.unwatched().seen(k) == self.seen(k),
    {
        let u = self.unwatched();
        if self.settles() && !self.done() {
            let n = choose|n: nat| !(#[trigger] (self.stream)(n) is Pending);
            self.lemma_lands_somewhere(n);
            u.lemma_lands_somewhere(n);
            assert(self.lands_at(u.settle_index())) by {
                assert forall|k: nat| k < u.settle_index() implies #[trigger] (self.stream)(
                    k,
                ) is Pending by {
                    assert((u.stream)(k) is Pending);
                }
            }
            self.lemma_lands_unique(self.settle_index(), u.settle_index());
        }
        assert forall|k: nat| u.seen(k) == self.seen(k) by {
            self.lemma_unwatched_run(k);
        }
    }

    /// Removing the hooks before some steps or after them shows the same
    /// state.
    pub proof fn lemma_unwatched_run(self, k: nat)
        ensures
            self.unwatched().run(k).state == self.run(k).state,
            self.unwatched().run(k).stream == self.run(k).stream,
            self.unwatched().seen(k) == self.seen(k),
        decreases k,
    {
        let u = self.unwatched();
        if k > 0 {
            let v = self.next().unwatched();
            u.next().lemma_same_but_calls(v);
            self.next().lemma_unwatched_run((k - 1) as nat);
            u.next().lemma_calls_run(v, (k - 1) as nat);
        }
    }

    /// Two views that differ in their call counts only are the same but
    /// for those.
    pub proof fn lemma_same_but_calls(self, other: Self)
        requires
            self.state == other.state,
            forall|k: nat| #[trigger] (self.stream)(k) == (other.stream)(k),
            forall|k: nat| #[trigger] (self.attested)(k) == (other.attested)(k),
        ensures
            self.stream == other.stream,
            self.attested == other.attested,
    {
        assert(self.stream =~= other.stream);
        assert(self.attested =~= other.attested);
    }

    /// Two views with the same state and stream show the same after any
    /// number of steps, whatever their hooks.
    pub proof fn lemma_calls_run(self, other: Self, k: nat)
        requires
            self.state == other.state,
            self.stream == other.stream,
        ensures
            self.run(k).state == other.run(k).state,
            self.run(k).stream == other.run(k).stream,
            self.seen(k) == other.seen(k),
        decreases k,
    {
        if k > 0 {
            assert(self.next().stream =~= other.next().stream);
            self.next().lemma_calls_run(other.next(), (k - 1) as nat);
        } else {
            assert(self.next().stream =~= other.next().stream);
        }
        assert(self.run(k).next().state == other.run(k).next().state);
    }

    /// Steps and the taking of payloads keep the hook calls as a task
    /// allows them.
    pub proof fn lemma_tidy(self)
        requires
            self.tidy(),
        ensures
            self.next().tidy(),
            self.spent().tidy(),
            self.pulled().tidy(),
            self.unwatched().tidy(),
    {
    }

    /// A task that has settled and whose payload is gone stays as it is,
    /// whatever is done to it.
    pub proof fn lemma_settled_stays(self, m: nat)
        requires
            self.done(),
            !self.state.is_fresh(),
        ensures
            self.after(m) == self,
        decreases m,
    {
        if m > 0 {
            assert(self.pulled() == self);
            self.lemma_settled_stays((m - 1) as nat);
        }
    }

    /// Steps can be counted in two lots.
    pub proof fn lemma_after_add(self, i: nat, m: nat)
        ensures
            self.after(i + m) == self.after(i).after(m),
        decreases i,
    {
        if i > 0 {
            self.pulled().lemma_after_add((i - 1) as nat, m);
            assert(self.after(i + m) == self.pulled().after((i - 1 + m) as nat));
        }
    }

    /// What a task that settles shows when it is stepped once after `j`
    /// steps whose payloads were taken out: `Pending` before its landing,
    /// the landing at it, and the landing without its payload from then
    /// on.
    pub proof fn lemma_after_shows(self, j: nat)
        requires
            self.settles(),
        ensures
            self.after(j).next().state == (if j < self.lead() {
                State::Pending
            } else if j == self.lead() {
                self.landing()
            } else {
                self.landing().emptied()
            }),
    {
        self.lemma_lead();
        if j > self.lead() {
            let n = self.lead();
            self.lemma_after_succ(n);
            let b = self.after(n + 1);
            assert(b.state == self.landing().emptied());
            let m = (j - n - 1) as nat;
            self.lemma_after_add(n + 1, m);
            b.lemma_settled_stays(m);
        }
    }

    /// One more step can be counted at the end as well as at the start.
    pub proof fn lemma_run_succ(self, j: nat)
        ensures
            self.run(j + 1) == self.run(j).next(),
        decreases j,
    {
        if j == 0 {
            assert(self.run(1) == self.next().run(0));
        } else {
            self.next().lemma_run_succ((j - 1) as nat);
            assert(self.run(j + 1) == self.next().run(j));
        }
    }

    /// What stepping a pending task to its landing leaves behind: the task
    /// shows its landing, and the hook that waited for the payload has been
    /// shown it, once; the other hook has been shown nothing.
    pub proof fn lemma_run_to_landing(self)
        requires
            self.settles(),
            !self.done(),
        ensures
            self.run(self.lead() + 1).state == self.landing(),
            self.run(self.lead() + 1).ok_shown == (if self.watch_ok && self.landing() is Resolve {
                self.ok_shown.push(self.landing()->Resolve_0)
            } else {
                self.ok_shown
            }),
            self.run(self.lead() + 1).err_shown == (if self.watch_err
                && self.landing() is Reject {
                self.err_shown.push(self.landing()->Reject_0)
            } else {
                self.err_shown
            }),
    {
        let n = self.lead();
        self.lemma_lead();
        self.lemma_quiet_steps(n);
        self.lemma_run_succ(n);
        assert((self.skipped(n).stream)(0) == (self.stream)(n));
    }
}

} // verus!
