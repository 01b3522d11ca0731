use vstd::prelude::*;
use crate::task::state::State;
use crate::task::step::Step;
use crate::task::task::Task;
use crate::task::view::TaskView;

verus! {

/// What one step of a join returns, given what its two inputs show after
/// each has been stepped: the error of the first if it has one, else the
/// error of the second, else both values if both are there, else `Pending`.
pub open spec fn join_result<T, U, E>(a: State<T, E>, b: State<U, E>) -> State<(T, U), E> {
    match a {
        State::Reject(e) => State::Reject(e),
        _ => match b {
            State::Reject(e) => State::Reject(e),
            _ => match (a, b) {
                (State::Resolve(x), State::Resolve(y)) => State::Resolve((x, y)),
                _ => State::Pending,
            },
        },
    }
}

/// The two inputs of a join after one of its steps: each has been stepped,
/// and a payload that the step returned has been taken out.
pub open spec fn join_pulled<T, U, E>(a: TaskView<T, E>, b: TaskView<U, E>) -> (
    TaskView<T, E>,
    TaskView<U, E>,
) {
    let a1 = a.next();
    let b1 = b.next();
    if a1.state is Reject {
        (a1.spent(), b1)
    } else if b1.state is Reject {
        (a1, b1.spent())
    } else if a1.state is Resolve && b1.state is Resolve {
        (a1.spent(), b1.spent())
    } else {
        (a1, b1)
    }
}

/// The two inputs of a join after `j` of its steps.
pub open spec fn join_after<T, U, E>(a: TaskView<T, E>, b: TaskView<U, E>, j: nat) -> (
    TaskView<T, E>,
    TaskView<U, E>,
)
    decreases j,
{
    if j == 0 {
        (a, b)
    } else {
        let p = join_pulled(a, b);
        join_after(p.0, p.1, (j - 1) as nat)
    }
}

/// The task that joins `a` and `b`. It is pending and has no hooks; each
/// of its steps steps `a`, then `b`, and returns their `join_result`.
pub open spec fn join_view<T, U, E>(a: TaskView<T, E>, b: TaskView<U, E>) -> TaskView<(T, U), E> {
    TaskView::fresh(
        |j: nat|
            {
                let p = join_after(a, b, j);
                join_result(p.0.next().state, p.1.next().state)
            },
        |j: nat|
            {
                let p = join_after(a, b, j);
                p.0.next_attested() && p.1.next_attested()
            },
    )
}

/// While the steps of a join give `Pending`, no payload is taken out of its
/// inputs: after `j` such steps each input is as `j` steps of its own
/// leave it.
pub proof fn lemma_join_quiet<T, U, E>(a: TaskView<T, E>, b: TaskView<U, E>, j: nat)
    requires
        forall|i: nat| i < j ==> join_result(#[trigger] a.seen(i), b.seen(i)) is Pending,
    ensures
        join_after(a, b, j) == (a.run(j), b.run(j)),
        (join_view(a, b).stream)(j) == join_result(a.seen(j), b.seen(j)),
    decreases j,
{
    if j > 0 {
        let a1 = a.next();
        let b1 = b.next();
        assert(a.seen(0) == a1.state && b.seen(0) == b1.state);
        assert(join_result(a.seen(0), b.seen(0)) is Pending);
        assert(join_pulled(a, b) == (a1, b1));
        assert forall|i: nat| i < (j - 1) as nat implies join_result(
            #[trigger] a1.seen(i),
            b1.seen(i),
        ) is Pending by {
            assert(a1.seen(i) == a.seen(i + 1));
            assert(b1.seen(i) == b.seen(i + 1));
        }
        lemma_join_quiet(a1, b1, (j - 1) as nat);
        assert(a1.seen((j - 1) as nat) == a.seen(j));
        assert(b1.seen((j - 1) as nat) == b.seen(j));
    }
}

/// A join settles at the first of its steps at which what its inputs show
/// makes a result, and with that result.
pub proof fn lemma_join_lands<T, U, E>(a: TaskView<T, E>, b: TaskView<U, E>, n: nat)
    requires
        forall|i: nat| i < n ==> join_result(#[trigger] a.seen(i), b.seen(i)) is Pending,
        !(join_result(a.seen(n), b.seen(n)) is Pending),
    ensures
        join_view(a, b).settles(),
        join_view(a, b).lead() == n,
        join_view(a, b).landing() == join_result(a.seen(n), b.seen(n)),
{
    let m = join_view(a, b);
    lemma_join_quiet(a, b, n);
    assert forall|j: nat| j < n implies #[trigger] (m.stream)(j) is Pending by {
        lemma_join_quiet(a, b, j);
    }
    assert(m.lands_at(n));
    m.lemma_lands_somewhere(n);
    m.lemma_lands_unique(n, m.settle_index());
}

/// A join settles where at some step what its inputs show makes a result.
pub proof fn lemma_join_settles_by<T, U, E>(a: TaskView<T, E>, b: TaskView<U, E>, n: nat)
    requires
        !(join_result(a.seen(n), b.seen(n)) is Pending),
    ensures
        join_view(a, b).settles(),
    decreases n,
{
    if forall|i: nat| i < n ==> join_result(#[trigger] a.seen(i), b.seen(i)) is Pending {
        lemma_join_lands(a, b, n);
    } else {
        let i = choose|i: nat| i < n && !(join_result(#[trigger] a.seen(i), b.seen(i)) is Pending);
        lemma_join_settles_by(a, b, i);
    }
}

/// Where one input of a join never gives a result and has a step that is
/// not attested, the join settles or has such a step as well.
proof fn lemma_join_stalls<T, U, E>(a: TaskView<T, E>, b: TaskView<U, E>, n: nat, left: bool)
    requires
        left ==> !a.done() && a.quiet(n) && !(a.attested)(n),
        !left ==> !b.done() && b.quiet(n) && !(b.attested)(n),
    ensures
        join_view(a, b).bounded(),
{
    let m = join_view(a, b);
    if forall|i: nat| i < n ==> join_result(#[trigger] a.seen(i), b.seen(i)) is Pending {
        lemma_join_quiet(a, b, n);
        if left {
            a.lemma_quiet_steps(n);
            assert((a.skipped(n).attested)(0) == (a.attested)(n));
        } else {
            b.lemma_quiet_steps(n);
            assert((b.skipped(n).attested)(0) == (b.attested)(n));
        }
        assert(!(m.attested)(n));
        assert(m.stops(n));
    } else {
        let i = choose|i: nat| i < n && !(join_result(#[trigger] a.seen(i), b.seen(i)) is Pending);
        lemma_join_settles_by(a, b, i);
        m.lemma_settles_bounded();
    }
}

/// The join of two bounded tasks is bounded, provided that each of them,
/// where it settles, lands on a state with a payload.
pub proof fn lemma_join_bounded<T, U, E>(a: TaskView<T, E>, b: TaskView<U, E>)
    requires
        a.bounded(),
        b.bounded(),
        a.settles() ==> a.landing().is_fresh(),
        b.settles() ==> b.landing().is_fresh(),
    ensures
        join_view(a, b).bounded(),
        join_view(a.unwatched(), b.unwatched()).bounded(),
{
    lemma_join_bounded_plain(a, b);
    a.lemma_unwatched();
    b.lemma_unwatched();
    assert forall|n: nat| a.unwatched().stops(n) == a.stops(n) by {}
    assert forall|n: nat| b.unwatched().stops(n) == b.stops(n) by {}
    if !a.done() {
        let n = choose|n: nat| #[trigger] a.stops(n);
        assert(a.unwatched().stops(n));
    }
    if !b.done() {
        let n = choose|n: nat| #[trigger] b.stops(n);
        assert(b.unwatched().stops(n));
    }
    lemma_join_bounded_plain(a.unwatched(), b.unwatched());
}

/// The join of two bounded tasks that land on payloads is bounded.
proof fn lemma_join_bounded_plain<T, U, E>(a: TaskView<T, E>, b: TaskView<U, E>)
    requires
        a.bounded(),
        b.bounded(),
        a.settles() ==> a.landing().is_fresh(),
        b.settles() ==> b.landing().is_fresh(),
    ensures
        join_view(a, b).bounded(),
{
    let m = join_view(a, b);
    if !a.settles() {
        let n = choose|n: nat| #[trigger] a.stops(n);
        assert((a.stream)(n) is Pending);
        assert(a.quiet(n)) by {
            assert forall|i: nat| i < n implies #[trigger] (a.stream)(i) is Pending by {}
        }
        lemma_join_stalls(a, b, n, true);
    } else if !b.settles() {
        let n = choose|n: nat| #[trigger] b.stops(n);
        assert((b.stream)(n) is Pending);
        assert(b.quiet(n)) by {
            assert forall|i: nat| i < n implies #[trigger] (b.stream)(i) is Pending by {}
        }
        lemma_join_stalls(a, b, n, false);
    } else {
        let n = if a.lead() >= b.lead() {
            a.lead()
        } else {
            b.lead()
        };
        a.lemma_seen(n);
        b.lemma_seen(n);
        lemma_join_settles_by(a, b, n);
        m.lemma_settles_bounded();
    }
}

/// The stepper of a task that joins two others.
#[verifier::reject_recursive_types(T)]
#[verifier::reject_recursive_types(U)]
#[verifier::reject_recursive_types(E)]
pub struct Join<'a, T, U, E> {
    pub(crate) left: Task<'a, T, E>,
    pub(crate) right: Task<'a, U, E>,
}

impl<'a, T: Send + Sync, U: Send + Sync, E: Send + Sync> Step<(T, U), E> for Join<'a, T, U, E> {
    closed spec fn inv(&self) -> bool {
        self.left.wf() && self.right.wf()
    }

    closed spec fn outcome(&self, j: nat) -> State<(T, U), E> {
        (join_view(self.left@, self.right@).stream)(j)
    }

    closed spec fn attested(&self, j: nat) -> bool {
        (join_view(self.left@, self.right@).attested)(j)
    }

    open spec fn fed(&self, j: nat) -> bool {
        false
    }

    open spec fn calls(&self) -> nat {
        0
    }

    fn step(&mut self) -> (s: State<(T, U), E>) {
        let ghost a = self.left@;
        let ghost b = self.right@;
        proof {
            assert(join_after(a, b, 0) == (a, b));
        }
        self.left.exec();
        self.right.exec();
        let s = if self.left.state().is_reject() {
            match self.left.take_state() {
                State::Reject(e) => State::Reject(e),
                _ => State::Pending,
            }
        } else if self.right.state().is_reject() {
            match self.right.take_state() {
                State::Reject(e) => State::Reject(e),
                _ => State::Pending,
            }
        } else if self.left.state().is_resolve() && self.right.state().is_resolve() {
            let x = self.left.take_state();
            let y = self.right.take_state();
            match (x, y) {
                (State::Resolve(x), State::Resolve(y)) => State::Resolve((x, y)),
                _ => State::Pending,
            }
        } else {
            State::Pending
        };
        proof {
            let p = join_pulled(a, b);
            assert(self.left@ == p.0);
            assert(self.right@ == p.1);
            assert forall|j: nat| #[trigger]
                join_after(self.left@, self.right@, j) == join_after(a, b, j + 1) by {
                assert(join_after(a, b, j + 1) == join_after(p.0, p.1, j));
            }
            assert forall|j: nat| #[trigger]
                self.outcome(j) == old(self).outcome(j + 1) by {
                assert(join_after(self.left@, self.right@, j) == join_after(a, b, j + 1));
            }
            assert forall|j: nat| #[trigger]
                self.attested(j) == old(self).attested(j + 1) by {
                assert(join_after(self.left@, self.right@, j) == join_after(a, b, j + 1));
            }
        }
        s
    }
}

impl<'a, T: Send + Sync + 'a, E: Send + Sync + 'a> Task<'a, T, E> {
    /// A task that drives this one and `task` side by side: each step steps
    /// this one, then `task`. It resolves to both values once both are
    /// there and rejects with the first error it sees, that of the receiver
    /// before that of `task`. The hooks of both are removed, and nothing is
    /// stepped before the first step of the new task.
    pub fn join<U>(self, task: Task<'a, U, E>) -> (r: Task<'a, (T, U), E>) where
        U: Send + Sync + 'a,

        requires
            self.wf(),
            task.wf(),
        ensures
            r.wf(),
            r@ == join_view(self@.unwatched(), task@.unwatched()),
            r.calls() == 0,
            forall|k: nat| !#[trigger] r.fed(k),
    {
        let left = self.unwatch();
        let right = task.unwatch();
        let r = Task::from_step(Join { left, right });
        proof {
            r@.lemma_same(join_view(self@.unwatched(), task@.unwatched()));
        }
        r
    }
}

} // verus!
