use vstd::prelude::*;
use crate::task::chain::{
    bind, lemma_recover_settles, lemma_then_settles, mend, recover_fed, recover_view, then_fed,
    then_view,
};
use crate::task::join::{join_after, join_result, join_view, lemma_join_lands};
use crate::task::state::State;
use crate::task::step::Link;
use crate::task::view::TaskView;

verus! {

/// Once a step has left a task settled, every later step finds it settled
/// and leaves all of it as it is, the stream included: nothing is called
/// again.
pub proof fn lemma_exec_idempotent<T, E>(t: TaskView<T, E>, n: nat)
    requires
        t.next().done(),
    ensures
        t.next().run(n) == t.next(),
        t.next().run(n).done(),
{
    t.next().lemma_run_done(n);
}

/// The states that a task shows follow its lifecycle: `Pending` gives way
/// to `Pending`, `Resolve` or `Reject`; a payload stays until it is taken
/// out, which leaves `Resolved` behind `Resolve` and `Rejected` behind
/// `Reject`; and these two stay for good. This holds of a step, of the
/// taking of a payload and of both together, for a task whose steps give
/// `Pending`, `Resolve` or `Reject` only.
pub proof fn lemma_state_monotone<T, E>(t: TaskView<T, E>)
    requires
        forall|k: nat| #[trigger] (t.stream)(k) is Pending || (t.stream)(k).is_fresh(),
    ensures
        t.state.gives_way_to(t.next().state),
        t.state.gives_way_to(t.spent().state),
        t.next().state.gives_way_to(t.pulled().state),
        t.state.stage() <= t.next().state.stage() <= t.pulled().state.stage(),
        t.state.stage() <= t.spent().state.stage(),
        forall|k: nat| #[trigger]
            (t.next().stream)(k) is Pending || (t.next().stream)(k).is_fresh(),
{
    assert((t.stream)(0) is Pending || (t.stream)(0).is_fresh());
    assert forall|k: nat| #[trigger]
        (t.next().stream)(k) is Pending || (t.next().stream)(k).is_fresh() by {
        assert((t.stream)(k) is Pending || (t.stream)(k).is_fresh());
        assert((t.stream)(k + 1) is Pending || (t.stream)(k + 1).is_fresh());
    }
}

/// However often a task is stepped, its hooks are called once at most,
/// and never both: a task whose hooks have not been called while it was
/// pending has, after any number of steps, seen one call at most.
pub proof fn lemma_hook_at_most_once<T, E>(t: TaskView<T, E>, n: nat)
    requires
        t.tidy(),
    ensures
        t.run(n).tidy(),
        t.run(n).ok_shown.len() + t.run(n).err_shown.len() <= 1,
        t.ok_shown.is_prefix_of(t.run(n).ok_shown),
        t.err_shown.is_prefix_of(t.run(n).err_shown),
    decreases n,
{
    if n > 0 {
        t.lemma_tidy();
        lemma_hook_at_most_once(t.next(), (n - 1) as nat);
    }
}

/// Building a task from others steps none of them and calls nothing: the
/// new task is pending, no hook has been called, and its first step is the
/// one that takes the first step of each input, as the input was when the
/// task was built.
pub proof fn lemma_built_lazily<T, U, E, O>(
    a: TaskView<T, E>,
    b: TaskView<U, E>,
    k: Link<T, State<U, E>>,
    h: Link<E, State<T, O>>,
)
    ensures
        then_view(a, k).state is Pending,
        then_view(a, k).ok_shown.len() + then_view(a, k).err_shown.len() == 0,
        (then_view(a, k).stream)(0) == bind(a.next().state, k.out),
        recover_view(a, h).state is Pending,
        recover_view(a, h).ok_shown.len() + recover_view(a, h).err_shown.len() == 0,
        (recover_view(a, h).stream)(0) == mend(a.next().state, h.out),
        join_view(a, b).state is Pending,
        join_view(a, b).ok_shown.len() + join_view(a, b).err_shown.len() == 0,
        (join_view(a, b).stream)(0) == join_result(a.next().state, b.next().state),
{
    assert(a.after(0) == a);
    assert(join_after(a, b, 0) == (a, b));
}

/// A task made from a value settles at its first step and lands on that
/// value.
pub proof fn lemma_from_value<T, E>(v: T)
    ensures
        ({
            let t = TaskView::<T, E>::fresh(
                |k: nat|
                    if k == 0 {
                        State::Resolve(v)
                    } else {
                        State::Resolved
                    },
                |k: nat| true,
            );
            t.settles() && t.lead() == 0 && t.landing() == State::<T, E>::Resolve(v)
                && t.landing().outcome() == Some(Ok::<T, E>(v)) && t.landing_attested()
        }),
{
    let t = TaskView::<T, E>::fresh(
        |k: nat|
            if k == 0 {
                State::Resolve(v)
            } else {
                State::Resolved
            },
        |k: nat| true,
    );
    t.lemma_lands_now();
}

/// Mapping with the identity changes nothing: where the link hands the
/// value that the input lands on back as it is, the new task lands where
/// the input lands.
pub proof fn lemma_map_identity<T, E>(t: TaskView<T, E>, k: Link<T, State<T, E>>)
    requires
        t.settles(),
        t.landing() matches State::Resolve(v) ==> (k.out)(v) == State::<T, E>::Resolve(v),
    ensures
        then_view(t, k).settles(),
        then_view(t, k).landing().outcome() == t.landing().outcome(),
        then_view(t, k).landing() == t.landing(),
{
    t.lemma_lead();
    lemma_then_settles(t, k);
}

/// Mapping twice is mapping once with the composition: where `f` resolves
/// the value that the input lands on to `u`, `g` resolves `u`, and `h`
/// does to the value what `g` does to `u`, the task mapped with `f` and
/// then with `g` lands where the task mapped with `h` lands.
pub proof fn lemma_map_fusion<T, U, V, E>(
    t: TaskView<T, E>,
    f: Link<T, State<U, E>>,
    g: Link<U, State<V, E>>,
    h: Link<T, State<V, E>>,
)
    requires
        t.settles(),
        t.landing() matches State::Resolve(v) ==> {
            &&& (f.out)(v) is Resolve
            &&& (g.out)((f.out)(v)->Resolve_0) is Resolve
            &&& (h.out)(v) == (g.out)((f.out)(v)->Resolve_0)
        },
    ensures
        then_view(then_view(t, f), g).settles(),
        then_view(t, h).settles(),
        then_view(then_view(t, f), g).landing() == then_view(t, h).landing(),
        then_view(t, h).landing() == bind(t.landing(), h.out),
{
    t.lemma_lead();
    lemma_then_settles(t, f);
    lemma_then_settles(then_view(t, f), g);
    lemma_then_settles(t, h);
}

/// Recovering a failure with a value gives the value: where the input
/// lands on an error that the handler resolves to `v`, the new task lands
/// on `v`.
pub proof fn lemma_recover_resolves<T, E, O>(
    t: TaskView<T, E>,
    k: Link<E, State<T, O>>,
    e: E,
    v: T,
)
    requires
        t.settles(),
        t.landing() == State::<T, E>::Reject(e),
        (k.out)(e) == State::<T, O>::Resolve(v),
    ensures
        recover_view(t, k).settles(),
        recover_view(t, k).landing() == State::<T, O>::Resolve(v),
        recover_view(t, k).landing().outcome() == Some(Ok::<T, O>(v)),
{
    lemma_recover_settles(t, k);
}

/// Recovering a task that succeeds changes nothing: the new task lands on
/// the value of the input, and the handler is not asked.
pub proof fn lemma_recover_passes<T, E, O>(t: TaskView<T, E>, k: Link<E, State<T, O>>, v: T)
    requires
        t.settles(),
        t.landing() == State::<T, E>::Resolve(v),
    ensures
        recover_view(t, k).settles(),
        recover_view(t, k).landing() == State::<T, O>::Resolve(v),
{
    lemma_recover_settles(t, k);
}

/// An error passes a continuation by: where the input lands on an error,
/// the task that continues it lands on the same error, whatever the
/// continuation is.
pub proof fn lemma_then_rejects<T, U, E>(t: TaskView<T, E>, k: Link<T, State<U, E>>, e: E)
    requires
        t.settles(),
        t.landing() == State::<T, E>::Reject(e),
    ensures
        then_view(t, k).settles(),
        then_view(t, k).landing() == State::<U, E>::Reject(e),
{
    lemma_then_settles(t, k);
}

/// The join of two tasks that succeed lands on the pair of their values,
/// at the step at which the later of the two lands.
pub proof fn lemma_join_both<T, U, E>(a: TaskView<T, E>, b: TaskView<U, E>, x: T, y: U)
    requires
        a.settles(),
        b.settles(),
        a.landing() == State::<T, E>::Resolve(x),
        b.landing() == State::<U, E>::Resolve(y),
    ensures
        join_view(a.unwatched(), b.unwatched()).settles(),
        join_view(a.unwatched(), b.unwatched()).landing() == State::<(T, U), E>::Resolve((x, y)),
        join_view(a.unwatched(), b.unwatched()).landing().outcome() == Some(
            Ok::<(T, U), E>((x, y)),
        ),
        join_view(a.unwatched(), b.unwatched()).lead() == if a.lead() >= b.lead() {
            a.lead()
        } else {
            b.lead()
        },
{
    let n = if a.lead() >= b.lead() {
        a.lead()
    } else {
        b.lead()
    };
    let au = a.unwatched();
    let bu = b.unwatched();
    a.lemma_unwatched();
    b.lemma_unwatched();
    assert forall|i: nat| i < n implies join_result(#[trigger] au.seen(i), bu.seen(i)) is Pending by {
        a.lemma_seen(i);
        b.lemma_seen(i);
    }
    a.lemma_seen(n);
    b.lemma_seen(n);
    lemma_join_lands(au, bu, n);
}

/// The join lands on the error of its first input where that input rejects
/// and the second has not shown an error at an earlier step.
pub proof fn lemma_join_first_rejects<T, U, E>(a: TaskView<T, E>, b: TaskView<U, E>, e: E)
    requires
        a.settles(),
        a.landing() == State::<T, E>::Reject(e),
        forall|i: nat| i < a.lead() ==> !(#[trigger] b.seen(i) is Reject),
    ensures
        join_view(a.unwatched(), b.unwatched()).settles(),
        join_view(a.unwatched(), b.unwatched()).landing() == State::<(T, U), E>::Reject(e),
        join_view(a.unwatched(), b.unwatched()).lead() == a.lead(),
{
    let n = a.lead();
    let au = a.unwatched();
    let bu = b.unwatched();
    a.lemma_unwatched();
    b.lemma_unwatched();
    assert forall|i: nat| i < n implies join_result(#[trigger] au.seen(i), bu.seen(i)) is Pending by {
        a.lemma_seen(i);
        assert(!(b.seen(i) is Reject));
    }
    a.lemma_seen(n);
    lemma_join_lands(au, bu, n);
}

/// The join lands on the error of its second input where that input
/// rejects and the first has not shown an error at that step or before.
pub proof fn lemma_join_second_rejects<T, U, E>(a: TaskView<T, E>, b: TaskView<U, E>, e: E)
    requires
        b.settles(),
        b.landing() == State::<U, E>::Reject(e),
        forall|i: nat| i <= b.lead() ==> !(#[trigger] a.seen(i) is Reject),
    ensures
        join_view(a.unwatched(), b.unwatched()).settles(),
        join_view(a.unwatched(), b.unwatched()).landing() == State::<(T, U), E>::Reject(e),
        join_view(a.unwatched(), b.unwatched()).lead() == b.lead(),
{
    let n = b.lead();
    let au = a.unwatched();
    let bu = b.unwatched();
    a.lemma_unwatched();
    b.lemma_unwatched();
    assert forall|i: nat| i < n implies join_result(#[trigger] au.seen(i), bu.seen(i)) is Pending by {
        b.lemma_seen(i);
        assert(!(a.seen(i) is Reject));
    }
    b.lemma_seen(n);
    assert(!(a.seen(n) is Reject));
    lemma_join_lands(au, bu, n);
}

/// How many of the first `n` steps hand a payload to the callback.
pub open spec fn fed_count(fed: spec_fn(nat) -> bool, n: nat) -> nat
    decreases n,
{
    if n == 0 {
        0
    } else {
        fed_count(fed, (n - 1) as nat) + if fed((n - 1) as nat) {
            1nat
        } else {
            0nat
        }
    }
}

/// The continuation of a task is handed a value at one step only: at the
/// step at which the input lands, where it lands on a value, and at no step
/// where it lands on anything else.
pub proof fn lemma_then_fed_where<T, E>(t: TaskView<T, E>)
    requires
        t.settles(),
    ensures
        forall|j: nat| #[trigger] then_fed(t, j) <==> (j == t.lead() && t.landing() is Resolve),
{
    assert forall|j: nat| #[trigger] then_fed(t, j) <==> (j == t.lead() && t.landing() is Resolve) by {
        t.lemma_after_shows(j);
    }
}

/// The handler of a task is handed an error at one step only: at the step
/// at which the input lands, where it lands on an error, and at no step
/// where it lands on anything else.
pub proof fn lemma_recover_fed_where<T, E>(t: TaskView<T, E>)
    requires
        t.settles(),
    ensures
        forall|j: nat| #[trigger] recover_fed(t, j) <==> (j == t.lead() && t.landing() is Reject),
{
    assert forall|j: nat| #[trigger] recover_fed(t, j) <==> (j == t.lead() && t.landing() is Reject) by {
        t.lemma_after_shows(j);
    }
}

/// However a task behaves, its continuation is handed a value at most
/// once: a step that hands one on leaves the input with its payload gone,
/// and no later step finds a value.
pub proof fn lemma_then_feeds_once<T, E>(t: TaskView<T, E>, i: nat, j: nat)
    requires
        i < j,
        then_fed(t, i),
    ensures
        !then_fed(t, j),
{
    t.lemma_after_succ(i);
    let b = t.after(i + 1);
    let m = (j - i - 1) as nat;
    t.lemma_after_add(i + 1, m);
    b.lemma_settled_stays(m);
}

/// However a task behaves, its handler is handed an error at most once.
pub proof fn lemma_recover_feeds_once<T, E>(t: TaskView<T, E>, i: nat, j: nat)
    requires
        i < j,
        recover_fed(t, i),
    ensures
        !recover_fed(t, j),
{
    t.lemma_after_succ(i);
    let b = t.after(i + 1);
    let m = (j - i - 1) as nat;
    t.lemma_after_add(i + 1, m);
    b.lemma_settled_stays(m);
}

/// Over any number of steps the continuation of a task is called once at
/// most.
pub proof fn lemma_then_called_once<T, E>(t: TaskView<T, E>, n: nat)
    ensures
        fed_count(|j: nat| then_fed(t, j), n) <= 1,
        fed_count(|j: nat| then_fed(t, j), n) == 1 ==> exists|i: nat| i < n && then_fed(t, i),
    decreases n,
{
    if n > 0 {
        let m = (n - 1) as nat;
        lemma_then_called_once(t, m);
        if then_fed(t, m) && fed_count(|j: nat| then_fed(t, j), m) == 1 {
            let i = choose|i: nat| i < m && then_fed(t, i);
            lemma_then_feeds_once(t, i, m);
        }
    }
}

/// Over any number of steps the handler of a task is called once at most.
pub proof fn lemma_recover_called_once<T, E>(t: TaskView<T, E>, n: nat)
    ensures
        fed_count(|j: nat| recover_fed(t, j), n) <= 1,
        fed_count(|j: nat| recover_fed(t, j), n) == 1 ==> exists|i: nat| i < n && recover_fed(t, i),
    decreases n,
{
    if n > 0 {
        let m = (n - 1) as nat;
        lemma_recover_called_once(t, m);
        if recover_fed(t, m) && fed_count(|j: nat| recover_fed(t, j), m) == 1 {
            let i = choose|i: nat| i < m && recover_fed(t, i);
            lemma_recover_feeds_once(t, i, m);
        }
    }
}

/// Of a callback for the value and one for the error behind it, one is
/// called and never both: where the input lands on a value, the first is
/// handed it at that step and the second is never called; where the input
/// lands on an error, the first is never called and the second is handed
/// the error at that step. The link `k` is that of the first callback and
/// resolves whatever it is handed.
pub proof fn lemma_one_of_two<T, U, E>(t: TaskView<T, E>, k: Link<T, State<U, E>>)
    requires
        t.settles(),
        t.landing().is_fresh(),
        forall|v: T| #[trigger] (k.out)(v) is Resolve,
    ensures
        t.landing() is Resolve ==> then_fed(t, t.lead()) && forall|j: nat|
            !#[trigger] recover_fed(then_view(t, k), j),
        t.landing() is Reject ==> recover_fed(then_view(t, k), t.lead()) && forall|j: nat|
            !#[trigger] then_fed(t, j),
{
    lemma_then_settles(t, k);
    lemma_then_fed_where(t);
    lemma_recover_fed_where(then_view(t, k));
    if t.landing() is Resolve {
        assert((k.out)(t.landing()->Resolve_0) is Resolve);
    }
}

} // verus!
