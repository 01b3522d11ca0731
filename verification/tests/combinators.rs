use std::sync::atomic::AtomicUsize;
use std::sync::atomic::Ordering;
use std::sync::Arc;
use task_kit::runner::Executable;
use task_kit::task::foreign::Polled;
use task_kit::task::State;
use task_kit::task::Task;

fn count_to<'a>(n: u32) -> Task<'a, u32, ()> {
    let mut i = 0;
    Task::new(move || {
        i += 1;
        if i == n {
            State::Resolve(i)
        } else {
            State::Pending
        }
    })
}

#[test]
fn new_task_is_pending_and_calls_nothing() {
    let calls = Arc::new(AtomicUsize::new(0));
    let seen = calls.clone();
    let task: Task<u8, ()> = Task::new(move || {
        seen.fetch_add(1, Ordering::SeqCst);
        State::Resolve(1)
    });
    assert!(task.state().is_pending());
    assert_eq!(calls.load(Ordering::SeqCst), 0);
}

#[test]
fn polling_counter_steps_fifteen_times() {
    let mut i = 5;
    let mut steps = 0;
    let task: Task<_, ()> = Task::new(|| {
        steps += 1;
        i += 1;
        if i == 20 {
            return State::Resolve(i);
        }
        State::Pending
    });
    assert_eq!(task.wait(), Some(Ok(20)));
    assert_eq!(steps, 15);
}

#[test]
fn exec_is_idempotent_once_done() {
    let calls = Arc::new(AtomicUsize::new(0));
    let seen = calls.clone();
    let mut task: Task<u8, ()> = Task::new(move || {
        if seen.fetch_add(1, Ordering::SeqCst) == 2 {
            State::Resolve(9)
        } else {
            State::Pending
        }
    });
    assert!(!task.exec());
    assert!(!task.exec());
    assert!(task.exec());
    assert_eq!(calls.load(Ordering::SeqCst), 3);
    for _ in 0..5 {
        assert!(task.exec());
    }
    assert_eq!(calls.load(Ordering::SeqCst), 3);
    assert_eq!(*task.state(), State::Resolve(9));
}

#[test]
fn states_follow_the_lifecycle() {
    let mut n = 0;
    let mut task: Task<u8, ()> = Task::new(move || {
        n += 1;
        if n == 3 {
            State::Resolve(n)
        } else {
            State::Pending
        }
    });
    assert_eq!(*task.state(), State::Pending);
    task.exec();
    assert_eq!(*task.state(), State::Pending);
    task.exec();
    assert_eq!(*task.state(), State::Pending);
    task.exec();
    assert_eq!(*task.state(), State::Resolve(3));
    assert_eq!(task.poll(), Some(Ok(3)));
    assert_eq!(*task.state(), State::Resolved);
    assert_eq!(task.poll(), None);
    assert_eq!(*task.state(), State::Resolved);
}

#[test]
fn poll_gives_nothing_while_pending() {
    let mut task = count_to(3);
    assert_eq!(task.poll(), None);
    assert_eq!(task.poll(), None);
    assert_eq!(task.poll(), Some(Ok(3)));
    assert_eq!(task.poll(), None);
}

#[test]
fn poll_gives_the_error() {
    let mut task: Task<u8, &str> = Task::new(|| State::Reject("boom"));
    assert_eq!(task.poll(), Some(Err("boom")));
    assert_eq!(*task.state(), State::Rejected);
}

#[test]
fn from_value_waits_to_the_value() {
    let task: Task<u32, ()> = Task::from(11);
    assert_eq!(task.wait(), Some(Ok(11)));
}

#[test]
fn from_value_is_resolved_after_its_first_poll() {
    let mut task: Task<u32, ()> = Task::from(11);
    assert!(task.state().is_pending());
    assert_eq!(task.poll(), Some(Ok(11)));
    assert_eq!(task.poll(), None);
    assert!(task.state().is_resolved());
}

#[test]
fn with_calls_the_producer_once() {
    let mut calls = 0;
    let task: Task<u32, ()> = Task::with(|| {
        calls += 1;
        40 + 2
    });
    assert_eq!(task.wait(), Some(Ok(42)));
    assert_eq!(calls, 1);
}

#[test]
fn map_applies_to_the_value() {
    let task: Task<u32, ()> = count_to(4).map(|v| v * 10);
    assert_eq!(task.wait(), Some(Ok(40)));
}

#[test]
fn map_identity_changes_nothing() {
    assert_eq!(count_to(6).map(|v| v).wait(), count_to(6).wait());
    let failing: Task<u32, &str> = Task::new(|| State::Reject("no"));
    let plain: Task<u32, &str> = Task::new(|| State::Reject("no"));
    assert_eq!(failing.map(|v| v).wait(), plain.wait());
}

#[test]
fn map_twice_is_map_of_the_composition() {
    let twice = count_to(5).map(|v| v + 1).map(|v| v * 3).wait();
    let once = count_to(5).map(|v| (v + 1) * 3).wait();
    assert_eq!(twice, Some(Ok(18)));
    assert_eq!(twice, once);
}

#[test]
fn map_passes_an_error_by() {
    let mut called = false;
    let task: Task<u32, &str> = Task::new(|| State::Reject("no"));
    let out = task
        .map(|v: u32| {
            called = true;
            v
        })
        .wait();
    assert_eq!(out, Some(Err("no")));
    assert!(!called);
}

#[test]
fn combinators_are_lazy() {
    let steps = Arc::new(AtomicUsize::new(0));
    let calls = Arc::new(AtomicUsize::new(0));
    let make = |steps: Arc<AtomicUsize>| -> Task<'static, u32, u32> {
        Task::new(move || {
            steps.fetch_add(1, Ordering::SeqCst);
            State::Resolve(1)
        })
    };
    let c1 = calls.clone();
    let mapped = make(steps.clone()).map(move |v| {
        c1.fetch_add(1, Ordering::SeqCst);
        v
    });
    let c2 = calls.clone();
    let chained = make(steps.clone()).then(move |v| {
        c2.fetch_add(1, Ordering::SeqCst);
        State::Resolve(v)
    });
    let c3 = calls.clone();
    let recovered = make(steps.clone()).recover(move |e| {
        c3.fetch_add(1, Ordering::SeqCst);
        State::<u32, u32>::Reject(e)
    });
    let joined = make(steps.clone()).join(make(steps.clone()));
    assert!(mapped.state().is_pending());
    assert!(chained.state().is_pending());
    assert!(recovered.state().is_pending());
    assert!(joined.state().is_pending());
    assert_eq!(steps.load(Ordering::SeqCst), 0);
    assert_eq!(calls.load(Ordering::SeqCst), 0);
}

#[test]
fn chained_arithmetic_gives_seven() {
    let task: Task<_, ()> = Task::new(|| State::Resolve(1))
        .then(|n| State::Resolve(n + 1))
        .then(|n| State::Resolve(n + 2))
        .then(|n| State::Resolve(n + 3));
    assert_eq!(task.wait(), Some(Ok(7)));
}

#[test]
fn then_may_reject() {
    let task: Task<u32, &str> = Task::from(3);
    let out: Option<Result<u32, &str>> = task.then(|_| State::Reject("late")).wait();
    assert_eq!(out, Some(Err("late")));
}

#[test]
fn done_resolves_to_unit() {
    let mut seen = 0;
    let task: Task<u32, ()> = Task::from(5);
    let out = task.done(|v| seen = v).wait();
    assert_eq!(out, Some(Ok(())));
    assert_eq!(seen, 5);
}

#[test]
fn recover_turns_an_error_into_a_value() {
    let task: Task<u32, &str> = Task::new(|| State::Reject("e"));
    let out: Option<Result<u32, ()>> = task.recover(|_| State::Resolve(8)).wait();
    assert_eq!(out, Some(Ok(8)));
}

#[test]
fn recover_passes_a_value_by() {
    let mut called = false;
    let task: Task<u32, &str> = Task::from(3);
    let out: Option<Result<u32, ()>> = task
        .recover(|_| {
            called = true;
            State::Resolve(8)
        })
        .wait();
    assert_eq!(out, Some(Ok(3)));
    assert!(!called);
}

#[test]
fn error_propagation_skips_the_continuation() {
    let mut continued = false;
    let task: Task<i32, &str> = Task::new(|| State::Reject("boom"));
    let out: Option<Result<i32, ()>> = task
        .then(|v| {
            continued = true;
            State::Resolve(v + 1)
        })
        .recover(|_| State::Resolve(0))
        .wait();
    assert_eq!(out, Some(Ok(0)));
    assert!(!continued);
}

#[test]
fn catch_shows_the_error_and_rejects_with_unit() {
    let mut seen = "";
    let task: Task<u32, &str> = Task::new(|| State::Reject("e"));
    let out = task.catch(|e| seen = e).wait();
    assert_eq!(out, Some(Err(())));
    assert_eq!(seen, "e");
}

#[test]
fn catch_passes_a_value_by() {
    let task: Task<u32, &str> = Task::from(3);
    assert_eq!(task.catch(|_| ()).wait(), Some(Ok(3)));
}

#[test]
fn join_of_two_counters() {
    let task = count_to(1000).join(count_to(2000)).map(|(a, b)| a * b);
    assert_eq!(task.wait(), Some(Ok(2_000_000)));
}

#[test]
fn join_gives_both_values() {
    let a: Task<u32, ()> = count_to(3);
    let b: Task<&str, ()> = Task::from("x");
    assert_eq!(a.join(b).wait(), Some(Ok((3, "x"))));
}

#[test]
fn join_steps_both_inputs_each_step() {
    let left = Arc::new(AtomicUsize::new(0));
    let right = Arc::new(AtomicUsize::new(0));
    let l = left.clone();
    let r = right.clone();
    let a: Task<u32, ()> = Task::new(move || {
        if l.fetch_add(1, Ordering::SeqCst) == 1 {
            State::Resolve(1)
        } else {
            State::Pending
        }
    });
    let b: Task<u32, ()> = Task::new(move || {
        if r.fetch_add(1, Ordering::SeqCst) == 3 {
            State::Resolve(2)
        } else {
            State::Pending
        }
    });
    let mut both = a.join(b);
    assert_eq!(both.poll(), None);
    assert_eq!(left.load(Ordering::SeqCst), 1);
    assert_eq!(right.load(Ordering::SeqCst), 1);
    assert_eq!(both.poll(), None);
    assert_eq!(both.poll(), None);
    assert_eq!(both.poll(), Some(Ok((1, 2))));
    assert_eq!(left.load(Ordering::SeqCst), 2);
    assert_eq!(right.load(Ordering::SeqCst), 4);
}

#[test]
fn join_rejects_with_the_first_error_seen() {
    let a: Task<u32, &str> = Task::new(|| State::Reject("left"));
    let b: Task<u32, &str> = Task::new(|| State::Reject("right"));
    assert_eq!(a.join(b).wait(), Some(Err("left")));

    let mut n = 0;
    let slow: Task<u32, &str> = Task::new(move || {
        n += 1;
        if n == 3 {
            State::Reject("slow")
        } else {
            State::Pending
        }
    });
    let quick: Task<u32, &str> = Task::new(|| State::Reject("quick"));
    assert_eq!(slow.join(quick).wait(), Some(Err("quick")));

    let ok: Task<u32, &str> = Task::from(1);
    let bad: Task<u32, &str> = Task::new(|| State::Reject("bad"));
    assert_eq!(ok.join(bad).wait(), Some(Err("bad")));
}

#[test]
fn join_removes_the_hooks_of_its_inputs() {
    let mut seen = 0;
    let a: Task<u32, ()> = Task::from(1);
    let b: Task<u32, ()> = Task::from(2);
    let out = a.finally(|_| seen += 1).join(b).wait();
    assert_eq!(out, Some(Ok((1, 2))));
    assert_eq!(seen, 0);
}

#[test]
fn comparisons_join_and_compare() {
    let t = |v: u32| -> Task<'static, u32, ()> { Task::from(v) };
    assert_eq!(t(1).eq(t(1)).wait(), Some(Ok(true)));
    assert_eq!(t(1).eq(t(2)).wait(), Some(Ok(false)));
    assert_eq!(t(1).ne(t(2)).wait(), Some(Ok(true)));
    assert_eq!(t(1).ne(t(1)).wait(), Some(Ok(false)));
    assert_eq!(t(1).lt(t(2)).wait(), Some(Ok(true)));
    assert_eq!(t(2).lt(t(2)).wait(), Some(Ok(false)));
    assert_eq!(t(2).le(t(2)).wait(), Some(Ok(true)));
    assert_eq!(t(3).le(t(2)).wait(), Some(Ok(false)));
    assert_eq!(t(3).gt(t(2)).wait(), Some(Ok(true)));
    assert_eq!(t(2).gt(t(2)).wait(), Some(Ok(false)));
    assert_eq!(t(2).ge(t(2)).wait(), Some(Ok(true)));
    assert_eq!(t(1).ge(t(2)).wait(), Some(Ok(false)));
}

#[test]
fn comparison_short_circuits_on_error() {
    let a: Task<u32, &str> = Task::new(|| State::Reject("no"));
    let b: Task<u32, &str> = Task::from(1);
    assert_eq!(a.eq(b).wait(), Some(Err("no")));
}

#[test]
fn finally_hook_fires_once_with_the_value() {
    let mut record: Vec<i32> = Vec::new();
    let task: Task<i32, ()> = Task::new(|| State::Resolve(1));
    let out = task.finally(|v| record.push(*v)).wait();
    assert_eq!(out, Some(Ok(1)));
    assert_eq!(record, vec![1]);
}

#[test]
fn hooks_fire_at_most_once_and_never_both() {
    let ok = Arc::new(AtomicUsize::new(0));
    let err = Arc::new(AtomicUsize::new(0));
    let o = ok.clone();
    let e = err.clone();
    let mut n = 0;
    let task: Task<u32, u32> = Task::new(move || {
        n += 1;
        if n == 2 {
            State::Reject(n)
        } else {
            State::Pending
        }
    });
    let mut task = task
        .finally(move |_| {
            o.fetch_add(1, Ordering::SeqCst);
        })
        .on_reject(move |_| {
            e.fetch_add(1, Ordering::SeqCst);
        });
    for _ in 0..6 {
        task.exec();
    }
    assert_eq!(ok.load(Ordering::SeqCst), 0);
    assert_eq!(err.load(Ordering::SeqCst), 1);
    assert_eq!(*task.state(), State::Reject(2));
}

#[test]
fn a_later_hook_takes_the_place_of_an_earlier_one() {
    let mut first = 0;
    let mut second = 0;
    let task: Task<u32, ()> = Task::from(1);
    task.finally(|_| first += 1).finally(|_| second += 1).wait();
    assert_eq!(first, 0);
    assert_eq!(second, 1);
}

#[test]
fn task_is_executable() {
    let mut task = count_to(3);
    let exe: &mut dyn Executable = &mut task;
    assert!(!exe.exec());
    assert!(!exe.exec());
    assert!(exe.exec());
    assert!(exe.exec());
}

#[test]
fn closure_is_executable() {
    let mut n = 0;
    let mut work = move || {
        n += 1;
        n >= 2
    };
    assert!(!Executable::exec(&mut work));
    assert!(Executable::exec(&mut work));
}

#[test]
fn poll_foreign_speaks_of_readiness() {
    let mut task = count_to(2);
    assert_eq!(task.poll_foreign(), Some(Polled::NotReady));
    assert_eq!(task.poll_foreign(), Some(Polled::Ready(2)));
    assert_eq!(task.poll_foreign(), None);
    let mut bad: Task<u32, &str> = Task::new(|| State::Reject("e"));
    assert_eq!(bad.poll_foreign(), Some(Polled::Failed("e")));
    assert_eq!(bad.poll_foreign(), None);
}

#[test]
fn done_and_catch_call_one_of_the_two() {
    let seen_ok = Arc::new(AtomicUsize::new(0));
    let seen_err = Arc::new(AtomicUsize::new(0));
    let run = |start: State<u32, &'static str>| {
        let ok = seen_ok.clone();
        let err = seen_err.clone();
        let mut n = 0;
        let task: Task<u32, &str> = Task::new(move || {
            n += 1;
            if n == 3 {
                start
            } else {
                State::Pending
            }
        });
        let mut both = task
            .done(move |_| {
                ok.fetch_add(1, Ordering::SeqCst);
            })
            .catch(move |_| {
                err.fetch_add(1, Ordering::SeqCst);
            });
        for _ in 0..8 {
            both.exec();
        }
    };
    run(State::Resolve(1));
    assert_eq!(seen_ok.load(Ordering::SeqCst), 1);
    assert_eq!(seen_err.load(Ordering::SeqCst), 0);
    run(State::Reject("no"));
    assert_eq!(seen_ok.load(Ordering::SeqCst), 1);
    assert_eq!(seen_err.load(Ordering::SeqCst), 1);
}

#[test]
fn recover_handler_is_called_once_with_the_error() {
    let mut errors: Vec<&str> = Vec::new();
    let task: Task<i32, &str> = Task::new(|| State::Reject("boom"));
    let out: Option<Result<i32, ()>> = task
        .then(|v| State::Resolve(v + 1))
        .recover(|e| {
            errors.push(e);
            State::Resolve(0)
        })
        .wait();
    assert_eq!(out, Some(Ok(0)));
    assert_eq!(errors, vec!["boom"]);
}
