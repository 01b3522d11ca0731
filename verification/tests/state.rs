use task_kit::task::foreign::Polled;
use task_kit::task::State;

type S = State<i32, &'static str>;

fn all() -> Vec<S> {
    vec![
        State::Pending,
        State::Resolve(7),
        State::Resolved,
        State::Reject("bad"),
        State::Rejected,
    ]
}

#[test]
fn predicates_tell_the_five_states_apart() {
    let flags: Vec<[bool; 5]> = all()
        .iter()
        .map(|s| {
            [
                s.is_pending(),
                s.is_resolve(),
                s.is_resolved(),
                s.is_reject(),
                s.is_rejected(),
            ]
        })
        .collect();
    assert_eq!(flags[0], [true, false, false, false, false]);
    assert_eq!(flags[1], [false, true, false, false, false]);
    assert_eq!(flags[2], [false, false, true, false, false]);
    assert_eq!(flags[3], [false, false, false, true, false]);
    assert_eq!(flags[4], [false, false, false, false, true]);
}

#[test]
fn resolve_and_reject_give_the_payload_only() {
    let values: Vec<Option<i32>> = all().into_iter().map(|s| s.resolve()).collect();
    assert_eq!(values, vec![None, Some(7), None, None, None]);
    let errors: Vec<Option<&str>> = all().into_iter().map(|s| s.reject()).collect();
    assert_eq!(errors, vec![None, None, None, Some("bad"), None]);
}

#[test]
fn into_result_collapses_to_three_outcomes() {
    let results: Vec<Option<Result<i32, &str>>> =
        all().into_iter().map(|s| s.into_result()).collect();
    assert_eq!(results, vec![None, Some(Ok(7)), None, Some(Err("bad")), None]);
}

#[test]
fn as_ref_borrows_the_payload() {
    let s: S = State::Resolve(7);
    assert_eq!(s.as_ref(), State::Resolve(&7));
    let e: S = State::Reject("bad");
    assert_eq!(e.as_ref(), State::Reject(&"bad"));
    let p: S = State::Pending;
    assert_eq!(p.as_ref(), State::Pending);
    let r: S = State::Resolved;
    assert_eq!(r.as_ref(), State::Resolved);
    let j: S = State::Rejected;
    assert_eq!(j.as_ref(), State::Rejected);
}

#[test]
fn as_mut_writes_through() {
    let mut s: S = State::Resolve(7);
    if let State::Resolve(v) = s.as_mut() {
        *v = 8;
    }
    assert_eq!(s, State::Resolve(8));
    let mut e: S = State::Reject("bad");
    if let State::Reject(x) = e.as_mut() {
        *x = "worse";
    }
    assert_eq!(e, State::Reject("worse"));
    let mut p: S = State::Pending;
    assert!(matches!(p.as_mut(), State::Pending));
    assert_eq!(p, State::Pending);
}

#[test]
fn map_touches_the_value_only() {
    let mapped: Vec<State<i32, &str>> = all().into_iter().map(|s| s.map(|v| v * 2)).collect();
    assert_eq!(
        mapped,
        vec![
            State::Pending,
            State::Resolve(14),
            State::Resolved,
            State::Reject("bad"),
            State::Rejected
        ]
    );
}

#[test]
fn map_err_touches_the_error_only() {
    let mapped: Vec<State<i32, usize>> =
        all().into_iter().map(|s| s.map_err(|e| e.len())).collect();
    assert_eq!(
        mapped,
        vec![
            State::Pending,
            State::Resolve(7),
            State::Resolved,
            State::Reject(3),
            State::Rejected
        ]
    );
}

#[test]
fn and_short_circuits_on_error() {
    let other: State<u8, &str> = State::Resolve(1);
    let out: Vec<State<u8, &str>> = all().into_iter().map(|s| s.and(other)).collect();
    assert_eq!(
        out,
        vec![
            State::Pending,
            State::Resolve(1),
            State::Resolved,
            State::Reject("bad"),
            State::Rejected
        ]
    );
}

#[test]
fn and_hands_on_whatever_follows_a_value() {
    let s: S = State::Resolve(7);
    assert_eq!(s.and(State::<u8, &str>::Pending), State::Pending);
    assert_eq!(s.and(State::<u8, &str>::Reject("next")), State::Reject("next"));
    let p: S = State::Pending;
    assert_eq!(p.and(State::<i32, &str>::Resolve(1)), State::Pending);
}

#[test]
fn and_then_continues_a_value() {
    let out: Vec<State<i32, &str>> = all()
        .into_iter()
        .map(|s| s.and_then(|v| if v > 5 { State::Reject("big") } else { State::Resolve(v) }))
        .collect();
    assert_eq!(
        out,
        vec![
            State::Pending,
            State::Reject("big"),
            State::Resolved,
            State::Reject("bad"),
            State::Rejected
        ]
    );
}

#[test]
fn or_short_circuits_on_value() {
    let other: State<i32, u8> = State::Reject(9);
    let out: Vec<State<i32, u8>> = all().into_iter().map(|s| s.or(other)).collect();
    assert_eq!(
        out,
        vec![
            State::Pending,
            State::Resolve(7),
            State::Resolved,
            State::Reject(9),
            State::Rejected
        ]
    );
}

#[test]
fn or_hands_on_whatever_follows_an_error() {
    let e: S = State::Reject("bad");
    assert_eq!(e.or(State::<i32, u8>::Resolve(1)), State::Resolve(1));
    assert_eq!(e.or(State::<i32, u8>::Pending), State::Pending);
    let r: State<i32, i32> = State::Resolved;
    assert_eq!(r.or(State::<i32, u8>::Reject(3)), State::Resolved);
}

#[test]
fn or_else_continues_an_error() {
    let out: Vec<State<i32, usize>> = all()
        .into_iter()
        .map(|s| s.or_else(|e| State::Resolve(e.len() as i32)))
        .collect();
    assert_eq!(
        out,
        vec![
            State::Pending,
            State::Resolve(7),
            State::Resolved,
            State::Resolve(3),
            State::Rejected
        ]
    );
}

#[test]
fn unwrap_or_family_falls_back() {
    let a: Vec<i32> = all().into_iter().map(|s| s.unwrap_or(1)).collect();
    assert_eq!(a, vec![1, 7, 1, 1, 1]);
    let b: Vec<i32> = all().into_iter().map(|s| s.unwrap_or_else(|| 2)).collect();
    assert_eq!(b, vec![2, 7, 2, 2, 2]);
    let c: Vec<i32> = all().into_iter().map(|s| s.unwrap_or_default()).collect();
    assert_eq!(c, vec![0, 7, 0, 0, 0]);
}

#[test]
fn unwrap_or_else_does_not_call_on_a_value() {
    let mut called = false;
    let s: S = State::Resolve(7);
    let v = s.unwrap_or_else(|| {
        called = true;
        0
    });
    assert_eq!(v, 7);
    assert!(!called);
}

#[test]
fn take_on_resolve_returns_it_and_leaves_resolved() {
    let mut s: S = State::Resolve(7);
    let taken = s.take();
    assert_eq!(taken, State::Resolve(7));
    assert_eq!(s, State::Resolved);
}

#[test]
fn take_on_reject_returns_it_and_leaves_rejected() {
    let mut s: S = State::Reject("bad");
    let taken = s.take();
    assert_eq!(taken, State::Reject("bad"));
    assert_eq!(s, State::Rejected);
}

#[test]
fn take_leaves_the_other_states_alone() {
    for start in [State::Pending, State::Resolved, State::Rejected] {
        let mut s: S = start;
        let taken = s.take();
        assert_eq!(taken, start);
        assert_eq!(s, start);
    }
}

#[test]
fn take_twice_finds_the_payload_gone() {
    let mut s: S = State::Resolve(7);
    s.take();
    assert_eq!(s.take(), State::Resolved);
    assert_eq!(s, State::Resolved);
}

#[test]
fn unwrap_and_expect_give_the_payload() {
    let s: S = State::Resolve(7);
    assert_eq!(s.unwrap(), 7);
    assert_eq!(s.expect("a value"), 7);
    let e: S = State::Reject("bad");
    assert_eq!(e.unwrap_reject(), "bad");
    assert_eq!(e.expect_reject("an error"), "bad");
}

#[test]
fn clone_keeps_kind_and_payload() {
    let s: State<String, String> = State::Resolve(String::from("v"));
    assert_eq!(State::clone(s), State::Resolve(String::from("v")));
    let e: State<String, String> = State::Reject(String::from("e"));
    assert_eq!(State::clone(e), State::Reject(String::from("e")));
    let p: State<String, String> = State::Pending;
    assert_eq!(State::clone(p), State::Pending);
}

#[test]
fn clone_from_overwrites() {
    let mut s: State<String, String> = State::Pending;
    s.clone_from(&State::Reject(String::from("e")));
    assert_eq!(s, State::Reject(String::from("e")));
    s.clone_from(&State::Resolved);
    assert_eq!(s, State::Resolved);
}

#[test]
fn from_lifts_a_value() {
    let s: S = State::from(3);
    assert_eq!(s, State::Resolve(3));
}

#[test]
fn polled_maps_both_ways() {
    let a: S = State::from_polled(Polled::NotReady);
    assert_eq!(a, State::Pending);
    let b: S = State::from_polled(Polled::Ready(4));
    assert_eq!(b, State::Resolve(4));
    let c: S = State::from_polled(Polled::Failed("bad"));
    assert_eq!(c, State::Reject("bad"));
    let back: Vec<Option<Polled<i32, &str>>> =
        all().into_iter().map(|s| s.into_polled()).collect();
    assert_eq!(
        back,
        vec![
            Some(Polled::NotReady),
            Some(Polled::Ready(7)),
            None,
            Some(Polled::Failed("bad")),
            None
        ]
    );
}
