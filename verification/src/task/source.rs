use vstd::prelude::*;
use crate::task::state::State;
use crate::task::step::{answers, single_valued, value_of, Step};

verus! {

/// The stepper of a task that is made from a value: its first step gives
/// the value, every later one finds it gone.
pub struct Ready<T> {
    pub val: Option<T>,
}

impl<T: Send + Sync, E> Step<T, E> for Ready<T> {
    open spec fn inv(&self) -> bool {
        true
    }

    open spec fn outcome(&self, k: nat) -> State<T, E> {
        match self.val {
            Some(v) => if k == 0 {
                State::Resolve(v)
            } else {
                State::Resolved
            },
            None => State::Resolved,
        }
    }

    open spec fn attested(&self, k: nat) -> bool {
        true
    }

    open spec fn fed(&self, k: nat) -> bool {
        false
    }

    open spec fn calls(&self) -> nat {
        0
    }

    fn step(&mut self) -> (s: State<T, E>) {
        match self.val.take() {
            Some(v) => State::Resolve(v),
            None => State::Resolved,
        }
    }
}

/// The stepper of a task that is made from a producer of values: each step
/// resolves to what the producer returns.
pub struct Produce<F> {
    pub make: F,
}

impl<T, E, F: FnMut() -> T + Send + Sync> Step<T, E> for Produce<F> {
    open spec fn inv(&self) -> bool {
        call_requires(self.make, ()) && single_valued::<(), T, F>(self.make)
    }

    open spec fn outcome(&self, k: nat) -> State<T, E> {
        State::Resolve(value_of::<(), T, F>(self.make, ()))
    }

    open spec fn attested(&self, k: nat) -> bool {
        answers::<(), T, F>(self.make, ())
    }

    open spec fn fed(&self, k: nat) -> bool {
        false
    }

    open spec fn calls(&self) -> nat {
        0
    }

    fn step(&mut self) -> (s: State<T, E>) {
        let v = (self.make)();
        State::Resolve(v)
    }
}

} // verus!
