use vstd::prelude::*;
use crate::task::step::{answers, single_valued, value_of};
use crate::task::task::Task;

verus! {

/// Something that a runner can drive: it is stepped until it says that it
/// is done.
///
/// Implement it for a type of your own to hand values of that type to a
/// runner.
pub trait Executable: Send + Sync {
    /// What has to hold for a step to be taken.
    spec fn ready(&self) -> bool;

    /// The work is done: no further step does anything.
    spec fn settled(&self) -> bool;

    /// The work does not go on for ever: it is done after finitely many
    /// steps, of which `steps_left` is a bound.
    spec fn bounded(&self) -> bool;

    /// How many steps are still needed, where their number is bounded.
    spec fn steps_left(&self) -> nat;

    /// Takes one step of the work and returns whether the work is done.
    fn exec(&mut self) -> (done: bool)
        requires
            old(self).ready(),
        ensures
            final(self).ready(),
            done == final(self).settled(),
            old(self).settled() ==> done,
            old(self).bounded() ==> final(self).bounded(),
            old(self).bounded() && !done ==> final(self).steps_left() < old(self).steps_left(),
    ;
}

/// A closure that returns whether its work is done can be driven as it
/// is. It is taken to give the same answer at every step, so it counts as
/// done where that answer is `true`.
impl<F: FnMut() -> bool + Send + Sync> Executable for F {
    open spec fn ready(&self) -> bool {
        call_requires(*self, ()) && single_valued::<(), bool, F>(*self)
    }

    open spec fn settled(&self) -> bool {
        value_of::<(), bool, F>(*self, ())
    }

    open spec fn bounded(&self) -> bool {
        answers::<(), bool, F>(*self, ()) ==> value_of::<(), bool, F>(*self, ())
    }

    open spec fn steps_left(&self) -> nat {
        1
    }

    fn exec(&mut self) -> (done: bool) {
        let done = self();
        done
    }
}

impl<'a, T: Send + Sync, E: Send + Sync> Executable for Task<'a, T, E> {
    open spec fn ready(&self) -> bool {
        self.wf()
    }

    open spec fn settled(&self) -> bool {
        self@.done()
    }

    open spec fn bounded(&self) -> bool {
        self@.bounded()
    }

    open spec fn steps_left(&self) -> nat {
        self@.reach()
    }

    fn exec(&mut self) -> (done: bool) {
        let done = Task::exec(self);
        proof {
            if old(self)@.bounded() && !done {
                old(self)@.lemma_next_reach();
            }
        }
        done
    }
}

} // verus!
