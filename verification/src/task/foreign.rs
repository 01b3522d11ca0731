use vstd::prelude::*;
use crate::task::state::State;
use crate::task::task::Task;

verus! {

/// What a pollable of another library says when it is polled: that it is
/// not ready, that it is ready with a value, or that it has failed.
#[derive(Clone, Copy, Debug, PartialEq, Eq)]
pub enum Polled<T, E> {
    /// No result yet.
    NotReady,
    /// Ready with a value.
    Ready(T),
    /// Failed with an error.
    Failed(E),
}

impl<T, E> State<T, E> {
    /// What a state stands for towards another library: `Pending` for
    /// "not ready", `Resolve` for "ready", `Reject` for "failed". A state
    /// whose payload is gone stands for nothing.
    pub open spec fn polled(self) -> Option<Polled<T, E>> {
        match self {
            State::Pending => Some(Polled::NotReady),
            State::Resolve(v) => Some(Polled::Ready(v)),
            State::Reject(e) => Some(Polled::Failed(e)),
            State::Resolved => None,
            State::Rejected => None,
        }
    }

    /// The state for what a pollable of another library has said: "not
    /// ready" is `Pending`, "ready" is `Resolve`, "failed" is `Reject`.
    pub fn from_polled(polled: Polled<T, E>) -> (r: Self)
        ensures
            r.polled() == Some(polled),
    {
        match polled {
            Polled::NotReady => State::Pending,
            Polled::Ready(v) => State::Resolve(v),
            Polled::Failed(e) => State::Reject(e),
        }
    }

    /// What the state stands for towards another library; nothing for a
    /// state whose payload is gone.
    pub fn into_polled(self) -> (r: Option<Polled<T, E>>)
        ensures
            r == self.polled(),
    {
        match self {
            State::Pending => Some(Polled::NotReady),
            State::Resolve(v) => Some(Polled::Ready(v)),
            State::Reject(e) => Some(Polled::Failed(e)),
            State::Resolved => None,
            State::Rejected => None,
        }
    }
}

impl<'a, T, E> Task<'a, T, E> {
    /// Takes one step and says, in the words of a pollable of another
    /// library, what the task then shows; the payload is taken out. Nothing
    /// is returned for a task whose payload was gone before: to poll it
    /// again is the caller's mistake.
    pub fn poll_foreign(&mut self) -> (r: Option<Polled<T, E>>)
        requires
            old(self).wf(),
        ensures
            final(self).wf(),
            final(self)@ == old(self)@.pulled(),
            r == old(self)@.next().state.polled(),
            old(self)@.next_attested(),
            old(self).heard_next(),
            final(self).hooks_as(old(self)),
            final(self).stepped_from(old(self)),
    {
        self.pull().into_polled()
    }
}

} // verus!
