use vstd::prelude::*;

verus! {

/// The lifecycle of one task result.
///
/// A state starts as `Pending`, settles once to `Resolve` or `Reject`, and
/// moves on to `Resolved` or `Rejected` when the payload is taken out.
#[derive(Clone, Copy, Debug, PartialEq, PartialOrd, Eq, Ord, Hash)]
pub enum State<T, E> {
    /// Not settled yet; the step has to be tried again.
    Pending,
    /// Settled with a value that nobody has taken yet.
    Resolve(T),
    /// Settled with a value that has been taken out.
    Resolved,
    /// Settled with an error that nobody has taken yet.
    Reject(E),
    /// Settled with an error that has been taken out.
    Rejected,
}

impl<T, E> State<T, E> {
    /// The state that is left behind once the payload has been taken out:
    /// `Resolve` becomes `Resolved`, `Reject` becomes `Rejected`, and the
    /// three states without a payload stay as they are.
    pub open spec fn emptied(self) -> State<T, E> {
        match self {
            State::Pending => State::Pending,
            State::Resolve(_) => State::Resolved,
            State::Resolved => State::Resolved,
            State::Reject(_) => State::Rejected,
            State::Rejected => State::Rejected,
        }
    }

    /// The payload of a state as a result: success for `Resolve`, failure
    /// for `Reject`, nothing for the three states without a payload.
    pub open spec fn outcome(self) -> Option<Result<T, E>> {
        match self {
            State::Resolve(r) => Some(Ok(r)),
            State::Reject(e) => Some(Err(e)),
            _ => None,
        }
    }

    /// `later` may be shown after `self` in the life of one task.
    pub open spec fn gives_way_to(self, later: State<T, E>) -> bool {
        match self {
            State::Pending => later is Pending || later.is_fresh(),
            State::Resolve(_) => later == self || later is Resolved,
            State::Resolved => later is Resolved,
            State::Reject(_) => later == self || later is Rejected,
            State::Rejected => later is Rejected,
        }
    }

    /// Whether the state carries a payload.
    pub open spec fn is_fresh(self) -> bool {
        self is Resolve || self is Reject
    }

    /// Where a state stands in its lifecycle: 0 while pending, 1 while it
    /// holds a payload, 2 once the payload is gone.
    pub open spec fn stage(self) -> nat {
        match self {
            State::Pending => 0,
            State::Resolve(_) => 1,
            State::Reject(_) => 1,
            State::Resolved => 2,
            State::Rejected => 2,
        }
    }

    /// True exactly for `Pending`.
    pub fn is_pending(&self) -> (r: bool)
        ensures
            r == (*self is Pending),
    {
        match self {
            State::Pending => true,
            _ => false,
        }
    }

    /// True exactly for `Resolve`.
    pub fn is_resolve(&self) -> (r: bool)
        ensures
            r == (*self is Resolve),
    {
        match self {
            State::Resolve(_) => true,
            _ => false,
        }
    }

    /// True exactly for `Resolved`.
    pub fn is_resolved(&self) -> (r: bool)
        ensures
            r == (*self is Resolved),
    {
        match self {
            State::Resolved => true,
            _ => false,
        }
    }

    /// True exactly for `Reject`.
    pub fn is_reject(&self) -> (r: bool)
        ensures
            r == (*self is Reject),
    {
        match self {
            State::Reject(_) => true,
            _ => false,
        }
    }

    /// True exactly for `Rejected`.
    pub fn is_rejected(&self) -> (r: bool)
        ensures
            r == (*self is Rejected),
    {
        match self {
            State::Rejected => true,
            _ => false,
        }
    }

    /// The value of a `Resolve`, nothing for every other state.
    pub fn resolve(self) -> (r: Option<T>)
        ensures
            r == (match self {
                State::Resolve(v) => Some(v),
                _ => None,
            }),
    {
        match self {
            State::Resolve(v) => Some(v),
            _ => None,
        }
    }

    /// The error of a `Reject`, nothing for every other state.
    pub fn reject(self) -> (r: Option<E>)
        ensures
            r == (match self {
                State::Reject(e) => Some(e),
                _ => None,
            }),
    {
        match self {
            State::Reject(e) => Some(e),
            _ => None,
        }
    }

    /// The same state with its payload borrowed.
    pub fn as_ref(&self) -> (r: State<&T, &E>)
        ensures
            r == (match *self {
                State::Pending => State::<&T, &E>::Pending,
                State::Resolve(v) => State::Resolve(&v),
                State::Resolved => State::Resolved,
                State::Reject(e) => State::Reject(&e),
                State::Rejected => State::Rejected,
            }),
    {
        match self {
            State::Pending => State::Pending,
            State::Resolve(v) => State::Resolve(v),
            State::Resolved => State::Resolved,
            State::Reject(e) => State::Reject(e),
            State::Rejected => State::Rejected,
        }
    }

    /// Success for `Resolve`, failure for `Reject`, nothing otherwise.
    pub fn into_result(self) -> (r: Option<Result<T, E>>)
        ensures
            r == self.outcome(),
    {
        match self {
            State::Pending => None,
            State::Resolve(v) => Some(Ok(v)),
            State::Resolved => None,
            State::Reject(e) => Some(Err(e)),
            State::Rejected => None,
        }
    }

    /// Applies `op` to the value of a `Resolve`; every other state passes
    /// through unchanged and `op` is not called.
    pub fn map<U, F>(self, op: F) -> (r: State<U, E>) where F: FnOnce(T) -> U
        requires
            self is Resolve ==> call_requires(op, (self->Resolve_0,)),
        ensures
            match self {
                State::Pending => r is Pending,
                State::Resolve(v) => r is Resolve && call_ensures(op, (v,), r->Resolve_0),
                State::Resolved => r is Resolved,
                State::Reject(e) => r == State::<U, E>::Reject(e),
                State::Rejected => r is Rejected,
            },
    {
        match self {
            State::Pending => State::Pending,
            State::Resolve(v) => State::Resolve(op(v)),
            State::Resolved => State::Resolved,
            State::Reject(e) => State::Reject(e),
            State::Rejected => State::Rejected,
        }
    }

    /// Applies `op` to the error of a `Reject`; every other state passes
    /// through unchanged and `op` is not called.
    pub fn map_err<F, O>(self, op: F) -> (r: State<T, O>) where F: FnOnce(E) -> O
        requires
            self is Reject ==> call_requires(op, (self->Reject_0,)),
        ensures
            match self {
                State::Pending => r is Pending,
                State::Resolve(v) => r == State::<T, O>::Resolve(v),
                State::Resolved => r is Resolved,
                State::Reject(e) => r is Reject && call_ensures(op, (e,), r->Reject_0),
                State::Rejected => r is Rejected,
            },
    {
        match self {
            State::Pending => State::Pending,
            State::Resolve(v) => State::Resolve(v),
            State::Resolved => State::Resolved,
            State::Reject(e) => State::Reject(op(e)),
            State::Rejected => State::Rejected,
        }
    }

    /// `res` behind a `Resolve`; an error short-circuits, and the states
    /// without a payload pass through unchanged.
    pub fn and<U>(self, res: State<U, E>) -> (r: State<U, E>)
        ensures
            r == (match self {
                State::Pending => State::Pending,
                State::Resolve(_) => res,
                State::Resolved => State::Resolved,
                State::Reject(e) => State::Reject(e),
                State::Rejected => State::Rejected,
            }),
    {
        match self {
            State::Pending => State::Pending,
            State::Resolve(_) => res,
            State::Resolved => State::Resolved,
            State::Reject(e) => State::Reject(e),
            State::Rejected => State::Rejected,
        }
    }

    /// Continues a `Resolve` with `op`; an error short-circuits, and the
    /// states without a payload pass through unchanged.
    pub fn and_then<U, F>(self, op: F) -> (r: State<U, E>) where F: FnOnce(T) -> State<U, E>
        requires
            self is Resolve ==> call_requires(op, (self->Resolve_0,)),
        ensures
            match self {
                State::Pending => r is Pending,
                State::Resolve(v) => call_ensures(op, (v,), r),
                State::Resolved => r is Resolved,
                State::Reject(e) => r == State::<U, E>::Reject(e),
                State::Rejected => r is Rejected,
            },
    {
        match self {
            State::Pending => State::Pending,
            State::Resolve(v) => op(v),
            State::Resolved => State::Resolved,
            State::Reject(e) => State::Reject(e),
            State::Rejected => State::Rejected,
        }
    }

    /// `res` behind a `Reject`; a value short-circuits, and the states
    /// without a payload pass through unchanged.
    pub fn or<O>(self, res: State<T, O>) -> (r: State<T, O>)
        ensures
            r == (match self {
                State::Pending => State::Pending,
                State::Resolve(v) => State::Resolve(v),
                State::Resolved => State::Resolved,
                State::Reject(_) => res,
                State::Rejected => State::Rejected,
            }),
    {
        match self {
            State::Pending => State::Pending,
            State::Resolve(v) => State::Resolve(v),
            State::Resolved => State::Resolved,
            State::Reject(_) => res,
            State::Rejected => State::Rejected,
        }
    }

    /// Continues a `Reject` with `op`; a value short-circuits, and the
    /// states without a payload pass through unchanged.
    pub fn or_else<O, F>(self, op: F) -> (r: State<T, O>) where F: FnOnce(E) -> State<T, O>
        requires
            self is Reject ==> call_requires(op, (self->Reject_0,)),
        ensures
            match self {
                State::Pending => r is Pending,
                State::Resolve(v) => r == State::<T, O>::Resolve(v),
                State::Resolved => r is Resolved,
                State::Reject(e) => call_ensures(op, (e,), r),
                State::Rejected => r is Rejected,
            },
    {
        match self {
            State::Pending => State::Pending,
            State::Resolve(v) => State::Resolve(v),
            State::Resolved => State::Resolved,
            State::Reject(e) => op(e),
            State::Rejected => State::Rejected,
        }
    }

    /// The value of a `Resolve`, else `or`.
    pub fn unwrap_or(self, or: T) -> (r: T)
        ensures
            r == (match self {
                State::Resolve(v) => v,
                _ => or,
            }),
    {
        match self {
            State::Resolve(v) => v,
            _ => or,
        }
    }

    /// The value of a `Resolve`, else what `f` produces; `f` is called only
    /// in the second case.
    pub fn unwrap_or_else<F>(self, f: F) -> (r: T) where F: FnOnce() -> T
        requires
            !(self is Resolve) ==> call_requires(f, ()),
        ensures
            match self {
                State::Resolve(v) => r == v,
                _ => call_ensures(f, (), r),
            },
    {
        match self {
            State::Resolve(v) => v,
            _ => f(),
        }
    }

    /// Takes the payload out: returns the state as it was and leaves
    /// `Resolved` behind a `Resolve`, `Rejected` behind a `Reject`. The
    /// states without a payload are returned and left as they are.
    pub fn take(&mut self) -> (r: State<T, E>)
        ensures
            r == *old(self),
            *final(self) == old(self).emptied(),
    {
        let mut held: State<T, E> = if self.is_resolve() {
            State::Resolved
        } else if self.is_reject() {
            State::Rejected
        } else if self.is_pending() {
            State::Pending
        } else if self.is_resolved() {
            State::Resolved
        } else {
            State::Rejected
        };
        core::mem::swap(self, &mut held);
        held
    }

    /// The value of a `Resolve`. Every other state is a caller's mistake.
    pub fn unwrap(self) -> (r: T)
        requires
            self is Resolve,
        ensures
            self == State::<T, E>::Resolve(r),
    {
        match self {
            State::Resolve(v) => v,
            _ => vstd::pervasive::unreached(),
        }
    }

    /// The value of a `Resolve`. Every other state is a caller's mistake,
    /// which `msg` would describe.
    pub fn expect(self, msg: &str) -> (r: T)
        requires
            self is Resolve,
        ensures
            self == State::<T, E>::Resolve(r),
    {
        match self {
            State::Resolve(v) => v,
            _ => vstd::pervasive::unreached(),
        }
    }

    /// The error of a `Reject`. Every other state is a caller's mistake.
    pub fn unwrap_reject(self) -> (r: E)
        requires
            self is Reject,
        ensures
            self == State::<T, E>::Reject(r),
    {
        match self {
            State::Reject(e) => e,
            _ => vstd::pervasive::unreached(),
        }
    }

    /// The error of a `Reject`. Every other state is a caller's mistake,
    /// which `msg` would describe.
    pub fn expect_reject(self, msg: &str) -> (r: E)
        requires
            self is Reject,
        ensures
            self == State::<T, E>::Reject(r),
    {
        match self {
            State::Reject(e) => e,
            _ => vstd::pervasive::unreached(),
        }
    }
}

impl<T, E> State<T, E> {
    /// The same state with its payload borrowed mutably: what is written
    /// through the borrow ends up in `self`.
    pub fn as_mut(&mut self) -> (r: State<&mut T, &mut E>)
        ensures
            match *old(self) {
                State::Pending => r is Pending && *final(self) == *old(self),
                State::Resolve(v) => r is Resolve && *(r->Resolve_0) == v
                    && *final(self) == State::<T, E>::Resolve(*final(r->Resolve_0)),
                State::Resolved => r is Resolved && *final(self) == *old(self),
                State::Reject(e) => r is Reject && *(r->Reject_0) == e
                    && *final(self) == State::<T, E>::Reject(*final(r->Reject_0)),
                State::Rejected => r is Rejected && *final(self) == *old(self),
            },
    {
        match self {
            State::Pending => State::Pending,
            State::Resolve(v) => State::Resolve(v),
            State::Resolved => State::Resolved,
            State::Reject(e) => State::Reject(e),
            State::Rejected => State::Rejected,
        }
    }
}

impl<T: Default, E> State<T, E> {
    /// The value of a `Resolve`, else the default value of `T`.
    pub fn unwrap_or_default(self) -> (r: T)
        requires
            !(self is Resolve) ==> call_requires(T::default, ()),
        ensures
            match self {
                State::Resolve(v) => r == v,
                _ => call_ensures(T::default, (), r),
            },
    {
        match self {
            State::Resolve(v) => v,
            _ => T::default(),
        }
    }
}

impl<T: Clone, E: Clone> State<T, E> {
    /// A state of the same kind whose payload is the result of cloning the
    /// payload of `self`.
    pub fn clone(self) -> (r: Self)
        ensures
            self.copied_to(r),
    {
        match self {
            State::Pending => State::Pending,
            State::Resolve(v) => State::Resolve(v.clone()),
            State::Resolved => State::Resolved,
            State::Reject(e) => State::Reject(e.clone()),
            State::Rejected => State::Rejected,
        }
    }

    /// Overwrites `self` with a state of the kind of `source` whose payload
    /// is the result of cloning the payload of `source`.
    pub fn clone_from(&mut self, source: &Self)
        ensures
            source.copied_to(*final(self)),
    {
        *self = match source {
            State::Pending => State::Pending,
            State::Resolve(v) => State::Resolve(v.clone()),
            State::Resolved => State::Resolved,
            State::Reject(e) => State::Reject(e.clone()),
            State::Rejected => State::Rejected,
        };
    }

    /// `other` is of the same kind as `self`, and its payload is what
    /// cloning the payload of `self` gives.
    pub open spec fn copied_to(self, other: Self) -> bool {
        match self {
            State::Pending => other is Pending,
            State::Resolve(v) => other is Resolve && vstd::pervasive::strictly_cloned(
                v,
                other->Resolve_0,
            ),
            State::Resolved => other is Resolved,
            State::Reject(e) => other is Reject && vstd::pervasive::strictly_cloned(
                e,
                other->Reject_0,
            ),
            State::Rejected => other is Rejected,
        }
    }
}

impl<T, E> From<T> for State<T, E> {
    /// A value becomes the state that has just settled to it.
    fn from(val: T) -> (r: Self) {
        State::Resolve(val)
    }
}

impl<T, E> vstd::std_specs::convert::FromSpecImpl<T> for State<T, E> {
    open spec fn obeys_from_spec() -> bool {
        true
    }

    open spec fn from_spec(val: T) -> Self {
        State::Resolve(val)
    }
}

} // verus!
