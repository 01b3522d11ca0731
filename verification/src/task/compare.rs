use vstd::prelude::*;
use core::cmp::Ordering;
use vstd::std_specs::cmp::PartialEqSpec;
use vstd::std_specs::cmp::PartialOrdSpec;
use crate::task::chain::{lemma_then_ready, then_view};
use crate::task::join::join_view;
use crate::task::state::State;
use crate::task::step::{Cont, Link};
use crate::task::task::Task;

verus! {

/// The four order relations that two values can be tested for.
#[derive(Clone, Copy, Debug, PartialEq, Eq)]
pub enum Order {
    /// The first is less than the second.
    Less,
    /// The first is less than the second or equal to it.
    LessEq,
    /// The first is greater than the second.
    Greater,
    /// The first is greater than the second or equal to it.
    GreaterEq,
}

/// Whether `a` stands in the relation `rel` to `b`, by the partial order of
/// `T`.
pub open spec fn in_order<T: PartialOrd>(rel: Order, a: T, b: T) -> bool {
    match rel {
        Order::Less => a.partial_cmp_spec(&b) == Some(Ordering::Less),
        Order::LessEq => a.partial_cmp_spec(&b) matches Some(Ordering::Less | Ordering::Equal),
        Order::Greater => a.partial_cmp_spec(&b) == Some(Ordering::Greater),
        Order::GreaterEq => a.partial_cmp_spec(&b) matches Some(
            Ordering::Greater
            | Ordering::Equal,
        ),
    }
}

/// The link that resolves to whether the two values of a pair are equal,
/// or, with `negate`, to whether they differ.
pub open spec fn same_link<T: PartialEq, E>(negate: bool) -> Link<(T, T), State<bool, E>> {
    Link {
        pre: |p: (T, T)| T::obeys_eq_spec(),
        out: |p: (T, T)| State::Resolve(p.0.eq_spec(&p.1) != negate),
        sure: |p: (T, T)| true,
    }
}

/// The link that resolves to whether the first value of a pair stands in
/// the relation `rel` to the second.
pub open spec fn order_link<T: PartialOrd, E>(rel: Order) -> Link<(T, T), State<bool, E>> {
    Link {
        pre: |p: (T, T)| T::obeys_partial_cmp_spec(),
        out: |p: (T, T)| State::Resolve(in_order(rel, p.0, p.1)),
        sure: |p: (T, T)| true,
    }
}

/// Tests the two values of a pair for equality.
pub struct Same {
    pub negate: bool,
}

impl<T: PartialEq + Send + Sync, E> Cont<(T, T), State<bool, E>> for Same {
    open spec fn link(&self) -> Link<(T, T), State<bool, E>> {
        same_link::<T, E>(self.negate)
    }

    fn call(&mut self, p: (T, T)) -> (r: State<bool, E>) {
        if self.negate {
            State::Resolve(p.0 != p.1)
        } else {
            State::Resolve(p.0 == p.1)
        }
    }
}

/// Tests the two values of a pair for an order relation.
pub struct Ordered {
    pub rel: Order,
}

impl<T: PartialOrd + Send + Sync, E> Cont<(T, T), State<bool, E>> for Ordered {
    open spec fn link(&self) -> Link<(T, T), State<bool, E>> {
        order_link::<T, E>(self.rel)
    }

    fn call(&mut self, p: (T, T)) -> (r: State<bool, E>) {
        match self.rel {
            Order::Less => State::Resolve(p.0 < p.1),
            Order::LessEq => State::Resolve(p.0 <= p.1),
            Order::Greater => State::Resolve(p.0 > p.1),
            Order::GreaterEq => State::Resolve(p.0 >= p.1),
        }
    }
}

impl<'a, T: PartialEq + Send + Sync + 'a, E: PartialEq + Send + Sync + 'a> Task<'a, T, E> {
    /// The join of the receiver and `task`, resolving to whether their values
    /// are equal or, with `negate`, to whether they differ.
    fn same(self, task: Task<'a, T, E>, negate: bool) -> (r: Task<'a, bool, E>)
        requires
            self.wf(),
            task.wf(),
            T::obeys_eq_spec(),
        ensures
            r.wf(),
            r@ == then_view(
                join_view(self@.unwatched(), task@.unwatched()),
                same_link::<T, E>(negate),
            ),
    {
        let both = self.join(task);
        proof {
            lemma_then_ready(both@, same_link::<T, E>(negate));
        }
        both.continue_with(Same { negate })
    }

    /// The join of the receiver and `task`, resolving to whether their values
    /// are equal.
    pub fn eq(self, task: Task<'a, T, E>) -> (r: Task<'a, bool, E>)
        requires
            self.wf(),
            task.wf(),
            T::obeys_eq_spec(),
        ensures
            r.wf(),
            r@ == then_view(
                join_view(self@.unwatched(), task@.unwatched()),
                same_link::<T, E>(false),
            ),
    {
        self.same(task, false)
    }

    /// The join of the receiver and `task`, resolving to whether their values
    /// differ.
    pub fn ne(self, task: Task<'a, T, E>) -> (r: Task<'a, bool, E>)
        requires
            self.wf(),
            task.wf(),
            T::obeys_eq_spec(),
        ensures
            r.wf(),
            r@ == then_view(
                join_view(self@.unwatched(), task@.unwatched()),
                same_link::<T, E>(true),
            ),
    {
        self.same(task, true)
    }
}

impl<'a, T: PartialOrd + Send + Sync + 'a, E: PartialOrd + Send + Sync + 'a> Task<'a, T, E> {
    /// The join of the receiver and `task`, resolving to whether the value of
    /// this one stands in the relation `rel` to that of `task`.
    fn ordered(self, task: Task<'a, T, E>, rel: Order) -> (r: Task<'a, bool, E>)
        requires
            self.wf(),
            task.wf(),
            T::obeys_partial_cmp_spec(),
        ensures
            r.wf(),
            r@ == then_view(
                join_view(self@.unwatched(), task@.unwatched()),
                order_link::<T, E>(rel),
            ),
    {
        let both = self.join(task);
        proof {
            lemma_then_ready(both@, order_link::<T, E>(rel));
        }
        both.continue_with(Ordered { rel })
    }

    /// The join of the receiver and `task`, resolving to whether the value of
    /// this one is less than that of `task`.
    pub fn lt(self, task: Task<'a, T, E>) -> (r: Task<'a, bool, E>)
        requires
            self.wf(),
            task.wf(),
            T::obeys_partial_cmp_spec(),
        ensures
            r.wf(),
            r@ == then_view(
                join_view(self@.unwatched(), task@.unwatched()),
                order_link::<T, E>(Order::Less),
            ),
    {
        self.ordered(task, Order::Less)
    }

    /// The join of the receiver and `task`, resolving to whether the value of
    /// this one is at most that of `task`.
    pub fn le(self, task: Task<'a, T, E>) -> (r: Task<'a, bool, E>)
        requires
            self.wf(),
            task.wf(),
            T::obeys_partial_cmp_spec(),
        ensures
            r.wf(),
            r@ == then_view(
                join_view(self@.unwatched(), task@.unwatched()),
                order_link::<T, E>(Order::LessEq),
            ),
    {
        self.ordered(task, Order::LessEq)
    }

    /// The join of the receiver and `task`, resolving to whether the value of
    /// this one is greater than that of `task`.
    pub fn gt(self, task: Task<'a, T, E>) -> (r: Task<'a, bool, E>)
        requires
            self.wf(),
            task.wf(),
            T::obeys_partial_cmp_spec(),
        ensures
            r.wf(),
            r@ == then_view(
                join_view(self@.unwatched(), task@.unwatched()),
                order_link::<T, E>(Order::Greater),
            ),
    {
        self.ordered(task, Order::Greater)
    }

    /// The join of the receiver and `task`, resolving to whether the value of
    /// this one is at least that of `task`.
    pub fn ge(self, task: Task<'a, T, E>) -> (r: Task<'a, bool, E>)
        requires
            self.wf(),
            task.wf(),
            T::obeys_partial_cmp_spec(),
        ensures
            r.wf(),
            r@ == then_view(
                join_view(self@.unwatched(), task@.unwatched()),
                order_link::<T, E>(Order::GreaterEq),
            ),
    {
        self.ordered(task, Order::GreaterEq)
    }
}

} // verus!
