use vstd::prelude::*;
use crate::runner::chance::{pick_below, shuffle};
use crate::runner::task_queue::{all_fit, Job, TaskQueue};

verus! {

/// The queue at place `q` holds at least two items, so that a thief can
/// take half of it.
pub open spec fn stealable(qs: Seq<Seq<Job>>, q: int) -> bool {
    0 <= q < qs.len() && qs[q].len() > 1
}

/// The first place named in `order`, from position `from` on, whose queue
/// a thief can take from.
pub open spec fn victim_from(qs: Seq<Seq<Job>>, order: Seq<usize>, from: int) -> Option<int>
    decreases order.len() - from,
{
    if from < 0 || from >= order.len() {
        None
    } else if stealable(qs, order[from] as int) {
        Some(order[from] as int)
    } else {
        victim_from(qs, order, from + 1)
    }
}

/// The queues after the newer half has been taken off the one at place
/// `q`.
pub open spec fn robbed(qs: Seq<Seq<Job>>, q: int) -> Seq<Seq<Job>> {
    qs.update(q, qs[q].subrange(0, qs[q].len() as int / 2))
}

/// The newer half of the queue at place `q`.
pub open spec fn loot(qs: Seq<Seq<Job>>, q: int) -> Seq<Job> {
    qs[q].subrange(qs[q].len() as int / 2, qs[q].len() as int)
}

/// How many items wait in the first `n` queues together.
pub open spec fn total(qs: Seq<Seq<Job>>, n: int) -> int
    decreases n,
{
    if n <= 0 {
        0
    } else {
        total(qs, n - 1) + qs[n - 1].len()
    }
}

/// Where `victim_from` finds nothing, no place named from `from` on has a
/// queue that a thief can take from; what it finds is such a place.
pub proof fn lemma_victim(qs: Seq<Seq<Job>>, order: Seq<usize>, from: int)
    requires
        0 <= from,
    ensures
        victim_from(qs, order, from) is None ==> forall|p: int|
            from <= p < order.len() ==> !stealable(qs, #[trigger] order[p] as int),
        victim_from(qs, order, from) matches Some(q) ==> stealable(qs, q),
    decreases order.len() - from,
{
    if from < order.len() && !stealable(qs, order[from] as int) {
        lemma_victim(qs, order, from + 1);
    }
}

/// The queues of all workers, in the order in which the workers were made.
/// A queue is known by its place in that order.
pub struct TaskQueueSet {
    queues: Vec<TaskQueue>,
}

impl TaskQueueSet {
    /// The items of each queue, oldest first.
    pub closed spec fn view(&self) -> Seq<Seq<Job>> {
        Seq::new(self.queues@.len(), |i: int| self.queues@[i]@)
    }

    /// Every item in every queue can be driven until it is done.
    pub open spec fn wf(&self) -> bool {
        forall|q: int| 0 <= q < self@.len() ==> all_fit(#[trigger] self@[q])
    }

    /// A set without queues.
    pub fn new() -> (r: Self)
        ensures
            r@ == Seq::<Seq<Job>>::empty(),
            r.wf(),
    {
        let r = TaskQueueSet { queues: Vec::new() };
        proof {
            assert(r@ =~= Seq::<Seq<Job>>::empty());
        }
        r
    }

    /// How many queues there are.
    pub fn count(&self) -> (n: usize)
        ensures
            n == self@.len(),
    {
        self.queues.len()
    }

    /// Adds an empty queue at the end and returns its place.
    pub fn new_queue(&mut self) -> (place: usize)
        requires
            old(self).wf(),
        ensures
            place == old(self)@.len(),
            final(self)@ == old(self)@.push(Seq::<Job>::empty()),
            final(self).wf(),
    {
        let place = self.queues.len();
        self.queues.push(TaskQueue::new());
        proof {
            assert(self@ =~= old(self)@.push(Seq::<Job>::empty()));
        }
        place
    }

    /// How many items wait in the queue at `place`.
    pub fn len_of(&self, place: usize) -> (n: usize)
        requires
            place < self@.len(),
        ensures
            n == self@[place as int].len(),
    {
        self.queues[place].len()
    }

    /// Puts `task` at the back of the queue at `place`.
    pub fn push_to(&mut self, place: usize, task: Job)
        requires
            old(self).wf(),
            place < old(self)@.len(),
            task.fit(),
        ensures
            final(self)@ == old(self)@.update(place as int, old(self)@[place as int].push(task)),
            final(self).wf(),
    {
        assert(all_fit(self@[place as int]));
        self.queues[place].insert(task);
        proof {
            assert(self@ =~= old(self)@.update(
                place as int,
                old(self)@[place as int].push(task),
            ));
        }
    }

    /// Moves every item of `tasks` to the back of the queue at `place`.
    pub fn append_to(&mut self, place: usize, tasks: &mut Vec<Job>)
        requires
            old(self).wf(),
            place < old(self)@.len(),
            all_fit(old(tasks)@),
        ensures
            final(self)@ == old(self)@.update(
                place as int,
                old(self)@[place as int] + old(tasks)@,
            ),
            final(tasks)@ == Seq::<Job>::empty(),
            final(self).wf(),
    {
        assert(all_fit(self@[place as int]));
        self.queues[place].append(tasks);
        proof {
            assert(self@ =~= old(self)@.update(
                place as int,
                old(self)@[place as int] + old(tasks)@,
            ));
        }
    }

    /// Takes the oldest item off the queue at `place`; nothing if that
    /// queue is empty.
    pub fn next_of(&mut self, place: usize) -> (r: Option<Job>)
        requires
            old(self).wf(),
            place < old(self)@.len(),
        ensures
            final(self).wf(),
            old(self)@[place as int].len() == 0 ==> r is None && final(self)@ == old(self)@,
            old(self)@[place as int].len() > 0 ==> r == Some(old(self)@[place as int][0])
                && final(self)@ == old(self)@.update(
                place as int,
                old(self)@[place as int].subrange(1, old(self)@[place as int].len() as int),
            ),
            r matches Some(task) ==> task.fit(),
    {
        assert(all_fit(self@[place as int]));
        let r = self.queues[place].next();
        proof {
            if old(self)@[place as int].len() == 0 {
                assert(self@ =~= old(self)@);
            } else {
                assert(self@ =~= old(self)@.update(
                    place as int,
                    old(self)@[place as int].subrange(1, old(self)@[place as int].len() as int),
                ));
            }
        }
        r
    }
    /// Takes the newer half off the first queue that can spare it, going
    /// through the places in the order that `order` gives. Where none of
    /// them has two items, the batch is empty and nothing changes.
    pub fn steal_in_order(&mut self, order: &Vec<usize>) -> (r: Vec<Job>)
        requires
            old(self).wf(),
        ensures
            final(self).wf(),
            all_fit(r@),
            match victim_from(old(self)@, order@, 0) {
                Some(q) => r@ == loot(old(self)@, q) && final(self)@ == robbed(old(self)@, q),
                None => r@.len() == 0 && final(self)@ == old(self)@,
            },
    {
        let mut p: usize = 0;
        while p < order.len()
            invariant
                p <= order.len(),
                *self == *old(self),
                self.wf(),
                victim_from(self@, order@, 0) == victim_from(self@, order@, p as int),
            decreases order.len() - p,
        {
            let q: usize = order[p];
            if q < self.queues.len() {
                if self.queues[q].len() > 1 {
                    assert(all_fit(self@[q as int]));
                    let r = self.queues[q].split();
                    proof {
                        assert(stealable(old(self)@, q as int));
                        assert(self@ =~= robbed(old(self)@, q as int));
                    }
                    return r;
                }
            }
            p += 1;
        }
        Vec::new()
    }

    /// Takes the newer half off a queue that can spare it, trying the
    /// queues in an order drawn at random. The batch is empty exactly where
    /// no queue holds two items, and then nothing changes.
    pub fn steal_from_rand_queue(&mut self) -> (r: Vec<Job>)
        requires
            old(self).wf(),
        ensures
            final(self).wf(),
            all_fit(r@),
            r@.len() == 0 <==> forall|q: int| !stealable(old(self)@, q),
            r@.len() == 0 ==> final(self)@ == old(self)@,
            r@.len() > 0 ==> exists|q: int|
                stealable(old(self)@, q) && r@ == loot(old(self)@, q) && final(self)@ == robbed(
                    old(self)@,
                    q,
                ),
    {
        let n = self.queues.len();
        let mut order: Vec<usize> = Vec::new();
        let mut i: usize = 0;
        while i < n
            invariant
                i <= n,
                order@.len() == i,
                forall|k: int| 0 <= k < i ==> #[trigger] order@[k] == k,
            decreases n - i,
        {
            order.push(i);
            i += 1;
        }
        let ghost plain = order@;
        shuffle(&mut order);
        let r = self.steal_in_order(&order);
        proof {
            lemma_victim(old(self)@, order@, 0);
            match victim_from(old(self)@, order@, 0) {
                Some(q) => {
                    assert(r@.len() > 0);
                },
                None => {
                    assert forall|q: int| !stealable(old(self)@, q) by {
                        if stealable(old(self)@, q) {
                            assert(plain[q] == q as usize);
                            assert(plain.contains(q as usize));
                            vstd::seq_lib::to_multiset_contains(plain, q as usize);
                            vstd::seq_lib::to_multiset_contains(order@, q as usize);
                            let p = choose|p: int| 0 <= p < order@.len() && order@[p] == q as usize;
                            assert(!stealable(old(self)@, order@[p] as int));
                        }
                    }
                },
            }
        }
        r
    }

    /// Puts `task` at the back of a queue drawn at random. There has to be
    /// a queue.
    pub fn push_to_rand_queue(&mut self, task: Job)
        requires
            old(self).wf(),
            old(self)@.len() > 0,
            task.fit(),
        ensures
            final(self).wf(),
            exists|q: int|
                0 <= q < old(self)@.len() && final(self)@ == old(self)@.update(
                    q,
                    old(self)@[q].push(task),
                ),
    {
        let place = pick_below(self.queues.len());
        self.push_to(place, task);
    }

    /// How many items wait in all queues together.
    pub fn len(&self) -> (n: usize)
        requires
            total(self@, self@.len() as int) <= usize::MAX,
        ensures
            n == total(self@, self@.len() as int),
    {
        let mut n: usize = 0;
        let mut i: usize = 0;
        while i < self.queues.len()
            invariant
                i <= self.queues.len(),
                self.queues@.len() == self@.len(),
                n == total(self@, i as int),
                total(self@, self@.len() as int) <= usize::MAX,
            decreases self.queues.len() - i,
        {
            proof {
                lemma_total_grows(self@, i as int + 1, self@.len() as int);
            }
            n = n + self.queues[i].len();
            i += 1;
        }
        n
    }
}

/// The count of the items in the first `n` queues does not fall as `n`
/// grows.
pub proof fn lemma_total_grows(qs: Seq<Seq<Job>>, a: int, b: int)
    requires
        a <= b,
    ensures
        total(qs, a) <= total(qs, b),
    decreases b - a,
{
    if a < b {
        lemma_total_grows(qs, a, b - 1);
    }
}

impl Default for TaskQueueSet {
    /// A set without queues.
    fn default() -> (r: Self)
        ensures
            r@ == Seq::<Seq<Job>>::empty(),
            r.wf(),
    {
        TaskQueueSet::new()
    }
}

} // verus!
