use vstd::prelude::*;
use crate::runner::task_queue::{all_fit, Job};
use crate::runner::task_queue_set::{loot, robbed, stealable, TaskQueueSet};

verus! {

/// What a worker does next.
pub enum Action {
    /// Drive this item until it is done, then take the next turn.
    Run(Job),
    /// Nothing to do for now: give the processor away, then take the next
    /// turn.
    Yield,
    /// Nothing to do and the runner is shutting down: stop.
    Exit,
}

/// The queues after the newer half of the queue at `q` has been moved to
/// the back of the queue at `to`.
pub open spec fn handed(qs: Seq<Seq<Job>>, q: int, to: int) -> Seq<Seq<Job>> {
    robbed(qs, q).update(to, robbed(qs, q)[to] + loot(qs, q))
}

/// The queues after the oldest item has been taken off the one at `place`.
pub open spec fn served(qs: Seq<Seq<Job>>, place: int) -> Seq<Seq<Job>> {
    qs.update(place, qs[place].subrange(1, qs[place].len() as int))
}

/// The part of a worker that decides: it knows which queue of the set is
/// its own, works that queue off from the front and steals when it is
/// empty.
pub struct WorkerInner {
    queue: usize,
}

impl WorkerInner {
    /// The place of the worker's own queue in the set.
    pub closed spec fn place(&self) -> int {
        self.queue as int
    }

    /// The deciding part of the worker that owns the queue at `queue`.
    pub fn new(queue: usize) -> (r: Self)
        ensures
            r.place() == queue,
    {
        WorkerInner { queue }
    }

    /// The place of the worker's own queue in the set.
    pub fn queue(&self) -> (place: usize)
        ensures
            place == self.place(),
    {
        self.queue
    }

    /// Tries to steal: takes the newer half off a queue that can spare it
    /// and puts it at the back of the worker's own queue. Returns whether
    /// anything was stolen, which is the case exactly where some queue
    /// holds two items.
    pub fn try_steal(&self, set: &mut TaskQueueSet) -> (stole: bool)
        requires
            old(set).wf(),
            self.place() < old(set)@.len(),
        ensures
            final(set).wf(),
            stole <==> exists|q: int| stealable(old(set)@, q),
            !stole ==> final(set)@ == old(set)@,
            stole ==> exists|q: int|
                stealable(old(set)@, q) && final(set)@ == handed(old(set)@, q, self.place()),
    {
        let mut tasks = set.steal_from_rand_queue();
        if tasks.len() > 0 {
            let ghost q = choose|q: int|
                stealable(old(set)@, q) && tasks@ == loot(old(set)@, q) && set@ == robbed(
                    old(set)@,
                    q,
                );
            set.append_to(self.queue, &mut tasks);
            proof {
                assert(set@ == handed(old(set)@, q, self.place()));
            }
            true
        } else {
            false
        }
    }

    /// One turn of the worker's loop. The oldest item of the own queue is
    /// to be run; with the own queue empty the worker steals and runs the
    /// oldest stolen item; with nothing to steal it yields while the runner
    /// is running and exits once it is not.
    pub fn turn(&self, set: &mut TaskQueueSet, running: bool) -> (act: Action)
        requires
            old(set).wf(),
            self.place() < old(set)@.len(),
        ensures
            final(set).wf(),
            act matches Action::Run(job) ==> job.fit(),
            old(set)@[self.place()].len() > 0 ==> act == Action::Run(old(set)@[self.place()][0])
                && final(set)@ == served(old(set)@, self.place()),
            old(set)@[self.place()].len() == 0 && (forall|q: int| !stealable(old(set)@, q)) ==> {
                &&& final(set)@ == old(set)@
                &&& running ==> act is Yield
                &&& !running ==> act is Exit
            },
            old(set)@[self.place()].len() == 0 && (exists|q: int| stealable(old(set)@, q))
                ==> exists|q: int|
                {
                    &&& #[trigger] stealable(old(set)@, q)
                    &&& act == Action::Run(handed(old(set)@, q, self.place())[self.place()][0])
                    &&& final(set)@ == served(
                        handed(old(set)@, q, self.place()),
                        self.place(),
                    )
                },
    {
        match set.next_of(self.queue) {
            Some(job) => Action::Run(job),
            None => {
                if self.try_steal(set) {
                    let ghost q = choose|q: int|
                        stealable(old(set)@, q) && set@ == handed(old(set)@, q, self.place());
                    let ghost h = set@;
                    proof {
                        assert(q != self.place());
                        assert(h[self.place()] =~= loot(old(set)@, q));
                        assert(h[self.place()].len() > 0);
                    }
                    match set.next_of(self.queue) {
                        Some(job) => Action::Run(job),
                        None => Action::Yield,
                    }
                } else if running {
                    Action::Yield
                } else {
                    Action::Exit
                }
            },
        }
    }
}

} // verus!
