use vstd::prelude::*;
use crate::runner::executable::Executable;

verus! {

/// One item of a queue: a piece of work that a worker can drive.
pub struct Job {
    /// The work itself.
    pub work: Box<dyn Executable>,
}

impl Job {
    /// The work can be stepped and is done after finitely many steps.
    pub open spec fn fit(&self) -> bool {
        self.work.ready() && self.work.bounded()
    }

    /// Wraps a piece of work as an item for a queue.
    pub fn new<E>(task: E) -> (r: Job) where E: Executable + 'static
        ensures
            r.work.ready() == task.ready(),
            r.work.settled() == task.settled(),
            r.work.bounded() == task.bounded(),
            r.work.steps_left() == task.steps_left(),
    {
        Job { work: Box::new(task) }
    }

    /// Steps the work until it is done.
    pub fn drive(&mut self)
        requires
            old(self).fit(),
        ensures
            final(self).work.ready(),
            final(self).work.settled(),
    {
        loop
            invariant
                self.work.ready(),
                self.work.bounded(),
            ensures
                self.work.settled(),
            decreases self.work.steps_left(),
        {
            if self.work.exec() {
                break ;
            }
        }
    }
}

/// Every item of a batch can be stepped and is done after finitely many
/// steps.
pub open spec fn all_fit(items: Seq<Job>) -> bool {
    forall|i: int| 0 <= i < items.len() ==> (#[trigger] items[i]).fit()
}

/// The queue of one worker: the items wait in the order in which they came,
/// the owner takes from the front, and a thief takes the newer half from
/// the back.
pub struct TaskQueue {
    items: Vec<Job>,
}

impl TaskQueue {
    /// The items that wait, oldest first.
    pub closed spec fn view(&self) -> Seq<Job> {
        self.items@
    }

    /// Every item that waits can be driven until it is done.
    pub open spec fn wf(&self) -> bool {
        all_fit(self@)
    }

    /// An empty queue.
    pub fn new() -> (r: Self)
        ensures
            r@ == Seq::<Job>::empty(),
            r.wf(),
    {
        TaskQueue { items: Vec::new() }
    }

    /// Moves every item of `tasks` to the back of the queue, in their
    /// order, and leaves `tasks` empty.
    pub fn append(&mut self, tasks: &mut Vec<Job>)
        requires
            old(self).wf(),
            all_fit(old(tasks)@),
        ensures
            final(self)@ == old(self)@ + old(tasks)@,
            final(tasks)@ == Seq::<Job>::empty(),
            final(self).wf(),
    {
        self.items.append(tasks);
    }

    /// Puts `task` at the back of the queue.
    pub fn insert(&mut self, task: Job)
        requires
            old(self).wf(),
            task.fit(),
        ensures
            final(self)@ == old(self)@.push(task),
            final(self).wf(),
    {
        self.items.push(task);
    }

    /// Takes the newer half off the queue: of `n` items, at least two, the
    /// older `n / 2` stay and the others are returned in their order. A
    /// queue of fewer than two items gives an empty batch and stays as it
    /// is.
    pub fn split(&mut self) -> (r: Vec<Job>)
        requires
            old(self).wf(),
        ensures
            final(self).wf(),
            all_fit(r@),
            old(self)@.len() < 2 ==> r@.len() == 0 && final(self)@ == old(self)@,
            old(self)@.len() >= 2 ==> final(self)@ == old(self)@.subrange(
                0,
                old(self)@.len() as int / 2,
            ) && r@ == old(self)@.subrange(old(self)@.len() as int / 2, old(self)@.len() as int),
    {
        if self.items.len() < 2 {
            return Vec::new();
        }
        let midpoint: usize = self.items.len() / 2;
        self.items.split_off(midpoint)
    }

    /// Takes the oldest item off the queue; nothing if the queue is empty.
    pub fn next(&mut self) -> (r: Option<Job>)
        requires
            old(self).wf(),
        ensures
            final(self).wf(),
            old(self)@.len() == 0 ==> r is None && final(self)@ == old(self)@,
            old(self)@.len() > 0 ==> r == Some(old(self)@[0]) && final(self)@ == old(
                self,
            )@.subrange(1, old(self)@.len() as int),
            r matches Some(task) ==> task.fit(),
    {
        if self.items.len() > 0 {
            let task = self.items.remove(0);
            proof {
                assert(self.items@ =~= old(self)@.subrange(1, old(self)@.len() as int));
            }
            Some(task)
        } else {
            None
        }
    }

    /// How many items wait.
    pub fn len(&self) -> (n: usize)
        ensures
            n == self@.len(),
    {
        self.items.len()
    }
}

impl Default for TaskQueue {
    /// An empty queue.
    fn default() -> (r: Self)
        ensures
            r@ == Seq::<Job>::empty(),
            r.wf(),
    {
        TaskQueue::new()
    }
}

} // verus!
