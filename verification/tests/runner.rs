use std::sync::Arc;
use std::sync::Mutex;
use task_kit::runner::runner::default_workers;
use task_kit::runner::runner::workers_for;
use task_kit::runner::Action;
use task_kit::runner::Job;
use task_kit::runner::TaskQueue;
use task_kit::runner::TaskQueueSet;
use task_kit::runner::WorkerInner;
use task_kit::task::State;
use task_kit::task::Task;

type Log = Arc<Mutex<Vec<usize>>>;

fn job(log: &Log, id: usize) -> Job {
    let log = log.clone();
    Job::new(move || {
        log.lock().unwrap().push(id);
        true
    })
}

fn run_all(jobs: Vec<Job>) {
    for mut j in jobs {
        j.drive();
    }
}

fn drain(queue: &mut TaskQueue) {
    while let Some(mut j) = queue.next() {
        j.drive();
    }
}

fn seen(log: &Log) -> Vec<usize> {
    let mut v = log.lock().unwrap();
    let out = v.clone();
    v.clear();
    out
}

#[test]
fn queue_is_first_in_first_out() {
    let log: Log = Arc::new(Mutex::new(Vec::new()));
    let mut q = TaskQueue::new();
    assert_eq!(q.len(), 0);
    for id in 0..4 {
        q.insert(job(&log, id));
    }
    assert_eq!(q.len(), 4);
    drain(&mut q);
    assert_eq!(seen(&log), vec![0, 1, 2, 3]);
    assert_eq!(q.len(), 0);
    assert!(q.next().is_none());
}

#[test]
fn append_moves_a_batch_to_the_back() {
    let log: Log = Arc::new(Mutex::new(Vec::new()));
    let mut q = TaskQueue::new();
    q.insert(job(&log, 0));
    let mut batch = vec![job(&log, 1), job(&log, 2)];
    q.append(&mut batch);
    assert!(batch.is_empty());
    assert_eq!(q.len(), 3);
    drain(&mut q);
    assert_eq!(seen(&log), vec![0, 1, 2]);
}

#[test]
fn split_of_an_empty_or_single_queue_takes_nothing() {
    let log: Log = Arc::new(Mutex::new(Vec::new()));
    let mut q = TaskQueue::new();
    assert!(q.split().is_empty());
    assert_eq!(q.len(), 0);
    q.insert(job(&log, 0));
    assert!(q.split().is_empty());
    assert_eq!(q.len(), 1);
    drain(&mut q);
    assert_eq!(seen(&log), vec![0]);
}

#[test]
fn split_takes_the_newer_half() {
    let log: Log = Arc::new(Mutex::new(Vec::new()));
    let mut q = TaskQueue::new();
    for id in 0..5 {
        q.insert(job(&log, id));
    }
    let stolen = q.split();
    assert_eq!(stolen.len(), 3);
    assert_eq!(q.len(), 2);
    run_all(stolen);
    assert_eq!(seen(&log), vec![2, 3, 4]);
    drain(&mut q);
    assert_eq!(seen(&log), vec![0, 1]);

    for id in 0..2 {
        q.insert(job(&log, id));
    }
    let stolen = q.split();
    assert_eq!(stolen.len(), 1);
    assert_eq!(q.len(), 1);
    run_all(stolen);
    assert_eq!(seen(&log), vec![1]);
}

#[test]
fn drive_steps_a_task_until_it_is_done() {
    let steps = Arc::new(Mutex::new(0));
    let s = steps.clone();
    let task: Task<'static, u32, ()> = Task::new(move || {
        let mut n = s.lock().unwrap();
        *n += 1;
        if *n == 7 {
            State::Resolve(*n)
        } else {
            State::Pending
        }
    });
    let mut j = Job::new(task);
    j.drive();
    assert_eq!(*steps.lock().unwrap(), 7);
    j.drive();
    assert_eq!(*steps.lock().unwrap(), 7);
}

#[test]
fn new_queue_returns_the_places_in_order() {
    let mut set = TaskQueueSet::new();
    assert_eq!(set.count(), 0);
    assert_eq!(set.new_queue(), 0);
    assert_eq!(set.new_queue(), 1);
    assert_eq!(set.new_queue(), 2);
    assert_eq!(set.count(), 3);
    assert_eq!(set.len(), 0);
}

#[test]
fn set_len_sums_the_queues() {
    let log: Log = Arc::new(Mutex::new(Vec::new()));
    let mut set = TaskQueueSet::new();
    set.new_queue();
    set.new_queue();
    set.push_to(0, job(&log, 0));
    set.push_to(1, job(&log, 1));
    set.push_to(1, job(&log, 2));
    assert_eq!(set.len_of(0), 1);
    assert_eq!(set.len_of(1), 2);
    assert_eq!(set.len(), 3);
}

#[test]
fn push_to_rand_queue_lands_in_some_queue() {
    let log: Log = Arc::new(Mutex::new(Vec::new()));
    let mut set = TaskQueueSet::new();
    set.new_queue();
    set.push_to_rand_queue(job(&log, 0));
    assert_eq!(set.len_of(0), 1);
    for _ in 0..3 {
        set.new_queue();
    }
    for id in 1..200 {
        set.push_to_rand_queue(job(&log, id));
    }
    assert_eq!(set.len(), 200);
    let sizes: Vec<usize> = (0..4).map(|q| set.len_of(q)).collect();
    assert_eq!(sizes.iter().sum::<usize>(), 200);
    assert!(sizes.iter().all(|&n| n > 0));
}

#[test]
fn steal_is_empty_where_no_queue_holds_two() {
    let log: Log = Arc::new(Mutex::new(Vec::new()));
    let mut set = TaskQueueSet::new();
    assert!(set.steal_from_rand_queue().is_empty());
    set.new_queue();
    set.new_queue();
    set.new_queue();
    assert!(set.steal_from_rand_queue().is_empty());
    set.push_to(0, job(&log, 0));
    set.push_to(2, job(&log, 1));
    assert!(set.steal_from_rand_queue().is_empty());
    assert_eq!(set.len_of(0), 1);
    assert_eq!(set.len_of(1), 0);
    assert_eq!(set.len_of(2), 1);
}

#[test]
fn steal_takes_the_newer_half_of_the_only_full_queue() {
    let log: Log = Arc::new(Mutex::new(Vec::new()));
    let mut set = TaskQueueSet::new();
    set.new_queue();
    set.new_queue();
    set.new_queue();
    set.push_to(0, job(&log, 10));
    for id in 0..4 {
        set.push_to(1, job(&log, id));
    }
    let stolen = set.steal_from_rand_queue();
    assert_eq!(stolen.len(), 2);
    assert_eq!(set.len_of(0), 1);
    assert_eq!(set.len_of(1), 2);
    run_all(stolen);
    assert_eq!(seen(&log), vec![2, 3]);
}

#[test]
fn steal_in_order_takes_the_first_that_can_spare() {
    let log: Log = Arc::new(Mutex::new(Vec::new()));
    let mut set = TaskQueueSet::new();
    for _ in 0..3 {
        set.new_queue();
    }
    for id in 0..2 {
        set.push_to(0, job(&log, id));
    }
    set.push_to(1, job(&log, 9));
    for id in 20..24 {
        set.push_to(2, job(&log, id));
    }
    let stolen = set.steal_in_order(&vec![1, 7, 2, 0]);
    assert_eq!(stolen.len(), 2);
    run_all(stolen);
    assert_eq!(seen(&log), vec![22, 23]);
    assert_eq!(set.len_of(0), 2);
    assert_eq!(set.len_of(1), 1);
    assert_eq!(set.len_of(2), 2);
    let nothing = set.steal_in_order(&vec![1, 1]);
    assert!(nothing.is_empty());
    assert_eq!(set.len(), 5);
}

#[test]
fn steal_picks_its_victim_at_random() {
    let log: Log = Arc::new(Mutex::new(Vec::new()));
    let mut first = 0;
    let mut second = 0;
    for _ in 0..200 {
        let mut set = TaskQueueSet::new();
        set.new_queue();
        set.new_queue();
        for id in 0..2 {
            set.push_to(0, job(&log, id));
            set.push_to(1, job(&log, id));
        }
        let stolen = set.steal_from_rand_queue();
        assert_eq!(stolen.len(), 1);
        if set.len_of(0) == 1 {
            first += 1;
        } else {
            second += 1;
        }
    }
    assert!(first > 0);
    assert!(second > 0);
}

#[test]
fn try_steal_moves_work_to_the_own_queue() {
    let log: Log = Arc::new(Mutex::new(Vec::new()));
    let mut set = TaskQueueSet::new();
    let idle = WorkerInner::new(set.new_queue());
    let busy = set.new_queue();
    assert_eq!(idle.queue(), 0);
    assert!(!idle.try_steal(&mut set));
    for id in 0..6 {
        set.push_to(busy, job(&log, id));
    }
    assert!(idle.try_steal(&mut set));
    assert_eq!(set.len_of(0), 3);
    assert_eq!(set.len_of(1), 3);
    while let Some(mut j) = set.next_of(0) {
        j.drive();
    }
    assert_eq!(seen(&log), vec![3, 4, 5]);
}

#[test]
fn turn_runs_local_work_first_then_steals_then_yields_or_exits() {
    let log: Log = Arc::new(Mutex::new(Vec::new()));
    let mut set = TaskQueueSet::new();
    let me = WorkerInner::new(set.new_queue());
    let other = set.new_queue();
    set.push_to(0, job(&log, 0));
    for id in 10..14 {
        set.push_to(other, job(&log, id));
    }
    match me.turn(&mut set, true) {
        Action::Run(mut j) => j.drive(),
        _ => panic!("local work was waiting"),
    }
    assert_eq!(seen(&log), vec![0]);
    assert_eq!(set.len_of(other), 4);
    match me.turn(&mut set, true) {
        Action::Run(mut j) => j.drive(),
        _ => panic!("there was work to steal"),
    }
    assert_eq!(seen(&log), vec![12]);
    assert_eq!(set.len_of(0), 1);
    assert_eq!(set.len_of(other), 2);
    match me.turn(&mut set, true) {
        Action::Run(mut j) => j.drive(),
        _ => panic!("stolen work was waiting"),
    }
    assert_eq!(seen(&log), vec![13]);
    match me.turn(&mut set, true) {
        Action::Run(mut j) => j.drive(),
        _ => panic!("there was work to steal"),
    }
    assert_eq!(seen(&log), vec![11]);
    assert!(matches!(me.turn(&mut set, true), Action::Yield));
    assert!(matches!(me.turn(&mut set, false), Action::Exit));
    assert_eq!(set.len_of(other), 1);
}

#[test]
fn workers_settle_every_submitted_task() {
    let done = Arc::new(Mutex::new(0u64));
    let mut set = TaskQueueSet::new();
    let workers: Vec<WorkerInner> = (0..4).map(|_| WorkerInner::new(set.new_queue())).collect();
    for _ in 0..500 {
        let mut i = 0u64;
        let a: Task<'static, u64, ()> = Task::new(move || {
            i += 1;
            if i == 10 {
                State::Resolve(i)
            } else {
                State::Pending
            }
        });
        let mut k = 0u64;
        let b: Task<'static, u64, ()> = Task::new(move || {
            k += 1;
            if k == 20 {
                State::Resolve(k)
            } else {
                State::Pending
            }
        });
        let d = done.clone();
        let task = a.join(b).map(|(x, y)| x * y).done(move |v| {
            *d.lock().unwrap() += v;
        });
        set.push_to_rand_queue(Job::new(task));
    }
    assert_eq!(set.len(), 500);
    let mut live = workers.len();
    let mut stopped = vec![false; workers.len()];
    while live > 0 {
        for (n, w) in workers.iter().enumerate() {
            if stopped[n] {
                continue;
            }
            match w.turn(&mut set, false) {
                Action::Run(mut j) => j.drive(),
                Action::Yield => {}
                Action::Exit => {
                    stopped[n] = true;
                    live -= 1;
                }
            }
        }
    }
    assert_eq!(*done.lock().unwrap(), 500 * 200);
}

#[test]
fn worker_count_is_one_more_than_the_processors() {
    assert_eq!(workers_for(0), 1);
    assert_eq!(workers_for(8), 9);
    assert_eq!(default_workers(), num_cpus::get() + 1);
}

#[test]
fn default_queue_and_set_are_empty() {
    let mut q = TaskQueue::default();
    assert_eq!(q.len(), 0);
    assert!(q.next().is_none());
    let set = TaskQueueSet::default();
    assert_eq!(set.count(), 0);
    assert_eq!(set.len(), 0);
}

#[test]
fn default_worker_count_is_at_least_two() {
    assert!(default_workers() >= 2);
}
