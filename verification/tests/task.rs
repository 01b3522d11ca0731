use task_kit::task::State;
use task_kit::task::Task;

#[test]
fn can_create_task() {
    let _: Task<(), ()> = Task::new(|| State::Pending);
}

#[test]
fn can_poll_for_value() {
    let mut i = 5;
    let mut task: Task<_, ()> = Task::new(|| {
        i += 1;
        if i == 20 {
            return State::Resolve(i);
        }
        State::Pending
    });

    let result = loop {
        if let Some(Ok(r)) = task.poll() {
            break r;
        }
    };

    assert_eq!(result, 20);
}

#[test]
fn can_wait_for_value() {
    let mut i = 5;
    let task: Task<_, ()> = Task::new(|| {
        i += 1;
        if i == 20 {
            return State::Resolve(i);
        }
        State::Pending
    });
    assert_eq!(task.wait().unwrap().unwrap(), 20);
}

#[test]
fn can_chain_tasks() {
    let task: Task<_, ()> = Task::new(|| State::Resolve(1))
        .then(|n| State::Resolve(n + 1))
        .then(|n| State::Resolve(n + 2))
        .then(|n| State::Resolve(n + 3));
    assert_eq!(task.wait().unwrap().unwrap(), 7);
}

#[test]
fn can_use_done() {
    let task: Task<_, ()> = Task::new(|| State::Resolve(1)).done(|val| assert_eq!(val, 1));
    task.wait();
}
