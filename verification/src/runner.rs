use vstd::prelude::*;

pub mod chance;
pub mod executable;
pub mod runner;
pub mod task_queue;
pub mod task_queue_set;
pub mod worker;

pub use self::executable::Executable;
pub use self::task_queue::Job;
pub use self::task_queue::TaskQueue;
pub use self::task_queue_set::TaskQueueSet;
pub use self::worker::Action;
pub use self::worker::WorkerInner;
