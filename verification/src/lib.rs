//! A work-stealing runner and the polled tasks that it drives.
//!
//! A `Task` is a computation that is stepped until it settles; combinators
//! build tasks from tasks. The runner side holds the queues of the workers
//! and the decisions that a worker takes: what to run next, whom to steal
//! from, when to stop.

pub mod prelude;
pub mod runner;
pub mod task;
