use vstd::prelude::*;

pub mod chain;
pub mod compare;
pub mod foreign;
pub mod join;
pub mod laws;
pub mod source;
pub mod state;
pub mod step;
pub mod task;
pub mod view;

pub use self::state::State;
pub use self::task::Task;
