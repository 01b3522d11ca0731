pub use crate::runner::Executable;
pub use crate::task::State;
pub use crate::task::State::Pending;
pub use crate::task::State::Reject;
pub use crate::task::State::Rejected;
pub use crate::task::State::Resolve;
pub use crate::task::State::Resolved;
pub use crate::task::Task;
