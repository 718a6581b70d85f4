//! The scheduling and supervision engine of a task queue daemon: the task
//! and group state machine, the reaping of finished child processes, the
//! failure policy, and the requests of clients that drive it all.

pub mod client;
pub mod daemon;
pub mod describe;
pub mod laws;
pub mod message;
pub mod state;
pub mod task;
pub mod validate;
