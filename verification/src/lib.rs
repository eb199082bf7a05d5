//! A deferred, delegated-task scheduler for a replicated, deterministic ledger.
//!
//! Account holders register an opaque action (a task) to be executed on their
//! behalf at or after a future ledger height. Admission is guarded by a
//! per-account nonce counter (replay protection). Once per height, the
//! scheduler merges the carry-over bucket with the tasks due at that height,
//! dispatches at most a configured number of them through an execution sink
//! supplied by the host, records one event per dispatched task, and re-files
//! the remainder as the new carry-over bucket.

mod kvlist;

pub mod nonce;
pub mod queue;
pub mod scheduler;
pub mod task;

pub use nonce::NonceLedger;
pub use queue::TaskQueue;
pub use scheduler::Scheduler;
pub use task::AccountId;
pub use task::DispatchError;
pub use task::Event;
pub use task::ExecutionSink;
pub use task::Height;
pub use task::InvalidNonce;
pub use task::Nonce;
pub use task::Task;
