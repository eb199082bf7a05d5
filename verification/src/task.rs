//! The data model: tasks, admission and dispatch errors, outcome events, and
//! the interface of the host's execution sink.

use vstd::prelude::*;

verus! {

/// Identifies an account on the host ledger. The host verifies signatures;
/// the scheduler only ever checks the nonce.
pub type AccountId = u64;

/// A per-account sequence number preventing replay of the same submission.
pub type Nonce = u64;

/// The ledger's discrete, monotonically increasing execution step counter
/// (block number). Height `0` is reserved for the carry-over bucket and is
/// never a due height.
pub type Height = u64;

/// A delegated, deferred action awaiting execution on behalf of its original
/// submitter. Immutable once admitted.
#[derive(Debug, PartialEq, Eq)]
pub struct Task<A> {
    /// The opaque decoded call to be dispatched. The scheduler never
    /// interprets or restricts it; that policy belongs to the caller.
    pub action: A,
    /// The account on whose behalf the action runs.
    pub submitter: AccountId,
    /// The nonce this submission presented (and, once admitted, consumed).
    pub nonce: Nonce,
    /// The height at or after which the task becomes due. Never `0`.
    pub due_height: Height,
}

/// Admission-time error: the presented nonce is not the account's expected
/// nonce. Recoverable by resubmitting with the current nonce; the stored
/// state is left unchanged.
#[derive(Debug, Clone, Copy, PartialEq, Eq)]
pub struct InvalidNonce;

/// Opaque per-task failure reported by the execution sink. It is recorded as
/// a failure event and neither aborts the batch nor refunds the nonce.
#[derive(Debug, Clone, Copy, PartialEq, Eq)]
pub struct DispatchError;

/// Outcome record for one dispatched task, carrying the height at which it
/// was dispatched, its submitter, the nonce it consumed, and its action.
#[derive(Debug, PartialEq, Eq)]
pub enum Event<A> {
    /// The sink reported success.
    TaskExecutedOk(Height, AccountId, Nonce, A),
    /// The sink reported failure.
    TaskExecutedErr(Height, AccountId, Nonce, A),
}

/// The external collaborator that actually performs a task's action as if
/// signed by `submitter`, and reports success or failure. The host ledger
/// implements this; the scheduler promises nothing about which outcome a
/// dispatch produces.
pub trait ExecutionSink<A> {
    /// Attempt `action` on behalf of `submitter`.
    fn dispatch(&mut self, action: &A, submitter: AccountId) -> Result<(), DispatchError>;
}

/// Whether event `e` records task `t` dispatched at height `h`, with either
/// outcome. The outcome itself is the sink's decision, so contracts speak of
/// dispatched tasks only up to it.
pub open spec fn event_matches<A>(e: Event<A>, h: Height, t: Task<A>) -> bool {
    ||| e == Event::TaskExecutedOk(h, t.submitter, t.nonce, t.action)
    ||| e == Event::TaskExecutedErr(h, t.submitter, t.nonce, t.action)
}

/// The identity of an admitted task: the nonce ledger guarantees this pair is
/// never duplicated among admitted tasks.
pub open spec fn pair_of<A>(t: Task<A>) -> (AccountId, Nonce) {
    (t.submitter, t.nonce)
}

} // verus!
