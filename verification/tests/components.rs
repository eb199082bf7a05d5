use scheduler::InvalidNonce;
use scheduler::NonceLedger;
use scheduler::Task;
use scheduler::TaskQueue;

fn task(action: u64, submitter: u64, nonce: u64, due_height: u64) -> Task<u64> {
    Task { action, submitter, nonce, due_height }
}

#[test]
fn nonce_ledger_accepts_only_the_expected_nonce() {
    let mut ledger = NonceLedger::new();
    assert_eq!(ledger.expected_nonce(1), 0);
    assert_eq!(ledger.accept(1, 1), Err(InvalidNonce));
    assert_eq!(ledger.accept(1, 0), Ok(()));
    assert_eq!(ledger.accept(1, 0), Err(InvalidNonce));
    assert_eq!(ledger.accept(1, 1), Ok(()));
    assert_eq!(ledger.expected_nonce(1), 2);
    assert_eq!(ledger.expected_nonce(2), 0);
}

#[test]
fn nonce_ledger_counts_accounts_independently() {
    let mut ledger = NonceLedger::new();
    assert_eq!(ledger.accept(1, 0), Ok(()));
    assert_eq!(ledger.accept(2, 0), Ok(()));
    assert_eq!(ledger.expected_nonce(1), 1);
    assert_eq!(ledger.expected_nonce(2), 1);
    ledger.bump(2);
    assert_eq!(ledger.expected_nonce(1), 1);
    assert_eq!(ledger.expected_nonce(2), 2);
}

#[test]
fn queue_preserves_arrival_order_within_a_bucket() {
    let mut q: TaskQueue<u64> = TaskQueue::new();
    q.enqueue(task(10, 1, 0, 5));
    q.enqueue(task(20, 2, 0, 5));
    q.enqueue(task(30, 3, 0, 7));
    let due5 = q.drain_due(5);
    assert_eq!(due5, vec![task(10, 1, 0, 5), task(20, 2, 0, 5)]);
    let due5_again = q.drain_due(5);
    assert!(due5_again.is_empty());
    let due7 = q.drain_due(7);
    assert_eq!(due7, vec![task(30, 3, 0, 7)]);
}

#[test]
fn queue_carry_over_bucket_round_trips() {
    let mut q: TaskQueue<u64> = TaskQueue::new();
    assert!(q.carry_over().is_empty());
    q.set_carry_over(vec![task(10, 1, 0, 5), task(20, 2, 0, 6)]);
    assert_eq!(q.carry_over().len(), 2);
    let taken = q.take_carry_over();
    assert_eq!(taken, vec![task(10, 1, 0, 5), task(20, 2, 0, 6)]);
    assert!(q.carry_over().is_empty());
}
