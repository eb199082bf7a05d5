use scheduler::AccountId;
use scheduler::DispatchError;
use scheduler::Event;
use scheduler::ExecutionSink;
use scheduler::InvalidNonce;
use scheduler::Scheduler;
use scheduler::Task;

/// A sink that records every dispatch call, in order, and fails exactly for
/// the submitters it is told to fail for.
struct ScriptedSink {
    fail_for: Vec<AccountId>,
    calls: Vec<(u64, AccountId)>,
}

impl ScriptedSink {
    fn new() -> Self {
        ScriptedSink { fail_for: Vec::new(), calls: Vec::new() }
    }

    fn failing_for(fail_for: Vec<AccountId>) -> Self {
        ScriptedSink { fail_for, calls: Vec::new() }
    }
}

impl ExecutionSink<u64> for ScriptedSink {
    fn dispatch(&mut self, action: &u64, submitter: AccountId) -> Result<(), DispatchError> {
        self.calls.push((*action, submitter));
        if self.fail_for.contains(&submitter) {
            Err(DispatchError)
        } else {
            Ok(())
        }
    }
}

fn task(action: u64, submitter: AccountId, nonce: u64, due_height: u64) -> Task<u64> {
    Task { action, submitter, nonce, due_height }
}

#[test]
fn admission_bumps_nonce_and_rejects_replay() {
    let mut s: Scheduler<u64> = Scheduler::new(2);
    assert_eq!(s.expected_nonce(77), 0);
    assert_eq!(s.schedule_task(task(1, 77, 0, 5)), Ok(()));
    assert_eq!(s.expected_nonce(77), 1);
    assert_eq!(s.schedule_task(task(1, 77, 0, 5)), Err(InvalidNonce));
    assert_eq!(s.expected_nonce(77), 1);
}

#[test]
fn admission_rejects_nonce_gap() {
    let mut s: Scheduler<u64> = Scheduler::new(2);
    assert_eq!(s.schedule_task(task(1, 5, 2, 9)), Err(InvalidNonce));
    assert_eq!(s.expected_nonce(5), 0);
    assert!(s.carry_over().is_empty());
}

#[test]
fn nonce_monotonicity_over_successive_admissions() {
    let mut s: Scheduler<u64> = Scheduler::new(2);
    for n in 0..5u64 {
        assert_eq!(s.schedule_task(task(100 + n, 9, n, 50)), Ok(()));
        assert_eq!(s.expected_nonce(9), n + 1);
    }
    for n in 0..5u64 {
        assert_eq!(s.schedule_task(task(200, 9, n, 50)), Err(InvalidNonce));
    }
    assert_eq!(s.expected_nonce(9), 5);
}

#[test]
fn run_respects_cap_and_carries_over_in_order() {
    let mut s: Scheduler<u64> = Scheduler::new(2);
    assert_eq!(s.schedule_task(task(10, 1, 0, 5)), Ok(()));
    assert_eq!(s.schedule_task(task(20, 2, 0, 5)), Ok(()));
    assert_eq!(s.schedule_task(task(30, 3, 0, 5)), Ok(()));
    let mut sink = ScriptedSink::new();
    let events = s.run(5, &mut sink);
    assert_eq!(sink.calls, vec![(10, 1), (20, 2)]);
    assert_eq!(
        events,
        vec![Event::TaskExecutedOk(5, 1, 0, 10), Event::TaskExecutedOk(5, 2, 0, 20)]
    );
    assert_eq!(s.carry_over().len(), 1);
    assert_eq!(s.carry_over()[0], task(30, 3, 0, 5));
}

#[test]
fn carried_over_task_dispatched_before_newly_due() {
    let mut s: Scheduler<u64> = Scheduler::new(2);
    assert_eq!(s.schedule_task(task(10, 1, 0, 5)), Ok(()));
    assert_eq!(s.schedule_task(task(20, 2, 0, 5)), Ok(()));
    assert_eq!(s.schedule_task(task(30, 3, 0, 5)), Ok(()));
    let mut sink = ScriptedSink::new();
    s.run(5, &mut sink);
    assert_eq!(s.schedule_task(task(40, 4, 0, 6)), Ok(()));
    let mut sink6 = ScriptedSink::new();
    let events = s.run(6, &mut sink6);
    assert_eq!(sink6.calls, vec![(30, 3), (40, 4)]);
    assert_eq!(
        events,
        vec![Event::TaskExecutedOk(6, 3, 0, 30), Event::TaskExecutedOk(6, 4, 0, 40)]
    );
    assert!(s.carry_over().is_empty());
}

#[test]
fn dispatch_failure_is_recorded_and_nonce_not_rolled_back() {
    let mut s: Scheduler<u64> = Scheduler::new(2);
    assert_eq!(s.schedule_task(task(10, 1, 0, 5)), Ok(()));
    assert_eq!(s.expected_nonce(1), 1);
    let mut sink = ScriptedSink::failing_for(vec![1]);
    let events = s.run(5, &mut sink);
    assert_eq!(events, vec![Event::TaskExecutedErr(5, 1, 0, 10)]);
    assert_eq!(s.expected_nonce(1), 1);
    assert!(s.carry_over().is_empty());
}

#[test]
fn dispatch_failure_does_not_block_later_tasks() {
    let mut s: Scheduler<u64> = Scheduler::new(3);
    assert_eq!(s.schedule_task(task(10, 1, 0, 5)), Ok(()));
    assert_eq!(s.schedule_task(task(20, 2, 0, 5)), Ok(()));
    assert_eq!(s.schedule_task(task(30, 3, 0, 5)), Ok(()));
    let mut sink = ScriptedSink::failing_for(vec![2]);
    let events = s.run(5, &mut sink);
    assert_eq!(sink.calls, vec![(10, 1), (20, 2), (30, 3)]);
    assert_eq!(
        events,
        vec![
            Event::TaskExecutedOk(5, 1, 0, 10),
            Event::TaskExecutedErr(5, 2, 0, 20),
            Event::TaskExecutedOk(5, 3, 0, 30),
        ]
    );
    assert_eq!(s.expected_nonce(1), 1);
    assert_eq!(s.expected_nonce(2), 1);
    assert_eq!(s.expected_nonce(3), 1);
}

#[test]
fn run_with_nothing_due_makes_no_calls_and_no_events() {
    let mut s: Scheduler<u64> = Scheduler::new(2);
    let mut sink = ScriptedSink::new();
    let events = s.run(7, &mut sink);
    assert!(events.is_empty());
    assert!(sink.calls.is_empty());
    assert!(s.carry_over().is_empty());
}

#[test]
fn cap_zero_dispatches_nothing_and_carries_everything() {
    let mut s: Scheduler<u64> = Scheduler::new(0);
    assert_eq!(s.schedule_task(task(10, 1, 0, 5)), Ok(()));
    assert_eq!(s.schedule_task(task(20, 2, 0, 5)), Ok(()));
    let mut sink = ScriptedSink::new();
    let events = s.run(5, &mut sink);
    assert!(events.is_empty());
    assert!(sink.calls.is_empty());
    assert_eq!(s.carry_over().len(), 2);
    assert_eq!(s.carry_over()[0], task(10, 1, 0, 5));
    assert_eq!(s.carry_over()[1], task(20, 2, 0, 5));
}

#[test]
fn arrival_order_is_dispatch_order_under_cap() {
    let mut s: Scheduler<u64> = Scheduler::new(10);
    assert_eq!(s.schedule_task(task(11, 4, 0, 3)), Ok(()));
    assert_eq!(s.schedule_task(task(22, 4, 1, 3)), Ok(()));
    assert_eq!(s.schedule_task(task(33, 4, 2, 3)), Ok(()));
    let mut sink = ScriptedSink::new();
    let events = s.run(3, &mut sink);
    assert_eq!(sink.calls, vec![(11, 4), (22, 4), (33, 4)]);
    assert_eq!(
        events,
        vec![
            Event::TaskExecutedOk(3, 4, 0, 11),
            Event::TaskExecutedOk(3, 4, 1, 22),
            Event::TaskExecutedOk(3, 4, 2, 33),
        ]
    );
}

#[test]
fn drained_bucket_is_not_executed_twice() {
    let mut s: Scheduler<u64> = Scheduler::new(5);
    assert_eq!(s.schedule_task(task(10, 1, 0, 5)), Ok(()));
    let mut sink = ScriptedSink::new();
    let events = s.run(5, &mut sink);
    assert_eq!(events.len(), 1);
    let mut sink_again = ScriptedSink::new();
    let events_again = s.run(5, &mut sink_again);
    assert!(events_again.is_empty());
    assert!(sink_again.calls.is_empty());
}

#[test]
fn tasks_for_other_heights_stay_put() {
    let mut s: Scheduler<u64> = Scheduler::new(5);
    assert_eq!(s.schedule_task(task(10, 1, 0, 5)), Ok(()));
    assert_eq!(s.schedule_task(task(20, 2, 0, 8)), Ok(()));
    let mut sink = ScriptedSink::new();
    let events = s.run(5, &mut sink);
    assert_eq!(events, vec![Event::TaskExecutedOk(5, 1, 0, 10)]);
    let mut sink8 = ScriptedSink::new();
    let events8 = s.run(8, &mut sink8);
    assert_eq!(events8, vec![Event::TaskExecutedOk(8, 2, 0, 20)]);
}

#[test]
fn inc_account_nonce_advances_by_one() {
    let mut s: Scheduler<u64> = Scheduler::new(2);
    s.inc_account_nonce(42);
    assert_eq!(s.expected_nonce(42), 1);
    s.inc_account_nonce(42);
    assert_eq!(s.expected_nonce(42), 2);
    assert_eq!(s.expected_nonce(43), 0);
    assert_eq!(s.schedule_task(task(10, 42, 2, 5)), Ok(()));
    assert_eq!(s.expected_nonce(42), 3);
}

#[test]
fn max_tasks_per_height_is_the_configured_cap() {
    let s: Scheduler<u64> = Scheduler::new(9);
    assert_eq!(s.max_tasks_per_height(), 9);
}
