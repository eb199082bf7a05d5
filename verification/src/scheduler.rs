//! The scheduler: admits submissions through the nonce ledger, and, once per
//! height, merges the carry-over bucket with the tasks due at that height,
//! dispatches a bounded batch through the host's execution sink, and re-files
//! the remainder as the new carry-over bucket.

use vstd::prelude::*;

use crate::nonce::admissible;
use crate::nonce::counter_step;
use crate::nonce::NonceLedger;
use crate::queue::TaskQueue;
use crate::task::event_matches;
use crate::task::pair_of;
use crate::task::AccountId;
use crate::task::Event;
use crate::task::ExecutionSink;
use crate::task::Height;
use crate::task::InvalidNonce;
use crate::task::Nonce;
use crate::task::Task;

verus! {

/// The orchestrating component. It is the sole writer of its nonce ledger
/// and task queue; reads such as `expected_nonce` never mutate.
pub struct Scheduler<A> {
    queue: TaskQueue<A>,
    nonces: NonceLedger,
    max_tasks_per_height: usize,
}

impl<A> Scheduler<A> {
    /// The account's current counter: the next nonce it must present.
    pub closed spec fn nonce_of(self, account: AccountId) -> Nonce {
        self.nonces.nonce_of(account)
    }

    /// The tasks held for height `h`, in arrival order; `h == 0` is the
    /// carry-over bucket.
    pub closed spec fn bucket(self, h: Height) -> Seq<Task<A>> {
        self.queue.bucket(h)
    }

    /// The configured maximum number of tasks dispatched per height.
    pub closed spec fn cap(self) -> int {
        self.max_tasks_per_height as int
    }

    /// The ordered pending sequence for one execution step at height `h`:
    /// carry-over first (oldest-due-first fairness), then the newly due.
    pub open spec fn pending_at(self, h: Height) -> Seq<Task<A>> {
        self.bucket(0) + self.bucket(h)
    }

    /// How many tasks an execution step at height `h` dispatches: the whole
    /// pending sequence, bounded by the cap.
    pub open spec fn batch_size(self, h: Height) -> int {
        if self.pending_at(h).len() <= self.cap() {
            self.pending_at(h).len() as int
        } else {
            self.cap()
        }
    }

    /// Whether some stored task carries the identity `(account, n)`.
    pub open spec fn stores_pair(self, account: AccountId, n: Nonce) -> bool {
        exists|h: Height, i: int|
            0 <= i < self.bucket(h).len() && pair_of(#[trigger] self.bucket(h)[i]) == (account, n)
    }

    /// Every stored task has consumed its nonce: its account's counter has
    /// already advanced past it. This is what makes a fresh admission's pair
    /// new.
    pub open spec fn nonces_consumed(self) -> bool {
        forall|h: Height, i: int|
            0 <= i < self.bucket(h).len() ==> (#[trigger] self.bucket(h)[i]).nonce < self.nonce_of(
                self.bucket(h)[i].submitter,
            )
    }

    /// Uniqueness: no two stored task positions hold the same
    /// `(submitter, nonce)` pair.
    pub open spec fn pairs_unique(self) -> bool {
        forall|h1: Height, i1: int, h2: Height, i2: int|
            0 <= i1 < self.bucket(h1).len() && 0 <= i2 < self.bucket(h2).len() && (h1 != h2 || i1
                != i2) ==> pair_of(#[trigger] self.bucket(h1)[i1]) != pair_of(
                #[trigger] self.bucket(h2)[i2],
            )
    }

    /// The internal invariant of the backing structures.
    pub closed spec fn base_wf(self) -> bool {
        self.queue.wf() && self.nonces.wf()
    }

    /// Well-formedness: the backing structures are consistent, every stored
    /// task's nonce is consumed, and stored `(submitter, nonce)` pairs are
    /// pairwise distinct.
    pub open spec fn wf(self) -> bool {
        self.base_wf() && self.nonces_consumed() && self.pairs_unique()
    }

    /// A fresh scheduler: no pending tasks, all counters at zero, dispatching
    /// at most `max_tasks_per_height` tasks per execution step.
    pub fn new(max_tasks_per_height: usize) -> (s: Self)
        ensures
            s.wf(),
            s.cap() == max_tasks_per_height,
            forall|a: AccountId| s.nonce_of(a) == 0,
            forall|h: Height| s.bucket(h) == Seq::<Task<A>>::empty(),
    {
        Scheduler { queue: TaskQueue::new(), nonces: NonceLedger::new(), max_tasks_per_height }
    }

    /// The configured per-height dispatch bound.
    pub fn max_tasks_per_height(&self) -> (r: usize)
        ensures
            r == self.cap(),
    {
        self.max_tasks_per_height
    }

    /// The account's current counter (default zero for unseen accounts).
    /// External callers may use this for validation; it never mutates.
    pub fn expected_nonce(&self, account: AccountId) -> (r: Nonce)
        requires
            self.wf(),
        ensures
            r == self.nonce_of(account),
    {
        self.nonces.expected_nonce(account)
    }

    /// Read the carry-over bucket: tasks that were due but not yet executed,
    /// oldest first.
    pub fn carry_over(&self) -> (tasks: &Vec<Task<A>>)
        ensures
            tasks@ == self.bucket(0),
    {
        self.queue.carry_over()
    }

    /// Validate and admit a submission. Succeeds iff the task presents its
    /// submitter's expected nonce, in which case the counter advances by one
    /// and the task is appended to its due-height bucket; otherwise nothing
    /// is mutated and the caller gets `InvalidNonce`.
    pub fn schedule_task(&mut self, task: Task<A>) -> (r: Result<(), InvalidNonce>)
        requires
            old(self).wf(),
            task.due_height != 0,
        ensures
            final(self).wf(),
            final(self).cap() == old(self).cap(),
            r is Ok <==> admissible(old(self).nonce_of(task.submitter), task.nonce),
            final(self).nonce_of(task.submitter) == counter_step(
                old(self).nonce_of(task.submitter),
                task.nonce,
            ),
            forall|a: AccountId|
                a != task.submitter ==> final(self).nonce_of(a) == old(self).nonce_of(a),
            r is Ok ==> final(self).bucket(task.due_height) == old(self).bucket(
                task.due_height,
            ).push(task),
            r is Ok ==> forall|h: Height|
                h != task.due_height ==> final(self).bucket(h) == old(self).bucket(h),
            r is Err ==> forall|h: Height| final(self).bucket(h) == old(self).bucket(h),
    {
        let ghost t = task;
        match self.nonces.accept(task.submitter, task.nonce) {
            Ok(()) => {
                self.queue.enqueue(task);
                proof {
                    let pre = *old(self);
                    let post = *self;
                    let due = t.due_height;
                    assert forall|h: Height, i: int| 0 <= i < post.bucket(h).len() implies (
                    #[trigger] post.bucket(h)[i]).nonce < post.nonce_of(
                        post.bucket(h)[i].submitter,
                    ) by {
                        if h == due && i == pre.bucket(due).len() {
                            assert(post.bucket(h)[i] == t);
                        } else {
                            assert(post.bucket(h)[i] == pre.bucket(h)[i]);
                            assert(pre.bucket(h)[i].nonce < pre.nonce_of(
                                pre.bucket(h)[i].submitter,
                            ));
                        }
                    }
                    assert forall|h1: Height, i1: int, h2: Height, i2: int|
                        0 <= i1 < post.bucket(h1).len() && 0 <= i2 < post.bucket(h2).len() && (h1
                            != h2 || i1 != i2) implies pair_of(#[trigger] post.bucket(h1)[i1])
                        != pair_of(#[trigger] post.bucket(h2)[i2]) by {
                        let new1 = h1 == due && i1 == pre.bucket(due).len();
                        let new2 = h2 == due && i2 == pre.bucket(due).len();
                        if new1 && !new2 {
                            assert(post.bucket(h1)[i1] == t);
                            assert(post.bucket(h2)[i2] == pre.bucket(h2)[i2]);
                            assert(pre.bucket(h2)[i2].nonce < pre.nonce_of(
                                pre.bucket(h2)[i2].submitter,
                            ));
                        } else if !new1 && new2 {
                            assert(post.bucket(h2)[i2] == t);
                            assert(post.bucket(h1)[i1] == pre.bucket(h1)[i1]);
                            assert(pre.bucket(h1)[i1].nonce < pre.nonce_of(
                                pre.bucket(h1)[i1].submitter,
                            ));
                        } else if !new1 && !new2 {
                            assert(post.bucket(h1)[i1] == pre.bucket(h1)[i1]);
                            assert(post.bucket(h2)[i2] == pre.bucket(h2)[i2]);
                            assert(pair_of(pre.bucket(h1)[i1]) != pair_of(pre.bucket(h2)[i2]));
                        }
                    }
                }
                Ok(())
            },
            Err(e) => {
                proof {
                    let pre = *old(self);
                    let post = *self;
                    assert forall|h: Height, i: int| 0 <= i < post.bucket(h).len() implies (
                    #[trigger] post.bucket(h)[i]).nonce < post.nonce_of(
                        post.bucket(h)[i].submitter,
                    ) by {
                        assert(pre.bucket(h)[i].nonce < pre.nonce_of(pre.bucket(h)[i].submitter));
                    }
                    lemma_pairs_unique_transfer(pre, post);
                }
                Err(e)
            },
        }
    }

    /// Advance a particular account's counter by exactly one, as a fresh
    /// admission from that account would.
    pub fn inc_account_nonce(&mut self, who: AccountId)
        requires
            old(self).wf(),
            old(self).nonce_of(who) < u64::MAX,
        ensures
            final(self).wf(),
            final(self).cap() == old(self).cap(),
            final(self).nonce_of(who) == old(self).nonce_of(who) + 1,
            forall|a: AccountId| a != who ==> final(self).nonce_of(a) == old(self).nonce_of(a),
            forall|h: Height| final(self).bucket(h) == old(self).bucket(h),
    {
        self.nonces.bump(who);
        proof {
            let pre = *old(self);
            let post = *self;
            assert forall|h: Height, i: int| 0 <= i < post.bucket(h).len() implies (
            #[trigger] post.bucket(h)[i]).nonce < post.nonce_of(post.bucket(h)[i].submitter) by {
                assert(pre.bucket(h)[i].nonce < pre.nonce_of(pre.bucket(h)[i].submitter));
            }
            lemma_pairs_unique_transfer(pre, post);
        }
    }

    /// One execution step for `height`, invoked once per height advance by
    /// the host. Merges the carry-over bucket with the bucket due at
    /// `height`, dispatches at most the configured cap of tasks from the
    /// front through `sink` — each as its original submitter, each consumed
    /// regardless of outcome, one event per task — and re-files the
    /// remainder as the new carry-over bucket. A dispatch failure is
    /// recorded, never retried, and never blocks the tasks behind it; the
    /// nonce ledger is untouched.
    pub fn run<S: ExecutionSink<A>>(&mut self, height: Height, sink: &mut S) -> (events: Vec<
        Event<A>,
    >)
        requires
            old(self).wf(),
            height != 0,
        ensures
            final(self).wf(),
            final(self).cap() == old(self).cap(),
            forall|a: AccountId| final(self).nonce_of(a) == old(self).nonce_of(a),
            events@.len() == old(self).batch_size(height),
            events@.len() <= old(self).cap(),
            final(self).bucket(0) == old(self).pending_at(height).skip(
                old(self).batch_size(height),
            ),
            final(self).bucket(height) == Seq::<Task<A>>::empty(),
            forall|h: Height|
                h != 0 && h != height ==> final(self).bucket(h) == old(self).bucket(h),
            forall|j: int|
                0 <= j < events@.len() ==> event_matches(
                    #[trigger] events@[j],
                    height,
                    old(self).pending_at(height)[j],
                ),
            forall|j: int|
                0 <= j < events@.len() && j < old(self).bucket(0).len() ==> event_matches(
                    #[trigger] events@[j],
                    height,
                    old(self).bucket(0)[j],
                ),
            forall|j: int|
                0 <= j < old(self).bucket(height).len() && old(self).bucket(0).len() + j
                    < events@.len() ==> event_matches(
                    #[trigger] events@[old(self).bucket(0).len() + j],
                    height,
                    old(self).bucket(height)[j],
                ),
            forall|j: int|
                0 <= j < events@.len() ==> !final(self).stores_pair(
                    (#[trigger] old(self).pending_at(height)[j]).submitter,
                    old(self).pending_at(height)[j].nonce,
                ),
    {
        let mut pending = self.queue.take_carry_over();
        let mut due = self.queue.drain_due(height);
        pending.append(&mut due);
        let ghost all = pending@;
        proof {
            assert(all == old(self).pending_at(height));
        }
        let cap = self.max_tasks_per_height;
        let k = if pending.len() < cap {
            pending.len()
        } else {
            cap
        };
        let rest = pending.split_off(k);
        let ghost batch = pending@;
        proof {
            assert(batch == all.subrange(0, k as int));
            assert(rest@ == all.skip(k as int));
            assert(k as int == old(self).batch_size(height));
        }
        let mut events: Vec<Event<A>> = Vec::new();
        while pending.len() > 0
            invariant
                events@.len() + pending@.len() == batch.len(),
                pending@ == batch.subrange(events@.len() as int, batch.len() as int),
                forall|j: int|
                    0 <= j < events@.len() ==> event_matches(
                        #[trigger] events@[j],
                        height,
                        batch[j],
                    ),
            decreases pending@.len(),
        {
            let ghost idx = events@.len() as int;
            let task = pending.remove(0);
            proof {
                assert(task == batch[idx]);
                assert(pending@ == batch.subrange(idx + 1, batch.len() as int));
            }
            let Task { action, submitter, nonce, due_height: _ } = task;
            let outcome = sink.dispatch(&action, submitter);
            let ev = match outcome {
                Ok(()) => Event::TaskExecutedOk(height, submitter, nonce, action),
                Err(_) => Event::TaskExecutedErr(height, submitter, nonce, action),
            };
            events.push(ev);
        }
        self.queue.set_carry_over(rest);
        proof {
            let pre = *old(self);
            let post = *self;
            let kk = k as int;
            let cc = pre.bucket(0).len() as int;
            assert(post.bucket(0) == all.skip(kk));
            assert forall|j: int| 0 <= j < events@.len() implies event_matches(
                #[trigger] events@[j],
                height,
                pre.pending_at(height)[j],
            ) by {
                assert(batch[j] == all[j]);
            }
            assert forall|j: int| 0 <= j < events@.len() && j < cc implies event_matches(
                #[trigger] events@[j],
                height,
                pre.bucket(0)[j],
            ) by {
                assert(all[j] == pre.bucket(0)[j]);
            }
            assert forall|j: int|
                0 <= j < pre.bucket(height).len() && cc + j < events@.len() implies event_matches(
                #[trigger] events@[cc + j],
                height,
                pre.bucket(height)[j],
            ) by {
                assert(all[cc + j] == pre.bucket(height)[j]);
            }
            assert forall|h: Height, i: int| 0 <= i < post.bucket(h).len() implies (
            #[trigger] post.bucket(h)[i]).nonce < post.nonce_of(post.bucket(h)[i].submitter) by {
                let g = run_origin(pre, height, kk, h, i);
                lemma_run_origin(pre, post, height, kk, h, i);
                assert(pre.bucket(g.0)[g.1].nonce < pre.nonce_of(pre.bucket(g.0)[g.1].submitter));
            }
            assert forall|h1: Height, i1: int, h2: Height, i2: int|
                0 <= i1 < post.bucket(h1).len() && 0 <= i2 < post.bucket(h2).len() && (h1 != h2
                    || i1 != i2) implies pair_of(#[trigger] post.bucket(h1)[i1]) != pair_of(
                #[trigger] post.bucket(h2)[i2]) by {
                let g1 = run_origin(pre, height, kk, h1, i1);
                let g2 = run_origin(pre, height, kk, h2, i2);
                lemma_run_origin(pre, post, height, kk, h1, i1);
                lemma_run_origin(pre, post, height, kk, h2, i2);
                assert(g1 != g2);
                assert(pair_of(pre.bucket(g1.0)[g1.1]) != pair_of(pre.bucket(g2.0)[g2.1]));
            }
            assert forall|j: int| 0 <= j < events@.len() implies !post.stores_pair(
                (#[trigger] pre.pending_at(height)[j]).submitter,
                pre.pending_at(height)[j].nonce,
            ) by {
                let s = pre.pending_at(height)[j].submitter;
                let n = pre.pending_at(height)[j].nonce;
                if post.stores_pair(s, n) {
                    let (h, i) = choose|h: Height, i: int|
                        0 <= i < post.bucket(h).len() && pair_of(#[trigger] post.bucket(h)[i]) == (
                        s,
                        n,
                        );
                    let g = run_origin(pre, height, kk, h, i);
                    lemma_run_origin(pre, post, height, kk, h, i);
                    let d = if j < cc {
                        (0 as Height, j)
                    } else {
                        (height, j - cc)
                    };
                    assert(pre.pending_at(height)[j] == pre.bucket(d.0)[d.1]);
                    assert(g != d);
                    assert(pair_of(pre.bucket(g.0)[g.1]) != pair_of(pre.bucket(d.0)[d.1]));
                }
            }
        }
        events
    }
}

/// Uniqueness law: in a well-formed scheduler no two admitted tasks — no two
/// distinct stored positions, in whatever buckets — share a
/// `(submitter, nonce)` pair.
pub proof fn lemma_admitted_pairs_unique<A>(
    s: Scheduler<A>,
    h1: Height,
    i1: int,
    h2: Height,
    i2: int,
)
    requires
        s.wf(),
        0 <= i1 < s.bucket(h1).len(),
        0 <= i2 < s.bucket(h2).len(),
        h1 != h2 || i1 != i2,
    ensures
        pair_of(s.bucket(h1)[i1]) != pair_of(s.bucket(h2)[i2]),
{
}

/// Pair uniqueness carries over between states whose buckets are equal.
proof fn lemma_pairs_unique_transfer<A>(pre: Scheduler<A>, post: Scheduler<A>)
    requires
        pre.pairs_unique(),
        forall|h: Height| post.bucket(h) == pre.bucket(h),
    ensures
        post.pairs_unique(),
{
    assert forall|h1: Height, i1: int, h2: Height, i2: int|
        0 <= i1 < post.bucket(h1).len() && 0 <= i2 < post.bucket(h2).len() && (h1 != h2 || i1
            != i2) implies pair_of(#[trigger] post.bucket(h1)[i1]) != pair_of(
        #[trigger] post.bucket(h2)[i2]) by {
        assert(post.bucket(h1) == pre.bucket(h1));
        assert(post.bucket(h2) == pre.bucket(h2));
        assert(pair_of(pre.bucket(h1)[i1]) != pair_of(pre.bucket(h2)[i2]));
    }
}

/// Where the task at position `(h, i)` of the state after an execution step
/// at `height` (which popped `k` tasks) stood before the step.
spec fn run_origin<A>(pre: Scheduler<A>, height: Height, k: int, h: Height, i: int) -> (
    Height,
    int,
) {
    if h == 0 {
        if k + i < pre.bucket(0).len() {
            (0 as Height, k + i)
        } else {
            (height, k + i - pre.bucket(0).len())
        }
    } else {
        (h, i)
    }
}

/// After an execution step, every stored task is the task that stood at its
/// origin position before the step; origins of carried-over tasks lie at or
/// beyond index `k` of the pending sequence, so distinct positions after the
/// step have distinct origins.
proof fn lemma_run_origin<A>(
    pre: Scheduler<A>,
    post: Scheduler<A>,
    height: Height,
    k: int,
    h: Height,
    i: int,
)
    requires
        height != 0,
        0 <= k <= pre.pending_at(height).len(),
        post.bucket(0) == pre.pending_at(height).skip(k),
        post.bucket(height) == Seq::<Task<A>>::empty(),
        forall|h2: Height| h2 != 0 && h2 != height ==> post.bucket(h2) == pre.bucket(h2),
        0 <= i < post.bucket(h).len(),
    ensures
        ({
            let g = run_origin(pre, height, k, h, i);
            &&& 0 <= g.1 < pre.bucket(g.0).len()
            &&& pre.bucket(g.0)[g.1] == post.bucket(h)[i]
            &&& (h == 0 ==> (if g.0 == 0 {
                g.1 >= k
            } else {
                g.0 == height && g.1 + pre.bucket(0).len() >= k
            }))
            &&& (h != 0 ==> g == (h, i))
        }),
{
    if h == 0 {
        assert(post.bucket(0)[i] == pre.pending_at(height)[k + i]);
    } else {
        assert(h != height);
    }
}

} // verus!
