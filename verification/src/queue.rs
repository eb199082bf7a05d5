//! The persistent task queue: one bucket of tasks per due height, in arrival
//! order, plus the reserved carry-over bucket at height `0` for tasks that
//! were due but not yet executed.

use vstd::prelude::*;

use crate::kvlist::lemma_lookup_absent;
use crate::kvlist::lemma_lookup_found;
use crate::kvlist::lemma_lookup_push;
use crate::kvlist::lemma_lookup_remove;
use crate::kvlist::lookup;
use crate::kvlist::unique_keys;
use crate::task::Height;
use crate::task::Task;

verus! {

/// Buckets of pending tasks keyed by due height. Height `0` is the
/// carry-over bucket; every other bucket holds exactly the tasks due at its
/// height, in arrival order.
pub struct TaskQueue<A> {
    carry: Vec<Task<A>>,
    buckets: Vec<(Height, Vec<Task<A>>)>,
}

impl<A> TaskQueue<A> {
    /// Each due height has at most one bucket, no bucket usurps the reserved
    /// height `0`, and a bucket holds only tasks due at its height.
    pub closed spec fn wf(self) -> bool {
        &&& unique_keys(self.buckets@)
        &&& forall|j: int| 0 <= j < self.buckets@.len() ==> (#[trigger] self.buckets@[j]).0 != 0
        &&& forall|j: int, i: int|
            0 <= j < self.buckets@.len() && 0 <= i < self.buckets@[j].1@.len()
                ==> (#[trigger] self.buckets@[j].1@[i]).due_height == self.buckets@[j].0
    }

    /// The tasks held for height `h`, in arrival order; `h == 0` reads the
    /// carry-over bucket. An absent bucket is an empty one.
    pub closed spec fn bucket(self, h: Height) -> Seq<Task<A>> {
        if h == 0 {
            self.carry@
        } else {
            match lookup(self.buckets@, h) {
                Some(v) => v@,
                None => Seq::empty(),
            }
        }
    }

    /// An empty queue: every bucket, the carry-over one included, is empty.
    pub fn new() -> (q: Self)
        ensures
            q.wf(),
            forall|h: Height| q.bucket(h) == Seq::<Task<A>>::empty(),
    {
        let q = TaskQueue { carry: Vec::new(), buckets: Vec::new() };
        proof {
            assert forall|h: Height| q.bucket(h) == Seq::<Task<A>>::empty() by {
                if h != 0 {
                    lemma_lookup_absent(q.buckets@, h);
                }
            }
        }
        q
    }

    /// The position of height `h` among the buckets, if it has one.
    fn find(&self, h: Height) -> (r: Option<usize>)
        ensures
            match r {
                Some(i) => i < self.buckets@.len() && self.buckets@[i as int].0 == h,
                None => forall|j: int|
                    0 <= j < self.buckets@.len() ==> (#[trigger] self.buckets@[j]).0 != h,
            },
    {
        let mut i: usize = 0;
        while i < self.buckets.len()
            invariant
                i <= self.buckets@.len(),
                forall|j: int| 0 <= j < i ==> (#[trigger] self.buckets@[j]).0 != h,
            decreases self.buckets@.len() - i,
        {
            if self.buckets[i].0 == h {
                return Some(i);
            }
            i = i + 1;
        }
        None
    }

    /// Append `task` to the bucket for its due height, preserving arrival
    /// order. Only called after admission has succeeded upstream.
    pub fn enqueue(&mut self, task: Task<A>)
        requires
            old(self).wf(),
            task.due_height != 0,
        ensures
            final(self).wf(),
            final(self).bucket(task.due_height) == old(self).bucket(task.due_height).push(task),
            forall|h: Height|
                h != task.due_height ==> final(self).bucket(h) == old(self).bucket(h),
    {
        let ghost pre = self.buckets@;
        let ghost t = task;
        let due = task.due_height;
        match self.find(due) {
            Some(i) => {
                let (h, mut v) = self.buckets.remove(i);
                v.push(task);
                self.buckets.push((h, v));
                proof {
                    let mid = pre.remove(i as int);
                    let post = self.buckets@;
                    let last = post.len() - 1;
                    assert(post[last].0 == due);
                    assert(post[last].1@ == pre[i as int].1@.push(t));
                    lemma_lookup_found(pre, i as int);
                    lemma_lookup_remove(pre, i as int, due);
                    assert forall|k: Height| true implies lookup(post, k) == (if k == due {
                        Some(post[last].1)
                    } else {
                        lookup(pre, k)
                    }) by {
                        lemma_lookup_remove(pre, i as int, k);
                        lemma_lookup_push(mid, post[last], k);
                    }
                    assert forall|x: int, y: int| 0 <= x < y < post.len() implies (
                    #[trigger] post[x]).0 != (#[trigger] post[y]).0 by {
                        assert(post[x] == mid[x]);
                        assert(mid[x] == (if x < i { pre[x] } else { pre[x + 1] }));
                        if y < last {
                            assert(post[y] == mid[y]);
                            assert(mid[y] == (if y < i { pre[y] } else { pre[y + 1] }));
                        }
                    }
                    assert forall|j: int, x: int|
                        0 <= j < post.len() && 0 <= x < post[j].1@.len() implies (
                    #[trigger] post[j].1@[x]).due_height == post[j].0 by {
                        if j < last {
                            assert(post[j] == mid[j]);
                            assert(mid[j] == (if j < i { pre[j] } else { pre[j + 1] }));
                        } else {
                            if x < pre[i as int].1@.len() {
                                assert(post[j].1@[x] == pre[i as int].1@[x]);
                            } else {
                                assert(post[j].1@[x] == t);
                            }
                        }
                    }
                }
            },
            None => {
                let mut v: Vec<Task<A>> = Vec::new();
                v.push(task);
                self.buckets.push((due, v));
                proof {
                    lemma_lookup_absent(pre, due);
                    let post = self.buckets@;
                    let last = post.len() - 1;
                    assert(post[last].0 == due);
                    assert(post[last].1@ == Seq::<Task<A>>::empty().push(t));
                    assert forall|k: Height| true implies lookup(post, k) == (if k == due {
                        Some(post[last].1)
                    } else {
                        lookup(pre, k)
                    }) by {
                        lemma_lookup_push(pre, post[last], k);
                    }
                    assert forall|x: int, y: int| 0 <= x < y < post.len() implies (
                    #[trigger] post[x]).0 != (#[trigger] post[y]).0 by {
                        assert(post[x] == pre[x]);
                        if y < last {
                            assert(post[y] == pre[y]);
                        }
                    }
                    assert forall|j: int, x: int|
                        0 <= j < post.len() && 0 <= x < post[j].1@.len() implies (
                    #[trigger] post[j].1@[x]).due_height == post[j].0 by {
                        if j < last {
                            assert(post[j] == pre[j]);
                        } else {
                            assert(post[j].1@[x] == t);
                        }
                    }
                    assert(final(self).bucket(due) =~= old(self).bucket(due).push(t));
                }
            },
        }
    }

    /// Remove and return, in order, every task in the bucket for `height`;
    /// the bucket is empty afterwards. Called once per height, immediately
    /// before the carry-over merge.
    pub fn drain_due(&mut self, height: Height) -> (tasks: Vec<Task<A>>)
        requires
            old(self).wf(),
            height != 0,
        ensures
            final(self).wf(),
            tasks@ == old(self).bucket(height),
            final(self).bucket(height) == Seq::<Task<A>>::empty(),
            forall|h: Height| h != height ==> final(self).bucket(h) == old(self).bucket(h),
    {
        let ghost pre = self.buckets@;
        match self.find(height) {
            Some(i) => {
                proof {
                    lemma_lookup_found(pre, i as int);
                    assert forall|k: Height| true implies lookup(pre.remove(i as int), k) == (
                    if k == height {
                        None
                    } else {
                        lookup(pre, k)
                    }) by {
                        lemma_lookup_remove(pre, i as int, k);
                    }
                    lemma_lookup_remove(pre, i as int, height);
                    assert forall|j: int, x: int|
                        0 <= j < pre.remove(i as int).len() && 0 <= x < pre.remove(
                            i as int,
                        )[j].1@.len() implies (#[trigger] pre.remove(i as int)[j].1@[x]).due_height
                        == pre.remove(i as int)[j].0 by {
                        assert(pre.remove(i as int)[j] == (if j < i {
                            pre[j]
                        } else {
                            pre[j + 1]
                        }));
                    }
                }
                let (_, v) = self.buckets.remove(i);
                proof {
                    assert(final(self).bucket(height) =~= Seq::<Task<A>>::empty());
                }
                v
            },
            None => {
                proof {
                    lemma_lookup_absent(pre, height);
                    assert(old(self).bucket(height) =~= Seq::<Task<A>>::empty());
                }
                Vec::new()
            },
        }
    }

    /// Read the carry-over bucket: the tasks that were due but not yet
    /// executed, oldest first.
    pub fn carry_over(&self) -> (tasks: &Vec<Task<A>>)
        ensures
            tasks@ == self.bucket(0),
    {
        &self.carry
    }

    /// Remove and return the whole carry-over bucket, leaving it empty.
    pub fn take_carry_over(&mut self) -> (tasks: Vec<Task<A>>)
        requires
            old(self).wf(),
        ensures
            final(self).wf(),
            tasks@ == old(self).bucket(0),
            final(self).bucket(0) == Seq::<Task<A>>::empty(),
            forall|h: Height| h != 0 ==> final(self).bucket(h) == old(self).bucket(h),
    {
        let mut tasks: Vec<Task<A>> = Vec::new();
        core::mem::swap(&mut tasks, &mut self.carry);
        tasks
    }

    /// Replace the carry-over bucket with `remaining`, the tasks left over
    /// after a bounded execution step.
    pub fn set_carry_over(&mut self, remaining: Vec<Task<A>>)
        requires
            old(self).wf(),
        ensures
            final(self).wf(),
            final(self).bucket(0) == remaining@,
            forall|h: Height| h != 0 ==> final(self).bucket(h) == old(self).bucket(h),
    {
        self.carry = remaining;
    }
}

} // verus!
