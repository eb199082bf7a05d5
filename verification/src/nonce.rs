//! The nonce ledger: one monotonically increasing counter per account,
//! guarding admission against replay and duplication.

use vstd::prelude::*;

use crate::kvlist::lemma_lookup_absent;
use crate::kvlist::lemma_lookup_found;
use crate::kvlist::lemma_lookup_push;
use crate::kvlist::lemma_lookup_update;
use crate::kvlist::lookup;
use crate::kvlist::unique_keys;
use crate::task::AccountId;
use crate::task::InvalidNonce;
use crate::task::Nonce;

verus! {

/// The admission rule: a submission is admitted iff it presents exactly the
/// account's current counter value. The counter must also have room to
/// advance, so the one value `u64::MAX` can never be consumed.
pub open spec fn admissible(counter: Nonce, presented: Nonce) -> bool {
    presented == counter && counter < u64::MAX
}

/// How one submission moves an account's counter: up by exactly one when
/// admitted, otherwise not at all.
pub open spec fn counter_step(counter: Nonce, presented: Nonce) -> Nonce {
    if admissible(counter, presented) {
        (counter + 1) as Nonce
    } else {
        counter
    }
}

/// The counter an account reaches after presenting `presented`, in order,
/// starting from `counter`.
pub open spec fn counter_after(counter: Nonce, presented: Seq<Nonce>) -> Nonce
    decreases presented.len(),
{
    if presented.len() == 0 {
        counter
    } else {
        counter_after(counter_step(counter, presented[0]), presented.skip(1))
    }
}

/// How many of the submissions in `presented`, made in order from `counter`,
/// are admitted.
pub open spec fn admitted_count(counter: Nonce, presented: Seq<Nonce>) -> nat
    decreases presented.len(),
{
    if presented.len() == 0 {
        0
    } else {
        (if admissible(counter, presented[0]) {
            1nat
        } else {
            0nat
        }) + admitted_count(counter_step(counter, presented[0]), presented.skip(1))
    }
}

/// Nonce monotonicity: over any run of submissions the counter grows by
/// exactly the number of admitted ones and never decreases. In particular,
/// starting from `0`, after `N` successful submissions the expected nonce
/// is `N`.
pub proof fn lemma_nonce_monotonicity(counter: Nonce, presented: Seq<Nonce>)
    ensures
        counter_after(counter, presented) == counter + admitted_count(counter, presented),
        counter_after(counter, presented) >= counter,
    decreases presented.len(),
{
    if presented.len() > 0 {
        lemma_nonce_monotonicity(counter_step(counter, presented[0]), presented.skip(1));
    }
}

/// Replay rejection: a nonce below the counter — one already consumed — is
/// never admissible again, and presenting it leaves the counter unchanged.
/// Together with monotonicity this bars every once-admitted pair forever.
pub proof fn lemma_replay_rejected(counter: Nonce, presented: Nonce)
    requires
        presented < counter,
    ensures
        !admissible(counter, presented),
        counter_step(counter, presented) == counter,
{
}

/// Per-account monotonically increasing counters. Accounts never seen have
/// counter `0`; a counter only ever moves by `counter_step`.
pub struct NonceLedger {
    entries: Vec<(AccountId, Nonce)>,
}

impl NonceLedger {
    /// Each account occurs at most once in the backing list.
    pub closed spec fn wf(self) -> bool {
        unique_keys(self.entries@)
    }

    /// The counter of `account`: the next nonce that account must present.
    pub closed spec fn nonce_of(self, account: AccountId) -> Nonce {
        match lookup(self.entries@, account) {
            Some(n) => n,
            None => 0,
        }
    }

    /// An empty ledger: every account's counter is `0`.
    pub fn new() -> (ledger: Self)
        ensures
            ledger.wf(),
            forall|a: AccountId| ledger.nonce_of(a) == 0,
    {
        let ledger = NonceLedger { entries: Vec::new() };
        proof {
            assert forall|a: AccountId| ledger.nonce_of(a) == 0 by {
                lemma_lookup_absent(ledger.entries@, a);
            }
        }
        ledger
    }

    /// The position of `account` in the backing list, if it has one.
    fn find(&self, account: AccountId) -> (r: Option<usize>)
        ensures
            match r {
                Some(i) => i < self.entries@.len() && self.entries@[i as int].0 == account,
                None => forall|j: int|
                    0 <= j < self.entries@.len() ==> (#[trigger] self.entries@[j]).0 != account,
            },
    {
        let mut i: usize = 0;
        while i < self.entries.len()
            invariant
                i <= self.entries@.len(),
                forall|j: int| 0 <= j < i ==> (#[trigger] self.entries@[j]).0 != account,
            decreases self.entries@.len() - i,
        {
            if self.entries[i].0 == account {
                return Some(i);
            }
            i = i + 1;
        }
        None
    }

    /// The account's current counter; `0` for unseen accounts, never an error.
    pub fn expected_nonce(&self, account: AccountId) -> (r: Nonce)
        requires
            self.wf(),
        ensures
            r == self.nonce_of(account),
    {
        match self.find(account) {
            Some(i) => {
                proof {
                    lemma_lookup_found(self.entries@, i as int);
                }
                self.entries[i].1
            },
            None => {
                proof {
                    lemma_lookup_absent(self.entries@, account);
                }
                0
            },
        }
    }

    /// Admit a submission iff it presents the account's current counter, in
    /// which case the counter advances by one; otherwise the ledger is left
    /// exactly as it was and the caller gets `InvalidNonce`.
    pub fn accept(&mut self, account: AccountId, presented: Nonce) -> (r: Result<(), InvalidNonce>)
        requires
            old(self).wf(),
        ensures
            final(self).wf(),
            r is Ok <==> admissible(old(self).nonce_of(account), presented),
            final(self).nonce_of(account) == counter_step(old(self).nonce_of(account), presented),
            forall|a: AccountId|
                a != account ==> final(self).nonce_of(a) == old(self).nonce_of(a),
    {
        match self.find(account) {
            Some(i) => {
                proof {
                    lemma_lookup_found(self.entries@, i as int);
                }
                let current = self.entries[i].1;
                if presented == current && current < u64::MAX {
                    proof {
                        lemma_lookup_update(
                            self.entries@,
                            i as int,
                            (account, (current + 1) as u64),
                            account,
                        );
                        assert forall|a: AccountId| a != account implies lookup(
                            self.entries@.update(i as int, (account, (current + 1) as u64)),
                            a,
                        ) == lookup(self.entries@, a) by {
                            lemma_lookup_update(
                                self.entries@,
                                i as int,
                                (account, (current + 1) as u64),
                                a,
                            );
                        }
                    }
                    self.entries.set(i, (account, current + 1));
                    Ok(())
                } else {
                    Err(InvalidNonce)
                }
            },
            None => {
                proof {
                    lemma_lookup_absent(self.entries@, account);
                }
                if presented == 0 {
                    proof {
                        assert forall|a: AccountId| lookup(self.entries@.push((account, 1u64)), a)
                            == if a == account {
                            Some(1u64)
                        } else {
                            lookup(self.entries@, a)
                        } by {
                            lemma_lookup_push(self.entries@, (account, 1u64), a);
                        }
                        let u = self.entries@.push((account, 1u64));
                        assert forall|x: int, y: int| 0 <= x < y < u.len() implies (
                        #[trigger] u[x]).0 != (#[trigger] u[y]).0 by {
                            assert(u[x] == self.entries@[x]);
                        }
                    }
                    self.entries.push((account, 1));
                    Ok(())
                } else {
                    Err(InvalidNonce)
                }
            },
        }
    }

    /// Advance the account's counter by exactly one.
    pub fn bump(&mut self, account: AccountId)
        requires
            old(self).wf(),
            old(self).nonce_of(account) < u64::MAX,
        ensures
            final(self).wf(),
            final(self).nonce_of(account) == old(self).nonce_of(account) + 1,
            forall|a: AccountId|
                a != account ==> final(self).nonce_of(a) == old(self).nonce_of(a),
    {
        let current = self.expected_nonce(account);
        let _ = self.accept(account, current);
    }
}

} // verus!
