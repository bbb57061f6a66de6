//! The pool's share ledger: the outstanding supply of liquidity shares and
//! the per-holder share balances, with share conservation
//! (`total == sum of all balances`) as its well-formedness invariant.

use crate::{AccountId, Balance};
use vstd::prelude::*;

verus! {

/// A failure of a ledger operation.
#[derive(Clone, Copy, Debug, PartialEq, Eq, Structural)]
pub enum LedgerError {
    InsufficientBalance,
}

/// The sum of the balances of all entries.
pub open spec fn sum_balances(s: Seq<(AccountId, Balance)>) -> int
    decreases s.len(),
{
    if s.len() == 0 {
        0
    } else {
        s[0].1 + sum_balances(s.skip(1))
    }
}

/// The balance recorded for `a`: the sum of the values of its entries
/// (a well-formed ledger holds at most one).
pub open spec fn bal_in(s: Seq<(AccountId, Balance)>, a: AccountId) -> int
    decreases s.len(),
{
    if s.len() == 0 {
        0
    } else {
        (if s[0].0 == a {
            s[0].1 as int
        } else {
            0
        }) + bal_in(s.skip(1), a)
    }
}

/// Outstanding liquidity-share supply and the holder-indexed balances.
pub struct ShareLedger {
    pub entries: Vec<(AccountId, Balance)>,
    pub total: Balance,
}

impl ShareLedger {
    /// Each holder has at most one entry.
    pub open spec fn keys_unique(self) -> bool {
        forall|i: int, j: int|
            0 <= i < j < self.entries@.len() ==> (#[trigger] self.entries@[i]).0 != (
            #[trigger] self.entries@[j]).0
    }

    /// Share conservation: the recorded supply is exactly the sum of all
    /// holders' balances.
    pub open spec fn wf(self) -> bool {
        &&& self.keys_unique()
        &&& self.total == sum_balances(self.entries@)
    }

    /// The balance of `a`; 0 when `a` holds no shares.
    pub open spec fn bal_of(self, a: AccountId) -> int {
        bal_in(self.entries@, a)
    }

    /// An empty ledger: no supply, no holders.
    pub fn new() -> (r: ShareLedger)
        ensures
            r.wf(),
            r.total == 0,
            forall|b: AccountId| r.bal_of(b) == 0,
    {
        let r = ShareLedger { entries: Vec::new(), total: 0 };
        proof {
            assert(forall|b: AccountId| bal_in(r.entries@, b) == 0);
        }
        r
    }

    /// The recorded supply.
    pub fn total_shares(&self) -> (r: Balance)
        ensures
            r == self.total,
    {
        self.total
    }

    /// The recorded balance of `a`.
    pub fn balance_of(&self, a: AccountId) -> (r: Balance)
        requires
            self.wf(),
        ensures
            r == self.bal_of(a),
    {
        let n = self.entries.len();
        for i in 0..n
            invariant
                n == self.entries@.len(),
                self.wf(),
                forall|j: int| 0 <= j < i ==> (#[trigger] self.entries@[j]).0 != a,
        {
            if self.entries[i].0 == a {
                proof {
                    lemma_bal_at_index(self.entries@, i as int, a);
                }
                return self.entries[i].1;
            }
        }
        proof {
            lemma_bal_absent(self.entries@, a);
        }
        0
    }

    /// Credit `amount` to `a`, growing the supply by the same amount.
    pub fn credit(&mut self, a: AccountId, amount: Balance)
        requires
            old(self).wf(),
            old(self).total + amount <= u128::MAX,
        ensures
            final(self).wf(),
            final(self).total == old(self).total + amount,
            forall|b: AccountId|
                #[trigger] final(self).bal_of(b) == old(self).bal_of(b) + (if b == a {
                    amount as int
                } else {
                    0
                }),
    {
        proof {
            lemma_bal_le_sum(self.entries@, a);
        }
        let n = self.entries.len();
        for i in 0..n
            invariant
                n == self.entries@.len(),
                self.wf(),
                self.total + amount <= u128::MAX,
                bal_in(self.entries@, a) <= self.total,
                forall|j: int| 0 <= j < i ==> (#[trigger] self.entries@[j]).0 != a,
                self == old(self),
        {
            if self.entries[i].0 == a {
                proof {
                    lemma_bal_at_index(self.entries@, i as int, a);
                    lemma_update_effect(self.entries@, i as int, (a, (self.entries@[i as int].1
                        + amount) as u128));
                }
                let old_bal = self.entries[i].1;
                self.entries[i] = (a, old_bal + amount);
                self.total = self.total + amount;
                return ;
            }
        }
        proof {
            lemma_bal_absent(self.entries@, a);
            lemma_push_effect(self.entries@, (a, amount));
        }
        self.entries.push((a, amount));
        self.total = self.total + amount;
    }

    /// Debit `amount` from `a`, shrinking the supply by the same amount.
    /// The caller must have established that `a` holds at least `amount`.
    pub fn debit(&mut self, a: AccountId, amount: Balance)
        requires
            old(self).wf(),
            amount <= old(self).bal_of(a),
        ensures
            final(self).wf(),
            final(self).total == old(self).total - amount,
            forall|b: AccountId|
                #[trigger] final(self).bal_of(b) == old(self).bal_of(b) - (if b == a {
                    amount as int
                } else {
                    0
                }),
    {
        proof {
            lemma_bal_le_sum(self.entries@, a);
        }
        let n = self.entries.len();
        for i in 0..n
            invariant
                n == self.entries@.len(),
                self.wf(),
                amount <= bal_in(self.entries@, a),
                bal_in(self.entries@, a) <= self.total,
                forall|j: int| 0 <= j < i ==> (#[trigger] self.entries@[j]).0 != a,
                self == old(self),
        {
            if self.entries[i].0 == a {
                proof {
                    lemma_bal_at_index(self.entries@, i as int, a);
                    lemma_update_effect(self.entries@, i as int, (a, (self.entries@[i as int].1
                        - amount) as u128));
                }
                let old_bal = self.entries[i].1;
                self.entries[i] = (a, old_bal - amount);
                self.total = self.total - amount;
                return ;
            }
        }
        proof {
            lemma_bal_absent(self.entries@, a);
        }
    }

    /// Move `amount` of shares from `from` to `to`; the supply is unchanged.
    /// Fails, changing nothing, when `from` holds less than `amount`.
    pub fn transfer(&mut self, from: AccountId, to: AccountId, amount: Balance) -> (r: Result<
        (),
        LedgerError,
    >)
        requires
            old(self).wf(),
        ensures
            final(self).wf(),
            match r {
                Ok(()) => {
                    &&& old(self).bal_of(from) >= amount
                    &&& final(self).total == old(self).total
                    &&& forall|b: AccountId|
                        #[trigger] final(self).bal_of(b) == old(self).bal_of(b) - (if b == from {
                            amount as int
                        } else {
                            0
                        }) + (if b == to {
                            amount as int
                        } else {
                            0
                        })
                },
                Err(LedgerError::InsufficientBalance) => {
                    &&& old(self).bal_of(from) < amount
                    &&& *final(self) == *old(self)
                },
            },
    {
        let have = self.balance_of(from);
        if have < amount {
            return Err(LedgerError::InsufficientBalance);
        }
        proof {
            lemma_bal_le_sum(self.entries@, to);
        }
        self.debit(from, amount);
        proof {
            lemma_bal_le_sum(self.entries@, to);
        }
        self.credit(to, amount);
        Ok(())
    }
}

/// The balance of a holder never exceeds the sum of all balances.
pub proof fn lemma_bal_le_sum(s: Seq<(AccountId, Balance)>, a: AccountId)
    ensures
        0 <= bal_in(s, a) <= sum_balances(s),
    decreases s.len(),
{
    if s.len() > 0 {
        lemma_bal_le_sum(s.skip(1), a);
    }
}

/// In a ledger without duplicate keys, the entry for `a` carries its whole
/// balance.
proof fn lemma_bal_at_index(s: Seq<(AccountId, Balance)>, i: int, a: AccountId)
    requires
        0 <= i < s.len(),
        s[i].0 == a,
        forall|p: int, q: int| 0 <= p < q < s.len() ==> (#[trigger] s[p]).0 != (#[trigger] s[q]).0,
    ensures
        bal_in(s, a) == s[i].1,
    decreases s.len(),
{
    if i == 0 {
        lemma_bal_absent(s.skip(1), a);
    } else {
        assert(forall|p: int, q: int|
            0 <= p < q < s.skip(1).len() ==> (#[trigger] s.skip(1)[p]).0 != (
            #[trigger] s.skip(1)[q]).0);
        lemma_bal_at_index(s.skip(1), i - 1, a);
    }
}

/// A holder with no entry has balance 0.
proof fn lemma_bal_absent(s: Seq<(AccountId, Balance)>, a: AccountId)
    requires
        forall|j: int| 0 <= j < s.len() ==> (#[trigger] s[j]).0 != a,
    ensures
        bal_in(s, a) == 0,
    decreases s.len(),
{
    if s.len() > 0 {
        lemma_bal_absent(s.skip(1), a);
    }
}

/// Replacing the entry at `i` by one with the same key changes only that
/// holder's balance, and the sum by the difference.
proof fn lemma_update_effect(s: Seq<(AccountId, Balance)>, i: int, x: (AccountId, Balance))
    requires
        0 <= i < s.len(),
        x.0 == s[i].0,
    ensures
        sum_balances(s.update(i, x)) == sum_balances(s) - s[i].1 + x.1,
        forall|b: AccountId|
            #[trigger] bal_in(s.update(i, x), b) == bal_in(s, b) + (if b == x.0 {
                x.1 - s[i].1
            } else {
                0
            }),
    decreases s.len(),
{
    let t = s.update(i, x);
    if i == 0 {
        assert(t.skip(1) =~= s.skip(1));
        assert forall|b: AccountId|
            #[trigger] bal_in(t, b) == bal_in(s, b) + (if b == x.0 {
                x.1 - s[i].1
            } else {
                0
            }) by {
            assert(bal_in(t, b) == (if t[0].0 == b {
                t[0].1 as int
            } else {
                0
            }) + bal_in(t.skip(1), b));
        }
    } else {
        assert(t.skip(1) =~= s.skip(1).update(i - 1, x));
        lemma_update_effect(s.skip(1), i - 1, x);
        assert forall|b: AccountId|
            #[trigger] bal_in(t, b) == bal_in(s, b) + (if b == x.0 {
                x.1 - s[i].1
            } else {
                0
            }) by {
            assert(bal_in(t, b) == (if t[0].0 == b {
                t[0].1 as int
            } else {
                0
            }) + bal_in(t.skip(1), b));
            assert(bal_in(s, b) == (if s[0].0 == b {
                s[0].1 as int
            } else {
                0
            }) + bal_in(s.skip(1), b));
        }
    }
}

/// Appending an entry adds its value to the sum and to its holder's balance.
proof fn lemma_push_effect(s: Seq<(AccountId, Balance)>, x: (AccountId, Balance))
    ensures
        sum_balances(s.push(x)) == sum_balances(s) + x.1,
        forall|b: AccountId|
            #[trigger] bal_in(s.push(x), b) == bal_in(s, b) + (if b == x.0 {
                x.1 as int
            } else {
                0
            }),
    decreases s.len(),
{
    let t = s.push(x);
    if s.len() == 0 {
        assert(t.skip(1) =~= Seq::<(AccountId, Balance)>::empty());
        assert(sum_balances(Seq::<(AccountId, Balance)>::empty()) == 0);
        assert(t[0] == x);
        assert forall|b: AccountId|
            #[trigger] bal_in(t, b) == bal_in(s, b) + (if b == x.0 {
                x.1 as int
            } else {
                0
            }) by {
            assert(bal_in(Seq::<(AccountId, Balance)>::empty(), b) == 0);
            assert(bal_in(t, b) == (if t[0].0 == b {
                t[0].1 as int
            } else {
                0
            }) + bal_in(t.skip(1), b));
        }
    } else {
        assert(t.skip(1) =~= s.skip(1).push(x));
        lemma_push_effect(s.skip(1), x);
        assert(t[0] == s[0]);
        assert forall|b: AccountId|
            #[trigger] bal_in(t, b) == bal_in(s, b) + (if b == x.0 {
                x.1 as int
            } else {
                0
            }) by {
            assert(bal_in(t, b) == (if t[0].0 == b {
                t[0].1 as int
            } else {
                0
            }) + bal_in(t.skip(1), b));
            assert(bal_in(s, b) == (if s[0].0 == b {
                s[0].1 as int
            } else {
                0
            }) + bal_in(s.skip(1), b));
        }
    }
}

} // verus!
