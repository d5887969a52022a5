use vstd::prelude::*;
use crate::table::{keys_distinct, has_key, to_map, lemma_to_map_index, lemma_to_map_update, lemma_to_map_push};
use crate::types::{AccountId, Balance, Error};

verus! {

/// Free balances of the fungible currency, with the least balance that an
/// account kept alive must retain.
pub struct Ledger {
    balances: Vec<(AccountId, Balance)>,
    min_balance: Balance,
}

impl Ledger {
    /// No account has two entries.
    pub closed spec fn wf(self) -> bool {
        keys_distinct(self.balances@)
    }

    /// The free balance of an account; an account never credited has none.
    pub closed spec fn balance_of(self, who: AccountId) -> nat {
        let m = to_map(self.balances@);
        if m.contains_key(who) {
            m[who] as nat
        } else {
            0
        }
    }

    /// The least balance that a transfer under keep-alive leaves behind.
    pub closed spec fn spec_min_balance(self) -> nat {
        self.min_balance as nat
    }

    /// Whether moving `amount` out of `from` is allowed under the keep-alive policy.
    pub open spec fn can_withdraw(self, from: AccountId, amount: Balance, keep_alive: bool) -> bool {
        &&& amount <= self.balance_of(from)
        &&& keep_alive ==> self.balance_of(from) - amount >= self.spec_min_balance()
    }

    /// An empty ledger.
    pub fn new(min_balance: Balance) -> (r: Ledger)
        ensures
            r.wf(),
            r.spec_min_balance() == min_balance,
            forall|a: AccountId| r.balance_of(a) == 0,
    {
        Ledger { balances: Vec::new(), min_balance }
    }

    /// The least balance that a transfer under keep-alive leaves behind.
    pub fn min_balance(&self) -> (r: Balance)
        ensures
            r == self.spec_min_balance(),
    {
        self.min_balance
    }

    fn find(&self, who: AccountId) -> (r: Option<usize>)
        ensures
            match r {
                Some(i) => i < self.balances@.len() && self.balances@[i as int].0 == who,
                None => !has_key(self.balances@, who),
            },
    {
        let mut i: usize = 0;
        while i < self.balances.len()
            invariant
                i <= self.balances@.len(),
                forall|k: int| 0 <= k < i ==> self.balances@[k].0 != who,
            decreases self.balances@.len() - i,
        {
            if self.balances[i].0 == who {
                return Some(i);
            }
            i = i + 1;
        }
        None
    }

    /// The free balance of an account.
    pub fn free_balance(&self, who: AccountId) -> (r: Balance)
        requires
            self.wf(),
        ensures
            r == self.balance_of(who),
    {
        match self.find(who) {
            Some(i) => {
                proof {
                    lemma_to_map_index(self.balances@, i as int);
                }
                self.balances[i].1
            },
            None => 0,
        }
    }

    /// Sets the free balance of an account.
    pub fn set_balance(&mut self, who: AccountId, amount: Balance)
        requires
            old(self).wf(),
        ensures
            final(self).wf(),
            final(self).spec_min_balance() == old(self).spec_min_balance(),
            final(self).balance_of(who) == amount,
            forall|a: AccountId| a != who ==> final(self).balance_of(a) == old(self).balance_of(a),
    {
        match self.find(who) {
            Some(i) => {
                proof {
                    lemma_to_map_update(self.balances@, i as int, amount);
                }
                self.balances.set(i, (who, amount));
            },
            None => {
                proof {
                    lemma_to_map_push(self.balances@, who, amount);
                }
                self.balances.push((who, amount));
            },
        }
    }

    /// Moves `amount` from `from` to `to`. Under `keep_alive`, `from` must keep at
    /// least the minimum balance. Nothing changes on failure.
    pub fn transfer(&mut self, from: AccountId, to: AccountId, amount: Balance, keep_alive: bool) -> (r: Result<(), Error>)
        requires
            old(self).wf(),
        ensures
            final(self).wf(),
            final(self).spec_min_balance() == old(self).spec_min_balance(),
            !old(self).can_withdraw(from, amount, keep_alive) ==> r == Err::<(), Error>(Error::NotEnoughBalance),
            old(self).can_withdraw(from, amount, keep_alive) && from != to
                && old(self).balance_of(to) + amount > u64::MAX
                ==> r == Err::<(), Error>(Error::BalanceOverflow),
            r is Err ==> *final(self) == *old(self),
            r is Ok <==> (old(self).can_withdraw(from, amount, keep_alive) && (from == to
                || old(self).balance_of(to) + amount <= u64::MAX)),
            r is Ok ==> forall|a: AccountId| #[trigger] final(self).balance_of(a) == if from == to {
                old(self).balance_of(a)
            } else if a == from {
                (old(self).balance_of(a) - amount) as nat
            } else if a == to {
                (old(self).balance_of(a) + amount) as nat
            } else {
                old(self).balance_of(a)
            },
    {
        let bf = self.free_balance(from);
        if bf < amount || (keep_alive && bf - amount < self.min_balance) {
            return Err(Error::NotEnoughBalance);
        }
        if from == to {
            return Ok(());
        }
        let bt = self.free_balance(to);
        if bt > u64::MAX - amount {
            return Err(Error::BalanceOverflow);
        }
        self.set_balance(from, bf - amount);
        self.set_balance(to, bt + amount);
        Ok(())
    }
}

} // verus!
