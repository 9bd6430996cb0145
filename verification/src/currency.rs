//! The balance ledger that stands behind the betting operations.
//!
//! It plays the role of the currency and escrow collaborator: a mapping from
//! account identifier to balance, with a `transfer` operation that either
//! moves the full amount or fails with `InsufficientFunds` and changes
//! nothing.  The view of a ledger is a total map from account to balance;
//! an account that never received funds has balance `0`.  The ledger keeps
//! the total issuance as an invariant, so a successful transfer can never
//! overflow the recipient's balance.

use vstd::prelude::*;

verus! {

/// A failure reported by the currency collaborator: the source account
/// cannot cover the requested amount.
#[derive(Clone, Copy, Debug, PartialEq, Eq, Structural)]
pub enum CurrencyError {
    InsufficientFunds,
}

/// One account's entry in the balance ledger.
pub struct AccountBalance {
    pub account: u64,
    pub amount: u64,
}

/// The balance ledger: one entry per account that ever received funds,
/// together with the cached sum of all balances.
pub struct Balances {
    entries: Vec<AccountBalance>,
    total: u64,
}

/// The balance recorded for `account`, scanning from the most recent entry.
spec fn find_balance(s: Seq<AccountBalance>, account: u64) -> Option<u64>
    decreases s.len(),
{
    if s.len() == 0 {
        None
    } else if s.last().account == account {
        Some(s.last().amount)
    } else {
        find_balance(s.drop_last(), account)
    }
}

/// The sum of all recorded balances.
spec fn sum_balances(s: Seq<AccountBalance>) -> int
    decreases s.len(),
{
    if s.len() == 0 {
        0
    } else {
        sum_balances(s.drop_last()) + s.last().amount
    }
}

/// No account appears in two entries.
spec fn unique_accounts(s: Seq<AccountBalance>) -> bool {
    forall|i: int, j: int| 0 <= i < j < s.len() ==> s[i].account != s[j].account
}

/// The balance map after moving `amount` from `from` to `to`.
pub open spec fn spec_transfer(m: Map<u64, u64>, from: u64, to: u64, amount: u64) -> Map<u64, u64>
    recommends
        m[from] >= amount,
{
    let debited = m.insert(from, (m[from] - amount) as u64);
    debited.insert(to, (debited[to] + amount) as u64)
}

proof fn lemma_find_absent(s: Seq<AccountBalance>, account: u64)
    requires
        forall|j: int| 0 <= j < s.len() ==> s[j].account != account,
    ensures
        find_balance(s, account) is None,
    decreases s.len(),
{
    if s.len() > 0 {
        lemma_find_absent(s.drop_last(), account);
    }
}

proof fn lemma_find_present(s: Seq<AccountBalance>, i: int)
    requires
        unique_accounts(s),
        0 <= i < s.len(),
    ensures
        find_balance(s, s[i].account) == Some(s[i].amount),
    decreases s.len(),
{
    if i < s.len() - 1 {
        lemma_find_present(s.drop_last(), i);
    }
}

proof fn lemma_find_update(s: Seq<AccountBalance>, i: int, v: u64)
    requires
        unique_accounts(s),
        0 <= i < s.len(),
    ensures
        ({
            let s2 = s.update(i, AccountBalance { account: s[i].account, amount: v });
            forall|b: u64|
                find_balance(s2, b) == if b == s[i].account {
                    Some(v)
                } else {
                    find_balance(s, b)
                }
        }),
    decreases s.len(),
{
    let s2 = s.update(i, AccountBalance { account: s[i].account, amount: v });
    if i == s.len() - 1 {
        assert(s2.drop_last() =~= s.drop_last());
        assert forall|b: u64|
            find_balance(s2, b) == if b == s[i].account {
                Some(v)
            } else {
                find_balance(s, b)
            } by {
            if b != s[i].account {
                assert(find_balance(s2, b) == find_balance(s2.drop_last(), b));
                assert(find_balance(s, b) == find_balance(s.drop_last(), b));
            }
        }
    } else {
        lemma_find_update(s.drop_last(), i, v);
        assert(s2.drop_last() =~= s.drop_last().update(
            i,
            AccountBalance { account: s[i].account, amount: v },
        ));
        assert(s2.last() == s.last());
        assert forall|b: u64|
            find_balance(s2, b) == if b == s[i].account {
                Some(v)
            } else {
                find_balance(s, b)
            } by {
            assert(s[i].account != s.last().account);
            if s.last().account != b {
                assert(find_balance(s2, b) == find_balance(s2.drop_last(), b));
                assert(find_balance(s, b) == find_balance(s.drop_last(), b));
            }
        }
    }
}

proof fn lemma_find_push(s: Seq<AccountBalance>, e: AccountBalance)
    ensures
        forall|b: u64|
            find_balance(s.push(e), b) == if b == e.account {
                Some(e.amount)
            } else {
                find_balance(s, b)
            },
{
    assert(s.push(e).drop_last() =~= s);
    assert(s.push(e).last() == e);
}

proof fn lemma_sum_update(s: Seq<AccountBalance>, i: int, v: u64)
    requires
        0 <= i < s.len(),
    ensures
        sum_balances(s.update(i, AccountBalance { account: s[i].account, amount: v }))
            == sum_balances(s) - s[i].amount + v,
    decreases s.len(),
{
    let s2 = s.update(i, AccountBalance { account: s[i].account, amount: v });
    if i == s.len() - 1 {
        assert(s2.drop_last() =~= s.drop_last());
    } else {
        lemma_sum_update(s.drop_last(), i, v);
        assert(s2.drop_last() =~= s.drop_last().update(
            i,
            AccountBalance { account: s[i].account, amount: v },
        ));
        assert(s2.last() == s.last());
    }
}

proof fn lemma_sum_nonneg(s: Seq<AccountBalance>)
    ensures
        sum_balances(s) >= 0,
    decreases s.len(),
{
    if s.len() > 0 {
        lemma_sum_nonneg(s.drop_last());
    }
}

proof fn lemma_entry_le_sum(s: Seq<AccountBalance>, i: int)
    requires
        0 <= i < s.len(),
    ensures
        s[i].amount <= sum_balances(s),
    decreases s.len(),
{
    if i == s.len() - 1 {
        lemma_sum_nonneg(s.drop_last());
    } else {
        lemma_entry_le_sum(s.drop_last(), i);
    }
}

impl View for Balances {
    type V = Map<u64, u64>;

    /// A total map: every account has a balance, `0` unless recorded.
    closed spec fn view(&self) -> Map<u64, u64> {
        Map::new(
            |account: u64| true,
            |account: u64|
                match find_balance(self.entries@, account) {
                    Some(v) => v,
                    None => 0u64,
                },
        )
    }
}

impl Balances {
    /// Entries name each account at most once, and `total` is the sum of
    /// all balances; every balance is therefore at most `total`.
    pub closed spec fn wf(self) -> bool {
        &&& unique_accounts(self.entries@)
        &&& sum_balances(self.entries@) == self.total as int
    }

    /// The sum of all balances.
    pub closed spec fn total_spec(self) -> int {
        self.total as int
    }

    /// An empty ledger: every account has balance `0`.
    pub fn new() -> (r: Balances)
        ensures
            r.wf(),
            r.total_spec() == 0,
            forall|a: u64| r@.dom().contains(a),
            forall|a: u64| r@[a] == 0,
    {
        Balances { entries: Vec::new(), total: 0 }
    }

    fn find_index(&self, account: u64) -> (r: Option<usize>)
        ensures
            match r {
                Some(i) => i < self.entries@.len() && self.entries@[i as int].account == account,
                None => forall|j: int|
                    0 <= j < self.entries@.len() ==> self.entries@[j].account != account,
            },
    {
        let n = self.entries.len();
        let mut i: usize = 0;
        while i < n
            invariant
                n == self.entries@.len(),
                i <= n,
                forall|j: int| 0 <= j < i ==> self.entries@[j].account != account,
            decreases n - i,
        {
            if self.entries[i].account == account {
                return Some(i);
            }
            i += 1;
        }
        None
    }

    /// The balance held by `account`.
    pub fn balance_of(&self, account: u64) -> (r: u64)
        requires
            self.wf(),
        ensures
            r == self@[account],
    {
        match self.find_index(account) {
            Some(i) => {
                proof {
                    lemma_find_present(self.entries@, i as int);
                }
                self.entries[i].amount
            },
            None => {
                proof {
                    lemma_find_absent(self.entries@, account);
                }
                0
            },
        }
    }

    /// Adds `amount` to `account`, growing the total issuance.
    pub fn deposit(&mut self, account: u64, amount: u64)
        requires
            old(self).wf(),
            old(self).total_spec() + amount <= u64::MAX,
        ensures
            final(self).wf(),
            final(self).total_spec() == old(self).total_spec() + amount,
            final(self)@ == old(self)@.insert(account, (old(self)@[account] + amount) as u64),
    {
        let ghost pre = *self;
        match self.find_index(account) {
            Some(i) => {
                proof {
                    lemma_find_present(self.entries@, i as int);
                    lemma_entry_le_sum(self.entries@, i as int);
                }
                let new_amount = self.entries[i].amount + amount;
                self.entries[i] = AccountBalance { account, amount: new_amount };
                self.total = self.total + amount;
                proof {
                    lemma_find_update(pre.entries@, i as int, new_amount);
                    lemma_sum_update(pre.entries@, i as int, new_amount);
                    assert(unique_accounts(self.entries@));
                    assert(self@ =~= pre@.insert(account, (pre@[account] + amount) as u64));
                }
            },
            None => {
                proof {
                    lemma_find_absent(self.entries@, account);
                    lemma_sum_nonneg(self.entries@);
                }
                self.entries.push(AccountBalance { account, amount });
                self.total = self.total + amount;
                proof {
                    lemma_find_push(pre.entries@, AccountBalance { account, amount });
                    assert(self.entries@.drop_last() =~= pre.entries@);
                    assert(unique_accounts(self.entries@));
                    assert(self@ =~= pre@.insert(account, (pre@[account] + amount) as u64));
                }
            },
        }
    }

    /// Removes `amount` from `account`, shrinking the total issuance.
    fn withdraw(&mut self, account: u64, amount: u64)
        requires
            old(self).wf(),
            old(self)@[account] >= amount,
        ensures
            final(self).wf(),
            final(self).total_spec() == old(self).total_spec() - amount,
            final(self)@ == old(self)@.insert(account, (old(self)@[account] - amount) as u64),
    {
        let ghost pre = *self;
        match self.find_index(account) {
            Some(i) => {
                proof {
                    lemma_find_present(self.entries@, i as int);
                    lemma_entry_le_sum(self.entries@, i as int);
                }
                let new_amount = self.entries[i].amount - amount;
                self.entries[i] = AccountBalance { account, amount: new_amount };
                self.total = self.total - amount;
                proof {
                    lemma_find_update(pre.entries@, i as int, new_amount);
                    lemma_sum_update(pre.entries@, i as int, new_amount);
                    assert(unique_accounts(self.entries@));
                    assert(self@ =~= pre@.insert(account, (pre@[account] - amount) as u64));
                }
            },
            None => {
                proof {
                    lemma_find_absent(self.entries@, account);
                    assert(pre@[account] == 0);
                    assert(self@ =~= pre@.insert(account, (pre@[account] - amount) as u64));
                }
            },
        }
    }

    /// Moves `amount` from `from` to `to`; on failure nothing changes and
    /// the collaborator's own `InsufficientFunds` is reported.
    pub fn transfer(&mut self, from: u64, to: u64, amount: u64) -> (r: Result<(), CurrencyError>)
        requires
            old(self).wf(),
        ensures
            final(self).wf(),
            final(self).total_spec() == old(self).total_spec(),
            r is Ok <==> old(self)@[from] >= amount,
            r is Ok ==> final(self)@ == spec_transfer(old(self)@, from, to, amount),
            r is Err ==> *final(self) == *old(self) && r == Err::<(), CurrencyError>(
                CurrencyError::InsufficientFunds,
            ),
    {
        let bal = self.balance_of(from);
        if bal < amount {
            return Err(CurrencyError::InsufficientFunds);
        }
        self.withdraw(from, amount);
        self.deposit(to, amount);
        Ok(())
    }
}

} // verus!
