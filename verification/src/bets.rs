//! The bet ledger: at most one live stake per account and event.
//!
//! A stake records the chosen team and the amount already moved to escrow
//! at placement time.  A stake is created once and consumed exactly once,
//! by settlement or by withdrawal.  The view of the store is the map from
//! `(account, event name)` to the stored stake.

use vstd::prelude::*;

use crate::registry::bytes_eq;

verus! {

/// A placed stake: the chosen winning team and the escrowed amount.
#[derive(Clone, Copy, Debug, PartialEq, Eq, Structural)]
pub struct BetOnSomething {
    pub team: u8,
    pub amount: u64,
}

/// One live stake, keyed by the account that placed it and the event name.
pub struct BetEntry {
    pub account: u64,
    pub name: Vec<u8>,
    pub bet: BetOnSomething,
}

/// The store of all live stakes.
pub struct BetStore {
    records: Vec<BetEntry>,
}

/// The key a stake is stored under.
spec fn key_of(e: BetEntry) -> (u64, Seq<u8>) {
    (e.account, e.name@)
}

/// The stake recorded under `key`, scanning from the most recent record.
spec fn find_bet(s: Seq<BetEntry>, key: (u64, Seq<u8>)) -> Option<BetOnSomething>
    decreases s.len(),
{
    if s.len() == 0 {
        None
    } else if key_of(s.last()) == key {
        Some(s.last().bet)
    } else {
        find_bet(s.drop_last(), key)
    }
}

/// No key is held by two records.
spec fn unique_keys(s: Seq<BetEntry>) -> bool {
    forall|i: int, j: int| 0 <= i < j < s.len() ==> key_of(s[i]) != key_of(s[j])
}

proof fn lemma_find_absent(s: Seq<BetEntry>, key: (u64, Seq<u8>))
    requires
        forall|j: int| 0 <= j < s.len() ==> key_of(s[j]) != key,
    ensures
        find_bet(s, key) is None,
    decreases s.len(),
{
    if s.len() > 0 {
        lemma_find_absent(s.drop_last(), key);
    }
}

proof fn lemma_find_present(s: Seq<BetEntry>, i: int)
    requires
        unique_keys(s),
        0 <= i < s.len(),
    ensures
        find_bet(s, key_of(s[i])) == Some(s[i].bet),
    decreases s.len(),
{
    if i < s.len() - 1 {
        lemma_find_present(s.drop_last(), i);
    }
}

proof fn lemma_find_push(s: Seq<BetEntry>, e: BetEntry)
    ensures
        forall|k: (u64, Seq<u8>)|
            find_bet(s.push(e), k) == if k == key_of(e) {
                Some(e.bet)
            } else {
                find_bet(s, k)
            },
{
    assert(s.push(e).drop_last() =~= s);
    assert(s.push(e).last() == e);
    assert forall|k: (u64, Seq<u8>)|
        find_bet(s.push(e), k) == if k == key_of(e) {
            Some(e.bet)
        } else {
            find_bet(s, k)
        } by {
        if k != key_of(e) {
            assert(find_bet(s.push(e), k) == find_bet(s.push(e).drop_last(), k));
        }
    }
}

proof fn lemma_find_remove(s: Seq<BetEntry>, i: int)
    requires
        unique_keys(s),
        0 <= i < s.len(),
    ensures
        forall|k: (u64, Seq<u8>)|
            find_bet(s.remove(i), k) == if k == key_of(s[i]) {
                None::<BetOnSomething>
            } else {
                find_bet(s, k)
            },
    decreases s.len(),
{
    if i == s.len() - 1 {
        assert(s.remove(i) =~= s.drop_last());
        assert forall|k: (u64, Seq<u8>)|
            find_bet(s.remove(i), k) == if k == key_of(s[i]) {
                None::<BetOnSomething>
            } else {
                find_bet(s, k)
            } by {
            if k == key_of(s[i]) {
                assert(forall|j: int| 0 <= j < s.len() - 1 ==> key_of(s.drop_last()[j]) != k);
                lemma_find_absent(s.drop_last(), k);
            } else {
                assert(find_bet(s, k) == find_bet(s.drop_last(), k));
            }
        }
    } else {
        lemma_find_remove(s.drop_last(), i);
        assert(s.remove(i).drop_last() =~= s.drop_last().remove(i));
        assert(s.remove(i).last() == s.last());
        assert forall|k: (u64, Seq<u8>)|
            find_bet(s.remove(i), k) == if k == key_of(s[i]) {
                None::<BetOnSomething>
            } else {
                find_bet(s, k)
            } by {
            assert(key_of(s[i]) != key_of(s.last()));
            if key_of(s.last()) != k {
                assert(find_bet(s.remove(i), k) == find_bet(s.remove(i).drop_last(), k));
                assert(find_bet(s, k) == find_bet(s.drop_last(), k));
            }
        }
    }
}

impl View for BetStore {
    type V = Map<(u64, Seq<u8>), BetOnSomething>;

    /// The map from `(account, event name)` to the stored stake.
    closed spec fn view(&self) -> Map<(u64, Seq<u8>), BetOnSomething> {
        Map::new(
            |k: (u64, Seq<u8>)| find_bet(self.records@, k) is Some,
            |k: (u64, Seq<u8>)|
                match find_bet(self.records@, k) {
                    Some(b) => b,
                    None => BetOnSomething { team: 0, amount: 0 },
                },
        )
    }
}

impl BetStore {
    /// Each key holds at most one stake.
    pub closed spec fn wf(self) -> bool {
        unique_keys(self.records@)
    }

    /// An empty store.
    pub fn new() -> (r: BetStore)
        ensures
            r.wf(),
            r@ == Map::<(u64, Seq<u8>), BetOnSomething>::empty(),
    {
        let r = BetStore { records: Vec::new() };
        proof {
            assert(r@ =~= Map::<(u64, Seq<u8>), BetOnSomething>::empty());
        }
        r
    }

    fn find_index(&self, account: u64, name: &Vec<u8>) -> (r: Option<usize>)
        ensures
            match r {
                Some(i) => i < self.records@.len() && key_of(self.records@[i as int]) == (
                    account,
                    name@,
                ),
                None => forall|j: int|
                    0 <= j < self.records@.len() ==> key_of(self.records@[j]) != (account, name@),
            },
    {
        let n = self.records.len();
        let mut i: usize = 0;
        while i < n
            invariant
                n == self.records@.len(),
                i <= n,
                forall|j: int| 0 <= j < i ==> key_of(self.records@[j]) != (account, name@),
            decreases n - i,
        {
            if self.records[i].account == account && bytes_eq(&self.records[i].name, name) {
                return Some(i);
            }
            i += 1;
        }
        None
    }

    /// Whether a stake is held under `(account, name)`.
    pub fn contains(&self, account: u64, name: &Vec<u8>) -> (r: bool)
        requires
            self.wf(),
        ensures
            r == self@.contains_key((account, name@)),
    {
        match self.find_index(account, name) {
            Some(i) => {
                proof {
                    lemma_find_present(self.records@, i as int);
                }
                true
            },
            None => {
                proof {
                    lemma_find_absent(self.records@, (account, name@));
                }
                false
            },
        }
    }

    /// The stake held under `(account, name)`, if any.
    pub fn get(&self, account: u64, name: &Vec<u8>) -> (r: Option<BetOnSomething>)
        requires
            self.wf(),
        ensures
            match r {
                Some(b) => self@.contains_key((account, name@)) && b == self@[(account, name@)],
                None => !self@.contains_key((account, name@)),
            },
    {
        match self.find_index(account, name) {
            Some(i) => {
                proof {
                    lemma_find_present(self.records@, i as int);
                }
                Some(self.records[i].bet)
            },
            None => {
                proof {
                    lemma_find_absent(self.records@, (account, name@));
                }
                None
            },
        }
    }

    /// Stores a stake under a key that holds none.
    pub fn insert(&mut self, account: u64, name: Vec<u8>, bet: BetOnSomething)
        requires
            old(self).wf(),
            !old(self)@.contains_key((account, name@)),
        ensures
            final(self).wf(),
            final(self)@ == old(self)@.insert((account, name@), bet),
    {
        let ghost pre = *self;
        proof {
            if exists|j: int|
                0 <= j < pre.records@.len() && key_of(pre.records@[j]) == (account, name@) {
                let j = choose|j: int|
                    0 <= j < pre.records@.len() && key_of(pre.records@[j]) == (account, name@);
                lemma_find_present(pre.records@, j);
                assert(false);
            }
        }
        self.records.push(BetEntry { account, name, bet });
        proof {
            assert(self.records@.drop_last() =~= pre.records@);
            assert(unique_keys(self.records@));
            lemma_find_push(pre.records@, self.records@.last());
            assert(self@ =~= pre@.insert(key_of(self.records@.last()), bet));
        }
    }

    /// Removes and returns the stake held under `(account, name)`.
    pub fn take(&mut self, account: u64, name: &Vec<u8>) -> (r: BetOnSomething)
        requires
            old(self).wf(),
            old(self)@.contains_key((account, name@)),
        ensures
            final(self).wf(),
            r == old(self)@[(account, name@)],
            final(self)@ == old(self)@.remove((account, name@)),
    {
        let ghost pre = *self;
        match self.find_index(account, name) {
            Some(i) => {
                proof {
                    lemma_find_present(self.records@, i as int);
                    lemma_find_remove(self.records@, i as int);
                }
                let entry = self.records.remove(i);
                proof {
                    assert(forall|a: int, b: int|
                        0 <= a < b < self.records@.len() ==> key_of(self.records@[a]) != key_of(
                            self.records@[b],
                        )) by {
                        assert(forall|a: int|
                            0 <= a < self.records@.len() ==> self.records@[a] == if a < i {
                                pre.records@[a]
                            } else {
                                pre.records@[a + 1]
                            });
                    }
                    assert(self@ =~= pre@.remove((account, name@)));
                }
                entry.bet
            },
            None => {
                proof {
                    lemma_find_absent(pre.records@, (account, name@));
                    assert(false);
                }
                BetOnSomething { team: 0, amount: 0 }
            },
        }
    }
}

} // verus!
