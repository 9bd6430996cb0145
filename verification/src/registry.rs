//! The event registry: the ground truth for which events exist and who won.
//!
//! An event is a named record with a single `u8` outcome; `0` means the
//! event is still open, any other value names the winning team.  Names are
//! unique, events are never deleted, and recording an outcome overwrites
//! the stored value unconditionally.  The view of a registry is the map
//! from registered name to stored outcome.

use vstd::prelude::*;

verus! {

/// One registered event: its name and the outcome recorded so far.
pub struct EventRecord {
    pub name: Vec<u8>,
    pub outcome: u8,
}

/// The registry of all events, keyed by name.
pub struct EventRegistry {
    records: Vec<EventRecord>,
}

/// Byte-wise equality of two names.
pub(crate) fn bytes_eq(a: &Vec<u8>, b: &Vec<u8>) -> (r: bool)
    ensures
        r == (a@ =~= b@),
{
    if a.len() != b.len() {
        return false;
    }
    let n = a.len();
    let mut i: usize = 0;
    while i < n
        invariant
            n == a@.len(),
            n == b@.len(),
            i <= n,
            forall|j: int| 0 <= j < i ==> a@[j] == b@[j],
        decreases n - i,
    {
        if a[i] != b[i] {
            return false;
        }
        i += 1;
    }
    true
}

/// The outcome recorded for `name`, scanning from the most recent record.
spec fn find_outcome(s: Seq<EventRecord>, name: Seq<u8>) -> Option<u8>
    decreases s.len(),
{
    if s.len() == 0 {
        None
    } else if s.last().name@ == name {
        Some(s.last().outcome)
    } else {
        find_outcome(s.drop_last(), name)
    }
}

/// No event name appears in two records.
spec fn unique_names(s: Seq<EventRecord>) -> bool {
    forall|i: int, j: int| 0 <= i < j < s.len() ==> s[i].name@ != s[j].name@
}

proof fn lemma_find_absent(s: Seq<EventRecord>, name: Seq<u8>)
    requires
        forall|j: int| 0 <= j < s.len() ==> s[j].name@ != name,
    ensures
        find_outcome(s, name) is None,
    decreases s.len(),
{
    if s.len() > 0 {
        lemma_find_absent(s.drop_last(), name);
    }
}

proof fn lemma_find_present(s: Seq<EventRecord>, i: int)
    requires
        unique_names(s),
        0 <= i < s.len(),
    ensures
        find_outcome(s, s[i].name@) == Some(s[i].outcome),
    decreases s.len(),
{
    if i < s.len() - 1 {
        lemma_find_present(s.drop_last(), i);
    }
}

proof fn lemma_find_update(s: Seq<EventRecord>, i: int, s2: Seq<EventRecord>, v: u8)
    requires
        unique_names(s),
        0 <= i < s.len(),
        s2.len() == s.len(),
        s2[i].name@ == s[i].name@,
        s2[i].outcome == v,
        forall|j: int| 0 <= j < s.len() && j != i ==> s2[j] == s[j],
    ensures
        forall|n: Seq<u8>|
            find_outcome(s2, n) == if n == s[i].name@ {
                Some(v)
            } else {
                find_outcome(s, n)
            },
    decreases s.len(),
{
    if i == s.len() - 1 {
        assert(s2.drop_last() =~= s.drop_last());
        assert forall|n: Seq<u8>|
            find_outcome(s2, n) == if n == s[i].name@ {
                Some(v)
            } else {
                find_outcome(s, n)
            } by {
            if n != s[i].name@ {
                assert(find_outcome(s2, n) == find_outcome(s2.drop_last(), n));
                assert(find_outcome(s, n) == find_outcome(s.drop_last(), n));
            }
        }
    } else {
        lemma_find_update(s.drop_last(), i, s2.drop_last(), v);
        assert(s2.last() == s.last());
        assert forall|n: Seq<u8>|
            find_outcome(s2, n) == if n == s[i].name@ {
                Some(v)
            } else {
                find_outcome(s, n)
            } by {
            assert(s[i].name@ != s.last().name@);
            if s.last().name@ != n {
                assert(find_outcome(s2, n) == find_outcome(s2.drop_last(), n));
                assert(find_outcome(s, n) == find_outcome(s.drop_last(), n));
            }
        }
    }
}

proof fn lemma_find_push(s: Seq<EventRecord>, e: EventRecord)
    ensures
        forall|n: Seq<u8>|
            find_outcome(s.push(e), n) == if n == e.name@ {
                Some(e.outcome)
            } else {
                find_outcome(s, n)
            },
{
    assert(s.push(e).drop_last() =~= s);
    assert(s.push(e).last() == e);
    assert forall|n: Seq<u8>|
        find_outcome(s.push(e), n) == if n == e.name@ {
            Some(e.outcome)
        } else {
            find_outcome(s, n)
        } by {
        if n != e.name@ {
            assert(find_outcome(s.push(e), n) == find_outcome(s.push(e).drop_last(), n));
        }
    }
}

impl View for EventRegistry {
    type V = Map<Seq<u8>, u8>;

    /// The map from registered event name to its stored outcome.
    closed spec fn view(&self) -> Map<Seq<u8>, u8> {
        Map::new(
            |n: Seq<u8>| find_outcome(self.records@, n) is Some,
            |n: Seq<u8>|
                match find_outcome(self.records@, n) {
                    Some(v) => v,
                    None => 0u8,
                },
        )
    }
}

impl EventRegistry {
    /// Each event name is registered at most once.
    pub closed spec fn wf(self) -> bool {
        unique_names(self.records@)
    }

    /// An empty registry.
    pub fn new() -> (r: EventRegistry)
        ensures
            r.wf(),
            r@ == Map::<Seq<u8>, u8>::empty(),
    {
        let r = EventRegistry { records: Vec::new() };
        proof {
            assert(r@ =~= Map::<Seq<u8>, u8>::empty());
        }
        r
    }

    fn find_index(&self, name: &Vec<u8>) -> (r: Option<usize>)
        ensures
            match r {
                Some(i) => i < self.records@.len() && self.records@[i as int].name@ == name@,
                None => forall|j: int|
                    0 <= j < self.records@.len() ==> self.records@[j].name@ != name@,
            },
    {
        let n = self.records.len();
        let mut i: usize = 0;
        while i < n
            invariant
                n == self.records@.len(),
                i <= n,
                forall|j: int| 0 <= j < i ==> self.records@[j].name@ != name@,
            decreases n - i,
        {
            if bytes_eq(&self.records[i].name, name) {
                return Some(i);
            }
            i += 1;
        }
        None
    }

    /// Whether an event of this name has been registered.
    pub fn contains(&self, name: &Vec<u8>) -> (r: bool)
        requires
            self.wf(),
        ensures
            r == self@.contains_key(name@),
    {
        match self.find_index(name) {
            Some(i) => {
                proof {
                    lemma_find_present(self.records@, i as int);
                }
                true
            },
            None => {
                proof {
                    lemma_find_absent(self.records@, name@);
                }
                false
            },
        }
    }

    /// The stored outcome of the named event, if it is registered.
    pub fn get(&self, name: &Vec<u8>) -> (r: Option<u8>)
        requires
            self.wf(),
        ensures
            match r {
                Some(v) => self@.contains_key(name@) && v == self@[name@],
                None => !self@.contains_key(name@),
            },
    {
        match self.find_index(name) {
            Some(i) => {
                proof {
                    lemma_find_present(self.records@, i as int);
                }
                Some(self.records[i].outcome)
            },
            None => {
                proof {
                    lemma_find_absent(self.records@, name@);
                }
                None
            },
        }
    }

    /// Registers a fresh event under `name` with the given outcome.
    pub fn insert(&mut self, name: Vec<u8>, outcome: u8)
        requires
            old(self).wf(),
            !old(self)@.contains_key(name@),
        ensures
            final(self).wf(),
            final(self)@ == old(self)@.insert(name@, outcome),
    {
        let ghost pre = *self;
        proof {
            if exists|j: int| 0 <= j < pre.records@.len() && pre.records@[j].name@ == name@ {
                let j = choose|j: int| 0 <= j < pre.records@.len() && pre.records@[j].name@
                    == name@;
                lemma_find_present(pre.records@, j);
                assert(false);
            }
        }
        self.records.push(EventRecord { name, outcome });
        proof {
            assert(self.records@.drop_last() =~= pre.records@);
            assert(unique_names(self.records@));
            lemma_find_push(pre.records@, self.records@.last());
            assert(self@ =~= pre@.insert(self.records@.last().name@, outcome));
        }
    }

    /// Overwrites the stored outcome of an already registered event.
    pub fn set_outcome(&mut self, name: &Vec<u8>, outcome: u8)
        requires
            old(self).wf(),
            old(self)@.contains_key(name@),
        ensures
            final(self).wf(),
            final(self)@ == old(self)@.insert(name@, outcome),
    {
        let ghost pre = *self;
        match self.find_index(name) {
            Some(i) => {
                let name_copy = name.clone();
                proof {
                    assert(name_copy@ =~= name@);
                }
                self.records[i] = EventRecord { name: name_copy, outcome };
                proof {
                    assert(self.records@[i as int].name@ == name@);
                    assert(unique_names(self.records@));
                    lemma_find_update(pre.records@, i as int, self.records@, outcome);
                    assert(self@ =~= pre@.insert(name@, outcome));
                }
            },
            None => {
                proof {
                    lemma_find_absent(pre.records@, name@);
                    assert(false);
                }
            },
        }
    }
}

} // verus!
