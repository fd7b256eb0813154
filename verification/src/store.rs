use vstd::prelude::*;
use crate::record::Counter;
use crate::record::ErrorCode;
use crate::record::Principal;
use crate::transition::decrement_spec;
use crate::transition::increment_spec;
use crate::transition::initialize_spec;

verus! {

/// The set of counter records, each stored under its namespace tag.
///
/// The records live in an association list whose keys are pairwise distinct,
/// so the store is read in contracts as a map from tag to record.
pub struct CounterStore {
    records: Vec<(u64, Counter)>,
}

/// The keys of an association list are pairwise distinct.
spec fn unique_keys(s: Seq<(u64, Counter)>) -> bool {
    forall|i: int, j: int| 0 <= i < j < s.len() ==> s[i].0 != s[j].0
}

/// The map that an association list denotes; a later entry would win, but a
/// well-formed store never holds two entries with one key.
spec fn map_of(s: Seq<(u64, Counter)>) -> Map<u64, Counter>
    decreases s.len(),
{
    if s.len() == 0 {
        Map::empty()
    } else {
        map_of(s.drop_last()).insert(s.last().0, s.last().1)
    }
}

proof fn lemma_map_of_contains(s: Seq<(u64, Counter)>, k: u64)
    ensures
        map_of(s).dom().contains(k) <==> exists|i: int| 0 <= i < s.len() && s[i].0 == k,
    decreases s.len(),
{
    if s.len() > 0 {
        lemma_map_of_contains(s.drop_last(), k);
        if s.last().0 == k {
            assert(s[s.len() - 1].0 == k);
        } else if map_of(s).dom().contains(k) {
            let i = choose|i: int| 0 <= i < s.drop_last().len() && s.drop_last()[i].0 == k;
            assert(s[i].0 == k);
        } else if exists|i: int| 0 <= i < s.len() && s[i].0 == k {
            let i = choose|i: int| 0 <= i < s.len() && s[i].0 == k;
            assert(s.drop_last()[i].0 == k);
        }
    }
}

proof fn lemma_map_of_index(s: Seq<(u64, Counter)>, i: int)
    requires
        unique_keys(s),
        0 <= i < s.len(),
    ensures
        map_of(s).dom().contains(s[i].0),
        map_of(s)[s[i].0] == s[i].1,
    decreases s.len(),
{
    if i < s.len() - 1 {
        assert(unique_keys(s.drop_last()));
        lemma_map_of_index(s.drop_last(), i);
        assert(s[i].0 != s.last().0);
    }
}

proof fn lemma_map_of_push(s: Seq<(u64, Counter)>, k: u64, c: Counter)
    ensures
        map_of(s.push((k, c))) == map_of(s).insert(k, c),
{
    assert(s.push((k, c)).drop_last() =~= s);
}

proof fn lemma_map_of_update(s: Seq<(u64, Counter)>, i: int, c: Counter)
    requires
        unique_keys(s),
        0 <= i < s.len(),
    ensures
        map_of(s.update(i, (s[i].0, c))) == map_of(s).insert(s[i].0, c),
    decreases s.len(),
{
    let t = s.update(i, (s[i].0, c));
    if i == s.len() - 1 {
        assert(t.drop_last() =~= s.drop_last());
        assert(map_of(t) =~= map_of(s).insert(s[i].0, c));
    } else {
        assert(unique_keys(s.drop_last()));
        assert(t.drop_last() =~= s.drop_last().update(i, (s[i].0, c)));
        lemma_map_of_update(s.drop_last(), i, c);
        assert(s[i].0 != s.last().0);
        assert(map_of(t) =~= map_of(s).insert(s[i].0, c));
    }
}

impl View for CounterStore {
    type V = Map<u64, Counter>;

    closed spec fn view(&self) -> Map<u64, Counter> {
        map_of(self.records@)
    }
}

impl CounterStore {
    /// The store's internal invariant: no namespace tag is stored twice.
    pub closed spec fn wf(&self) -> bool {
        unique_keys(self.records@)
    }

    /// An empty store: no record exists under any tag.
    pub fn new() -> (s: CounterStore)
        ensures
            s.wf(),
            s@ == Map::<u64, Counter>::empty(),
    {
        CounterStore { records: Vec::new() }
    }

    /// The position of the record stored under `tag`, if any.
    fn find(&self, tag: u64) -> (r: Option<usize>)
        ensures
            match r {
                Some(i) => i < self.records@.len() && self.records@[i as int].0 == tag,
                None => forall|i: int| 0 <= i < self.records@.len() ==> self.records@[i].0 != tag,
            },
    {
        let n = self.records.len();
        let mut i: usize = 0;
        while i < n
            invariant
                n == self.records@.len(),
                i <= n,
                forall|j: int| 0 <= j < i ==> self.records@[j].0 != tag,
            decreases n - i,
        {
            if self.records[i].0 == tag {
                return Some(i);
            }
            i = i + 1;
        }
        None
    }

    /// The record stored under `tag`, or `None` when no record exists there.
    pub fn get(&self, tag: u64) -> (r: Option<Counter>)
        requires
            self.wf(),
        ensures
            match r {
                Some(c) => self@.dom().contains(tag) && self@[tag] == c,
                None => !self@.dom().contains(tag),
            },
    {
        proof {
            lemma_map_of_contains(self.records@, tag);
        }
        match self.find(tag) {
            Some(i) => {
                proof {
                    lemma_map_of_index(self.records@, i as int);
                }
                Some(self.records[i].1)
            },
            None => None,
        }
    }

    /// Creates the record stored under `tag`: it fails with `AlreadyExists`
    /// when one is already there, and otherwise stores a fresh record owned
    /// by `requester`, with count zero and the given derivation parameter.
    pub fn initialize(&mut self, tag: u64, requester: Principal, bump: u8) -> (r: Result<
        Counter,
        ErrorCode,
    >)
        requires
            old(self).wf(),
        ensures
            final(self).wf(),
            final(self)@ == initialize_spec(old(self)@, tag, requester, bump).0,
            r == initialize_spec(old(self)@, tag, requester, bump).1,
    {
        proof {
            lemma_map_of_contains(self.records@, tag);
        }
        match self.find(tag) {
            Some(_) => Err(ErrorCode::AlreadyExists),
            None => {
                let c = Counter { authority: requester, count: 0, bump };
                proof {
                    lemma_map_of_push(self.records@, tag, c);
                }
                self.records.push((tag, c));
                Ok(c)
            },
        }
    }

    /// Raises the count of the record stored under `tag` by exactly one, when
    /// the record exists, `requester` is its authority, and the count is below
    /// the largest representable value; any failure leaves the store as it
    /// was.
    pub fn increment(&mut self, tag: u64, requester: Principal) -> (r: Result<Counter, ErrorCode>)
        requires
            old(self).wf(),
        ensures
            final(self).wf(),
            final(self)@ == increment_spec(old(self)@, tag, requester).0,
            r == increment_spec(old(self)@, tag, requester).1,
    {
        proof {
            lemma_map_of_contains(self.records@, tag);
        }
        match self.find(tag) {
            None => Err(ErrorCode::NotFound),
            Some(i) => {
                proof {
                    lemma_map_of_index(self.records@, i as int);
                }
                let c = self.records[i].1;
                if c.authority != requester {
                    Err(ErrorCode::Unauthorized)
                } else if c.count == u64::MAX {
                    Err(ErrorCode::Overflow)
                } else {
                    let c2 = Counter { authority: c.authority, count: c.count + 1, bump: c.bump };
                    proof {
                        lemma_map_of_update(self.records@, i as int, c2);
                    }
                    self.records.set(i, (tag, c2));
                    Ok(c2)
                }
            },
        }
    }

    /// Lowers the count of the record stored under `tag` by exactly one, when
    /// the record exists, `requester` is its authority, and the count is above
    /// zero; any failure leaves the store as it was.
    pub fn decrement(&mut self, tag: u64, requester: Principal) -> (r: Result<Counter, ErrorCode>)
        requires
            old(self).wf(),
        ensures
            final(self).wf(),
            final(self)@ == decrement_spec(old(self)@, tag, requester).0,
            r == decrement_spec(old(self)@, tag, requester).1,
    {
        proof {
            lemma_map_of_contains(self.records@, tag);
        }
        match self.find(tag) {
            None => Err(ErrorCode::NotFound),
            Some(i) => {
                proof {
                    lemma_map_of_index(self.records@, i as int);
                }
                let c = self.records[i].1;
                if c.authority != requester {
                    Err(ErrorCode::Unauthorized)
                } else if c.count == 0 {
                    Err(ErrorCode::Underflow)
                } else {
                    let c2 = Counter { authority: c.authority, count: c.count - 1, bump: c.bump };
                    proof {
                        lemma_map_of_update(self.records@, i as int, c2);
                    }
                    self.records.set(i, (tag, c2));
                    Ok(c2)
                }
            },
        }
    }
}

} // verus!
