//! A component table: an association list from entity identifier to one
//! value, kept in ascending identifier order, with a `Map` view.
use vstd::prelude::*;

verus! {

/// Map view of an association list, later entries overriding earlier ones.
pub open spec fn pairs_map<T>(s: Seq<(u64, T)>) -> Map<u64, T>
    decreases s.len(),
{
    if s.len() == 0 {
        Map::empty()
    } else {
        pairs_map(s.drop_last()).insert(s.last().0, s.last().1)
    }
}

/// Keys of the list are pairwise distinct.
pub open spec fn distinct_keys<T>(s: Seq<(u64, T)>) -> bool {
    forall|i: int, j: int| 0 <= i < j < s.len() ==> s[i].0 != s[j].0
}

/// Keys of the list are strictly ascending.
pub open spec fn sorted_keys<T>(s: Seq<(u64, T)>) -> bool {
    forall|i: int, j: int| 0 <= i < j < s.len() ==> s[i].0 < s[j].0
}

pub proof fn lemma_sorted_implies_distinct<T>(s: Seq<(u64, T)>)
    requires
        sorted_keys(s),
    ensures
        distinct_keys(s),
{
}

/// With distinct keys, the map view holds exactly the listed pairs.
pub proof fn lemma_pairs_map<T>(s: Seq<(u64, T)>)
    requires
        distinct_keys(s),
    ensures
        forall|k: u64|
            #[trigger] pairs_map(s).contains_key(k) ==> exists|i: int|
                0 <= i < s.len() && (#[trigger] s[i]).0 == k,
        forall|i: int|
            0 <= i < s.len() ==> pairs_map(s).contains_key((#[trigger] s[i]).0) && pairs_map(s)[s[i].0]
                == s[i].1,
    decreases s.len(),
{
    if s.len() > 0 {
        let s0 = s.drop_last();
        assert(distinct_keys(s0)) by {
            assert(forall|i: int, j: int|
                0 <= i < j < s0.len() ==> (#[trigger] s0[i]).0 != (#[trigger] s0[j]).0) by {
                assert(forall|i: int| 0 <= i < s0.len() ==> #[trigger] s0[i] == s[i]);
            }
        }
        lemma_pairs_map(s0);
        let last = s.last();
        assert(pairs_map(s) == pairs_map(s0).insert(last.0, last.1));
        assert forall|k: u64| #[trigger] pairs_map(s).contains_key(k) implies exists|i: int|
            0 <= i < s.len() && (#[trigger] s[i]).0 == k by {
            if k == last.0 {
                assert((s[s.len() - 1]).0 == k);
            } else {
                assert(pairs_map(s0).contains_key(k));
                let i = choose|i: int| 0 <= i < s0.len() && (#[trigger] s0[i]).0 == k;
                assert(s[i] == s0[i]);
                assert((s[i]).0 == k);
            }
        }
        assert forall|i: int| 0 <= i < s.len() implies pairs_map(s).contains_key(
            (#[trigger] s[i]).0,
        ) && pairs_map(s)[s[i].0] == s[i].1 by {
            if i == s.len() - 1 {
                assert(pairs_map(s)[last.0] == last.1);
            } else {
                assert(s0[i] == s[i]);
                assert(pairs_map(s0).contains_key(s0[i].0) && pairs_map(s0)[s0[i].0] == s0[i].1);
                assert(s[i].0 != last.0);
            }
        }
    }
}

/// Updating the value stored under a key changes the map view to an insert of
/// that key.
pub proof fn lemma_update_view<T>(s: Seq<(u64, T)>, i: int, value: T)
    requires
        sorted_keys(s),
        0 <= i < s.len(),
    ensures
        sorted_keys(s.update(i, (s[i].0, value))),
        pairs_map(s.update(i, (s[i].0, value))) == pairs_map(s).insert(s[i].0, value),
{
    let key = s[i].0;
    let s1 = s.update(i, (key, value));
    assert forall|a: int, b: int| 0 <= a < b < s1.len() implies (#[trigger] s1[a]).0 < (
    #[trigger] s1[b]).0 by {
        assert(s1[a].0 == s[a].0 && s1[b].0 == s[b].0);
    }
    lemma_sorted_implies_distinct(s);
    lemma_sorted_implies_distinct(s1);
    lemma_pairs_map(s);
    lemma_pairs_map(s1);
    let m1 = pairs_map(s1);
    let target = pairs_map(s).insert(key, value);
    assert forall|k: u64| #[trigger] m1.contains_key(k) implies target.contains_key(k) by {
        let j = choose|j: int| 0 <= j < s1.len() && (#[trigger] s1[j]).0 == k;
        if j != i {
            assert(s[j].0 == k);
        }
    }
    assert forall|k: u64| #[trigger] target.contains_key(k) implies m1.contains_key(k) by {
        if k == key {
            assert(s1[i].0 == k);
        } else {
            assert(pairs_map(s).contains_key(k));
            let j = choose|j: int| 0 <= j < s.len() && (#[trigger] s[j]).0 == k;
            assert(s1[j].0 == k);
        }
    }
    assert forall|k: u64| #[trigger] m1.contains_key(k) implies m1[k] == target[k] by {
        let j = choose|j: int| 0 <= j < s1.len() && (#[trigger] s1[j]).0 == k;
        assert(m1[k] == s1[j].1);
        if j == i {
            assert(k == key);
        } else {
            assert(s[j] == s1[j]);
            assert(pairs_map(s)[k] == s[j].1);
            assert(k != key);
        }
    }
    assert(m1 =~= target);
}

/// Inserting a fresh pair at its ordered position inserts it into the map
/// view.
pub proof fn lemma_insert_view<T>(s: Seq<(u64, T)>, i: int, key: u64, value: T)
    requires
        sorted_keys(s),
        0 <= i <= s.len(),
        forall|j: int| 0 <= j < i ==> (#[trigger] s[j]).0 < key,
        forall|j: int| i <= j < s.len() ==> (#[trigger] s[j]).0 > key,
    ensures
        sorted_keys(s.insert(i, (key, value))),
        pairs_map(s.insert(i, (key, value))) == pairs_map(s).insert(key, value),
{
    let s1 = s.insert(i, (key, value));
    s.insert_ensures(i, (key, value));
    assert forall|a: int, b: int| 0 <= a < b < s1.len() implies (#[trigger] s1[a]).0 < (
    #[trigger] s1[b]).0 by {
        if a < i && b < i {
            assert(s1[a] == s[a] && s1[b] == s[b]);
        } else if a < i && b == i {
            assert(s1[a] == s[a]);
        } else if a < i && b > i {
            assert(s1[a] == s[a] && s1[b] == s[b - 1]);
            assert(s[a].0 < key);
            assert(s[b - 1].0 > key);
        } else if a == i {
            assert(s1[b] == s[b - 1]);
            assert(s[b - 1].0 > key);
        } else {
            assert(s1[a] == s[a - 1] && s1[b] == s[b - 1]);
        }
    }
    lemma_sorted_implies_distinct(s);
    lemma_sorted_implies_distinct(s1);
    lemma_pairs_map(s);
    lemma_pairs_map(s1);
    let m1 = pairs_map(s1);
    let target = pairs_map(s).insert(key, value);
    assert forall|k: u64| #[trigger] m1.contains_key(k) implies target.contains_key(k) by {
        let j = choose|j: int| 0 <= j < s1.len() && (#[trigger] s1[j]).0 == k;
        if j < i {
            assert(s[j].0 == k);
        } else if j > i {
            assert(s[j - 1].0 == k);
        }
    }
    assert forall|k: u64| #[trigger] target.contains_key(k) implies m1.contains_key(k) by {
        if k == key {
            assert(s1[i].0 == k);
        } else {
            assert(pairs_map(s).contains_key(k));
            let j = choose|j: int| 0 <= j < s.len() && (#[trigger] s[j]).0 == k;
            if j < i {
                assert(s1[j].0 == k);
            } else {
                assert(s1[j + 1].0 == k);
            }
        }
    }
    assert forall|k: u64| #[trigger] m1.contains_key(k) implies m1[k] == target[k] by {
        let j = choose|j: int| 0 <= j < s1.len() && (#[trigger] s1[j]).0 == k;
        assert(m1[k] == s1[j].1);
        if j == i {
            assert(k == key);
        } else if j < i {
            assert(s1[j] == s[j]);
            assert(pairs_map(s)[k] == s[j].1);
            assert(k != key);
        } else {
            assert(s1[j] == s[j - 1]);
            assert(pairs_map(s)[k] == s[j - 1].1);
            assert(k != key);
        }
    }
    assert(m1 =~= target);
}

/// Removing the pair at an index removes its key from the map view.
pub proof fn lemma_remove_view<T>(s: Seq<(u64, T)>, i: int)
    requires
        sorted_keys(s),
        0 <= i < s.len(),
    ensures
        sorted_keys(s.remove(i)),
        pairs_map(s.remove(i)) == pairs_map(s).remove(s[i].0),
{
    let key = s[i].0;
    let s1 = s.remove(i);
    s.remove_ensures(i);
    assert forall|a: int, b: int| 0 <= a < b < s1.len() implies (#[trigger] s1[a]).0 < (
    #[trigger] s1[b]).0 by {
        let a0 = if a < i {
            a
        } else {
            a + 1
        };
        let b0 = if b < i {
            b
        } else {
            b + 1
        };
        assert(s1[a] == s[a0] && s1[b] == s[b0]);
    }
    lemma_sorted_implies_distinct(s);
    lemma_sorted_implies_distinct(s1);
    lemma_pairs_map(s);
    lemma_pairs_map(s1);
    let m1 = pairs_map(s1);
    let target = pairs_map(s).remove(key);
    assert forall|k: u64| #[trigger] m1.contains_key(k) implies target.contains_key(k) && m1[k]
        == target[k] by {
        let j = choose|j: int| 0 <= j < s1.len() && (#[trigger] s1[j]).0 == k;
        let j0 = if j < i {
            j
        } else {
            j + 1
        };
        assert(s1[j] == s[j0]);
        assert(pairs_map(s).contains_key(k) && pairs_map(s)[k] == s[j0].1);
        assert(k != key);
        assert(m1[k] == s1[j].1);
    }
    assert forall|k: u64| #[trigger] target.contains_key(k) implies m1.contains_key(k) by {
        assert(pairs_map(s).contains_key(k) && k != key);
        let j = choose|j: int| 0 <= j < s.len() && (#[trigger] s[j]).0 == k;
        assert(j != i);
        if j < i {
            assert(s1[j].0 == k);
        } else {
            assert(s1[j - 1].0 == k);
        }
    }
    assert(m1 =~= target);
}

/// Removing a key that is not listed leaves the map view unchanged.
pub proof fn lemma_remove_absent<T>(s: Seq<(u64, T)>, key: u64)
    requires
        distinct_keys(s),
        forall|j: int| 0 <= j < s.len() ==> (#[trigger] s[j]).0 != key,
    ensures
        pairs_map(s).remove(key) == pairs_map(s),
{
    lemma_pairs_map(s);
    assert(!pairs_map(s).contains_key(key));
    assert(pairs_map(s).remove(key) =~= pairs_map(s));
}

/// An association table from entity identifier to one component value, in
/// ascending identifier order.
pub struct Table<T> {
    entries: Vec<(u64, T)>,
}

impl<T> View for Table<T> {
    type V = Map<u64, T>;

    open spec fn view(&self) -> Map<u64, T> {
        pairs_map(self.pairs())
    }
}

impl<T> Table<T> {
    /// The stored pairs, in storage order.
    pub closed spec fn pairs(&self) -> Seq<(u64, T)> {
        self.entries@
    }

    /// Identifiers are strictly ascending, so each appears at most once.
    pub open spec fn wf(&self) -> bool {
        sorted_keys(self.pairs())
    }

    pub fn new() -> (r: Table<T>)
        ensures
            r.wf(),
            r.pairs() == Seq::<(u64, T)>::empty(),
            r@ == Map::<u64, T>::empty(),
    {
        Table { entries: Vec::new() }
    }

    pub fn len(&self) -> (n: usize)
        ensures
            n == self.pairs().len(),
    {
        self.entries.len()
    }

    /// The identifier stored at a position.
    pub fn key_at(&self, i: usize) -> (k: u64)
        requires
            i < self.pairs().len(),
        ensures
            k == self.pairs()[i as int].0,
    {
        self.entries[i].0
    }

    /// The value stored at a position.
    pub fn value_at(&self, i: usize) -> (v: &T)
        requires
            i < self.pairs().len(),
        ensures
            *v == self.pairs()[i as int].1,
    {
        &self.entries[i].1
    }

    /// The position holding an identifier, if any.
    #[verifier::loop_isolation(false)]
    fn position_of(&self, key: u64) -> (r: Option<usize>)
        ensures
            match r {
                Some(i) => i < self.pairs().len() && self.pairs()[i as int].0 == key,
                None => forall|j: int|
                    0 <= j < self.pairs().len() ==> (#[trigger] self.pairs()[j]).0 != key,
            },
    {
        let n = self.entries.len();
        let mut i: usize = 0;
        while i < n
            invariant
                i <= n,
                forall|j: int| 0 <= j < i ==> (#[trigger] self.pairs()[j]).0 != key,
            decreases n - i,
        {
            if self.entries[i].0 == key {
                return Some(i);
            }
            i = i + 1;
        }
        None
    }

    /// Look a value up by identifier.
    pub fn get(&self, key: u64) -> (r: Option<&T>)
        requires
            self.wf(),
        ensures
            match r {
                Some(v) => self@.contains_key(key) && *v == self@[key],
                None => !self@.contains_key(key),
            },
    {
        proof {
            lemma_sorted_implies_distinct(self.pairs());
            lemma_pairs_map(self.pairs());
        }
        match self.position_of(key) {
            Some(i) => Some(&self.entries[i].1),
            None => None,
        }
    }

    /// Whether a value is stored under an identifier.
    pub fn contains(&self, key: u64) -> (r: bool)
        requires
            self.wf(),
        ensures
            r == self@.contains_key(key),
    {
        match self.get(key) {
            Some(_) => true,
            None => false,
        }
    }

    /// Insert a value, replacing any value already stored under the
    /// identifier.
    #[verifier::loop_isolation(false)]
    pub fn insert(&mut self, key: u64, value: T)
        requires
            old(self).wf(),
        ensures
            final(self).wf(),
            final(self)@ == old(self)@.insert(key, value),
            final(self)@.contains_key(key),
    {
        let n = self.entries.len();
        let mut i: usize = 0;
        while i < n && self.entries[i].0 < key
            invariant
                i <= n,
                forall|j: int| 0 <= j < i ==> (#[trigger] self.pairs()[j]).0 < key,
            decreases n - i,
        {
            i = i + 1;
        }
        if i < n && self.entries[i].0 == key {
            proof {
                lemma_update_view(self.pairs(), i as int, value);
            }
            self.entries.set(i, (key, value));
        } else {
            proof {
                assert(forall|j: int|
                    i <= j < self.pairs().len() ==> (#[trigger] self.pairs()[j]).0 > key) by {
                    if i < self.pairs().len() {
                        assert(self.pairs()[i as int].0 > key);
                    }
                }
                lemma_insert_view(self.pairs(), i as int, key, value);
            }
            self.entries.insert(i, (key, value));
        }
        proof {
            lemma_sorted_implies_distinct(self.pairs());
            lemma_pairs_map(self.pairs());
        }
    }

    /// Remove the value stored under an identifier; reports whether one was
    /// there.
    #[verifier::loop_isolation(false)]
    pub fn remove(&mut self, key: u64) -> (r: bool)
        requires
            old(self).wf(),
        ensures
            final(self).wf(),
            final(self)@ == old(self)@.remove(key),
            r == old(self)@.contains_key(key),
    {
        proof {
            lemma_sorted_implies_distinct(self.pairs());
            lemma_pairs_map(self.pairs());
        }
        match self.position_of(key) {
            Some(i) => {
                proof {
                    lemma_remove_view(self.pairs(), i as int);
                }
                self.entries.remove(i);
                true
            },
            None => {
                proof {
                    lemma_remove_absent(self.pairs(), key);
                }
                false
            },
        }
    }

    /// Take the pair at a position out of the table.
    pub fn extract_at(&mut self, i: usize) -> (p: (u64, T))
        requires
            old(self).wf(),
            i < old(self).pairs().len(),
        ensures
            final(self).wf(),
            p == old(self).pairs()[i as int],
            final(self).pairs() == old(self).pairs().remove(i as int),
            final(self)@ == old(self)@.remove(old(self).pairs()[i as int].0),
    {
        proof {
            lemma_remove_view(self.pairs(), i as int);
        }
        self.entries.remove(i)
    }

    /// Put a pair back at a position whose neighbours keep the order.
    pub fn insert_at(&mut self, i: usize, p: (u64, T))
        requires
            old(self).wf(),
            i <= old(self).pairs().len(),
            forall|j: int| 0 <= j < i ==> (#[trigger] old(self).pairs()[j]).0 < p.0,
            forall|j: int| i <= j < old(self).pairs().len() ==> (#[trigger] old(self).pairs()[j]).0
                > p.0,
        ensures
            final(self).wf(),
            final(self).pairs() == old(self).pairs().insert(i as int, p),
            final(self)@ == old(self)@.insert(p.0, p.1),
    {
        proof {
            lemma_insert_view(self.pairs(), i as int, p.0, p.1);
        }
        self.entries.insert(i, p);
    }
}

} // verus!
