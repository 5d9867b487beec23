//! Association lists with unique keys: the executable backing for every
//! process-wide table in this crate (pending cross-process writes, stored
//! metric values, diagnostic tallies). The mathematical model of a list is
//! the finite map built by [`map_of`].

use vstd::prelude::*;

verus! {

/// A table from `u64` keys to copyable values, kept as a vector of pairs
/// with no key occurring twice.
pub struct AssocList<V> {
    pub pairs: Vec<(u64, V)>,
}

/// The map described by an association sequence. A later pair for the same
/// key overrides an earlier one, so on unique-keyed sequences the map holds
/// exactly the listed pairs.
pub open spec fn map_of<V>(s: Seq<(u64, V)>) -> Map<u64, V>
    decreases s.len(),
{
    if s.len() == 0 {
        Map::empty()
    } else {
        map_of(s.drop_last()).insert(s.last().0, s.last().1)
    }
}

/// No key occurs twice in the sequence.
pub open spec fn unique_keys<V>(s: Seq<(u64, V)>) -> bool {
    forall|i: int, j: int| 0 <= i < j < s.len() ==> s[i].0 != s[j].0
}

/// On a unique-keyed sequence, every listed pair is in the map.
pub proof fn lemma_map_of_index<V>(s: Seq<(u64, V)>, i: int)
    requires
        unique_keys(s),
        0 <= i < s.len(),
    ensures
        map_of(s).contains_key(s[i].0),
        map_of(s)[s[i].0] == s[i].1,
    decreases s.len(),
{
    if i < s.len() - 1 {
        assert(unique_keys(s.drop_last()));
        lemma_map_of_index(s.drop_last(), i);
        assert(s.last().0 != s[i].0);
    }
}

/// A key listed nowhere is not in the map.
pub proof fn lemma_map_of_absent<V>(s: Seq<(u64, V)>, key: u64)
    requires
        forall|i: int| 0 <= i < s.len() ==> s[i].0 != key,
    ensures
        !map_of(s).contains_key(key),
    decreases s.len(),
{
    if s.len() > 0 {
        lemma_map_of_absent(s.drop_last(), key);
    }
}

/// Every key of the map is listed somewhere in the sequence.
pub proof fn lemma_map_of_contains<V>(s: Seq<(u64, V)>, key: u64)
    requires
        map_of(s).contains_key(key),
    ensures
        exists|i: int| 0 <= i < s.len() && s[i].0 == key,
    decreases s.len(),
{
    if s.len() > 0 {
        if s.last().0 == key {
            assert(s[s.len() - 1].0 == key);
        } else {
            lemma_map_of_contains(s.drop_last(), key);
            let i = choose|i: int| 0 <= i < s.drop_last().len() && s.drop_last()[i].0 == key;
            assert(s[i].0 == key);
        }
    }
}

/// Overwriting the value at an occupied slot inserts into the map.
pub proof fn lemma_map_of_update<V>(s: Seq<(u64, V)>, i: int, value: V)
    requires
        unique_keys(s),
        0 <= i < s.len(),
    ensures
        unique_keys(s.update(i, (s[i].0, value))),
        map_of(s.update(i, (s[i].0, value))) == map_of(s).insert(s[i].0, value),
    decreases s.len(),
{
    let key = s[i].0;
    let t = s.update(i, (key, value));
    if i == s.len() - 1 {
        assert(t.drop_last() =~= s.drop_last());
        assert(map_of(s.drop_last()).insert(key, value) =~= map_of(s.drop_last()).insert(
            key,
            s.last().1,
        ).insert(key, value));
    } else {
        assert(unique_keys(s.drop_last()));
        assert(t.drop_last() =~= s.drop_last().update(i, (key, value)));
        lemma_map_of_update(s.drop_last(), i, value);
        assert(s.last().0 != key);
        assert(map_of(s.drop_last()).insert(key, value).insert(s.last().0, s.last().1)
            =~= map_of(s.drop_last()).insert(s.last().0, s.last().1).insert(key, value));
    }
}

/// Appending a pair for a fresh key inserts into the map.
pub proof fn lemma_map_of_push<V>(s: Seq<(u64, V)>, key: u64, value: V)
    requires
        unique_keys(s),
        forall|i: int| 0 <= i < s.len() ==> s[i].0 != key,
    ensures
        unique_keys(s.push((key, value))),
        map_of(s.push((key, value))) == map_of(s).insert(key, value),
{
    assert(s.push((key, value)).drop_last() =~= s);
    assert forall|i: int, j: int| 0 <= i < j < s.push((key, value)).len() implies s.push(
        (key, value),
    )[i].0 != s.push((key, value))[j].0 by {
        if j < s.len() {
            assert(s[i].0 != s[j].0);
        } else {
            assert(s[i].0 != key);
        }
    }
}

impl<V> View for AssocList<V> {
    type V = Map<u64, V>;

    open spec fn view(&self) -> Map<u64, V> {
        map_of(self.pairs@)
    }
}

impl<V: Copy> AssocList<V> {
    /// The keys are unique, so the pair vector and the map carry the same
    /// information.
    pub open spec fn wf(self) -> bool {
        unique_keys(self.pairs@)
    }

    pub fn new() -> (r: Self)
        ensures
            r.wf(),
            r@ == Map::<u64, V>::empty(),
            r.pairs@.len() == 0,
    {
        AssocList { pairs: Vec::new() }
    }

    /// The value stored under `key`, if any.
    pub fn get(&self, key: u64) -> (r: Option<V>)
        requires
            self.wf(),
        ensures
            r == if self@.contains_key(key) {
                Some(self@[key])
            } else {
                None::<V>
            },
    {
        let n: usize = self.pairs.len();
        let mut i: usize = 0;
        while i < n
            invariant
                n == self.pairs@.len(),
                0 <= i <= n,
                self.wf(),
                forall|j: int| 0 <= j < i ==> self.pairs@[j].0 != key,
            decreases n - i,
        {
            if self.pairs[i].0 == key {
                proof {
                    lemma_map_of_index(self.pairs@, i as int);
                }
                return Some(self.pairs[i].1);
            }
            i = i + 1;
        }
        proof {
            lemma_map_of_absent(self.pairs@, key);
        }
        None
    }

    /// Store `value` under `key`, overwriting any previous value for that
    /// key: the last write for a key wins.
    pub fn upsert(&mut self, key: u64, value: V)
        requires
            old(self).wf(),
        ensures
            final(self).wf(),
            final(self)@ == old(self)@.insert(key, value),
    {
        let n: usize = self.pairs.len();
        let mut i: usize = 0;
        while i < n
            invariant
                n == self.pairs@.len(),
                0 <= i <= n,
                self.wf(),
                self.pairs@ == old(self).pairs@,
                forall|j: int| 0 <= j < i ==> self.pairs@[j].0 != key,
            decreases n - i,
        {
            if self.pairs[i].0 == key {
                proof {
                    lemma_map_of_update(self.pairs@, i as int, value);
                }
                self.pairs[i] = (key, value);
                return ;
            }
            i = i + 1;
        }
        proof {
            lemma_map_of_push(self.pairs@, key, value);
        }
        self.pairs.push((key, value));
    }
}

} // verus!
