//! A small map from text keys to values that keeps its entries in insertion
//! order; the node's peer list and its replication offsets are kept in it.

use vstd::prelude::*;

use crate::text::owned;

verus! {

/// No two entries of `pairs` share a key.
pub open spec fn keys_distinct<V>(pairs: Seq<(Seq<char>, V)>) -> bool {
    forall|i: int, j: int|
        0 <= i < pairs.len() && 0 <= j < pairs.len() && #[trigger] pairs[i].0 == #[trigger] pairs[j].0 ==> i == j
}

/// Some entry of `pairs` has key `k`.
pub open spec fn has_key<V>(pairs: Seq<(Seq<char>, V)>, k: Seq<char>) -> bool {
    exists|i: int| 0 <= i < pairs.len() && #[trigger] pairs[i].0 == k
}

/// The map that the entries of `pairs` describe.
pub open spec fn map_of<V>(pairs: Seq<(Seq<char>, V)>) -> Map<Seq<char>, V> {
    Map::new(
        |k: Seq<char>| has_key(pairs, k),
        |k: Seq<char>| pairs[choose|i: int| 0 <= i < pairs.len() && #[trigger] pairs[i].0 == k].1,
    )
}

/// With distinct keys, the entry at `i` is what the map holds for its key.
pub proof fn lemma_map_of_entry<V>(pairs: Seq<(Seq<char>, V)>, i: int)
    requires
        keys_distinct(pairs),
        0 <= i < pairs.len(),
    ensures
        map_of(pairs).contains_key(pairs[i].0),
        map_of(pairs)[pairs[i].0] == pairs[i].1,
{
    let k = pairs[i].0;
    assert(has_key(pairs, k));
    let j = choose|j: int| 0 <= j < pairs.len() && #[trigger] pairs[j].0 == k;
    assert(pairs[j].0 == pairs[i].0);
}

/// Overwriting the entry at `i` with the same key and a new value updates the map.
proof fn lemma_map_of_update<V>(pairs: Seq<(Seq<char>, V)>, i: int, v: V)
    requires
        keys_distinct(pairs),
        0 <= i < pairs.len(),
    ensures
        keys_distinct(pairs.update(i, (pairs[i].0, v))),
        map_of(pairs.update(i, (pairs[i].0, v))) == map_of(pairs).insert(pairs[i].0, v),
{
    let k = pairs[i].0;
    let new = pairs.update(i, (k, v));
    assert forall|a: int, b: int|
        0 <= a < new.len() && 0 <= b < new.len() && #[trigger] new[a].0 == #[trigger] new[b].0 implies a == b by {
        assert(new[a].0 == pairs[a].0);
        assert(new[b].0 == pairs[b].0);
    }
    assert forall|key: Seq<char>| #[trigger] has_key(new, key) == has_key(pairs, key) by {
        if has_key(new, key) {
            let a = choose|a: int| 0 <= a < new.len() && #[trigger] new[a].0 == key;
            assert(pairs[a].0 == key);
        }
        if has_key(pairs, key) {
            let a = choose|a: int| 0 <= a < pairs.len() && #[trigger] pairs[a].0 == key;
            assert(new[a].0 == key);
        }
    }
    assert forall|key: Seq<char>| has_key(new, key) implies #[trigger] map_of(new)[key] == map_of(pairs).insert(k, v)[key] by {
        let a = choose|a: int| 0 <= a < new.len() && #[trigger] new[a].0 == key;
        lemma_map_of_entry(new, a);
        lemma_map_of_entry(pairs, a);
    }
    assert(map_of(new) =~= map_of(pairs).insert(k, v));
}

/// Appending an entry with a new key adds it to the map.
pub proof fn lemma_map_of_push<V>(pairs: Seq<(Seq<char>, V)>, k: Seq<char>, v: V)
    requires
        keys_distinct(pairs),
        !has_key(pairs, k),
    ensures
        keys_distinct(pairs.push((k, v))),
        map_of(pairs.push((k, v))) == map_of(pairs).insert(k, v),
{
    let new = pairs.push((k, v));
    assert forall|a: int, b: int|
        0 <= a < new.len() && 0 <= b < new.len() && #[trigger] new[a].0 == #[trigger] new[b].0 implies a == b by {
        if a < pairs.len() && b < pairs.len() {
            assert(new[a].0 == pairs[a].0);
            assert(new[b].0 == pairs[b].0);
        } else if a < pairs.len() {
            assert(pairs[a].0 == k);
        } else if b < pairs.len() {
            assert(pairs[b].0 == k);
        }
    }
    assert forall|key: Seq<char>| #[trigger] has_key(new, key) == (has_key(pairs, key) || key == k) by {
        if has_key(new, key) {
            let a = choose|a: int| 0 <= a < new.len() && #[trigger] new[a].0 == key;
            if a < pairs.len() {
                assert(pairs[a].0 == key);
            }
        }
        if has_key(pairs, key) {
            let a = choose|a: int| 0 <= a < pairs.len() && #[trigger] pairs[a].0 == key;
            assert(new[a].0 == key);
        }
        if key == k {
            assert(new[pairs.len() as int].0 == key);
        }
    }
    assert forall|key: Seq<char>| has_key(new, key) implies #[trigger] map_of(new)[key] == map_of(pairs).insert(k, v)[key] by {
        let a = choose|a: int| 0 <= a < new.len() && #[trigger] new[a].0 == key;
        lemma_map_of_entry(new, a);
        if a < pairs.len() {
            lemma_map_of_entry(pairs, a);
        }
    }
    assert(map_of(new) =~= map_of(pairs).insert(k, v));
}

/// Removing the entry at `i` removes its key from the map.
proof fn lemma_map_of_remove<V>(pairs: Seq<(Seq<char>, V)>, i: int)
    requires
        keys_distinct(pairs),
        0 <= i < pairs.len(),
    ensures
        keys_distinct(pairs.remove(i)),
        map_of(pairs.remove(i)) == map_of(pairs).remove(pairs[i].0),
{
    let k = pairs[i].0;
    let new = pairs.remove(i);
    assert forall|a: int| 0 <= a < new.len() implies #[trigger] new[a] == pairs[if a < i { a } else { a + 1 }] by {}
    assert forall|a: int, b: int|
        0 <= a < new.len() && 0 <= b < new.len() && #[trigger] new[a].0 == #[trigger] new[b].0 implies a == b by {
        let a2 = if a < i { a } else { a + 1 };
        let b2 = if b < i { b } else { b + 1 };
        assert(new[a] == pairs[a2]);
        assert(new[b] == pairs[b2]);
    }
    assert forall|key: Seq<char>| #[trigger] has_key(new, key) == (has_key(pairs, key) && key != k) by {
        if has_key(new, key) {
            let a = choose|a: int| 0 <= a < new.len() && #[trigger] new[a].0 == key;
            let a2 = if a < i { a } else { a + 1 };
            assert(new[a] == pairs[a2]);
            assert(pairs[a2].0 == key);
            if key == k {
                assert(pairs[a2].0 == pairs[i].0);
            }
        }
        if has_key(pairs, key) && key != k {
            let a = choose|a: int| 0 <= a < pairs.len() && #[trigger] pairs[a].0 == key;
            assert(a != i);
            let a1 = if a < i { a } else { a - 1 };
            assert(new[a1] == pairs[a]);
            assert(new[a1].0 == key);
        }
    }
    assert forall|key: Seq<char>| has_key(new, key) implies #[trigger] map_of(new)[key] == map_of(pairs).remove(k)[key] by {
        let a = choose|a: int| 0 <= a < new.len() && #[trigger] new[a].0 == key;
        let a2 = if a < i { a } else { a + 1 };
        assert(new[a] == pairs[a2]);
        lemma_map_of_entry(new, a);
        lemma_map_of_entry(pairs, a2);
    }
    assert(map_of(new) =~= map_of(pairs).remove(k));
}

/// The position of key `k` among `pairs` (meaningful when `has_key(pairs, k)`).
pub open spec fn key_position<V>(pairs: Seq<(Seq<char>, V)>, k: Seq<char>) -> int {
    choose|i: int| 0 <= i < pairs.len() && #[trigger] pairs[i].0 == k
}

/// The entries after setting `k` to `v`: the value is replaced in place when
/// `k` is present, and a new entry goes last otherwise.
pub open spec fn pairs_after_insert<V>(pairs: Seq<(Seq<char>, V)>, k: Seq<char>, v: V) -> Seq<(Seq<char>, V)> {
    if has_key(pairs, k) {
        pairs.update(key_position(pairs, k), (k, v))
    } else {
        pairs.push((k, v))
    }
}

/// The entries after dropping `k`: the others keep their order.
pub open spec fn pairs_after_remove<V>(pairs: Seq<(Seq<char>, V)>, k: Seq<char>) -> Seq<(Seq<char>, V)> {
    if has_key(pairs, k) {
        pairs.remove(key_position(pairs, k))
    } else {
        pairs
    }
}

/// A map from text keys to values, kept in insertion order, with no key twice.
pub struct KeyedTable<V: DeepView> {
    entries: Vec<(String, V)>,
}

impl<V: DeepView> KeyedTable<V> {
    /// No key occurs twice (the table's invariant).
    #[verifier::type_invariant]
    spec fn distinct_keys(self) -> bool {
        keys_distinct(self.pairs())
    }

    /// The entries, key and value, in insertion order.
    pub closed spec fn pairs(&self) -> Seq<(Seq<char>, V::V)> {
        self.entries.deep_view()
    }

    /// The map the table holds.
    pub open spec fn view(&self) -> Map<Seq<char>, V::V> {
        map_of(self.pairs())
    }

    /// The table's entries never repeat a key, and each of them is what the
    /// map holds for its key.
    pub proof fn lemma_pairs_describe_view(&self)
        requires
            keys_distinct(self.pairs()),
        ensures
            forall|i: int| 0 <= i < self.pairs().len() ==> {
                &&& self.view().contains_key(#[trigger] self.pairs()[i].0)
                &&& self.view()[self.pairs()[i].0] == self.pairs()[i].1
            },
            forall|k: Seq<char>| #[trigger] self.view().contains_key(k) ==> has_key(self.pairs(), k),
    {
        assert forall|i: int| 0 <= i < self.pairs().len() implies {
            &&& self.view().contains_key(#[trigger] self.pairs()[i].0)
            &&& self.view()[self.pairs()[i].0] == self.pairs()[i].1
        } by {
            lemma_map_of_entry(self.pairs(), i);
        }
    }

    /// An empty table.
    pub fn new() -> (t: Self)
        ensures
            t.view() == Map::<Seq<char>, V::V>::empty(),
            t.pairs() == Seq::<(Seq<char>, V::V)>::empty(),
    {
        let t = KeyedTable { entries: Vec::new() };
        assert(t.pairs() =~= Seq::<(Seq<char>, V::V)>::empty());
        assert(t.view() =~= Map::<Seq<char>, V::V>::empty());
        t
    }

    /// The number of entries.
    pub fn len(&self) -> (n: usize)
        ensures
            n == self.pairs().len(),
            keys_distinct(self.pairs()),
    {
        proof {
            use_type_invariant(self);
        }
        self.entries.len()
    }

    /// The entry at position `i` in insertion order.
    pub fn entry(&self, i: usize) -> (e: (&String, &V))
        requires
            i < self.pairs().len(),
        ensures
            e.0@ == self.pairs()[i as int].0,
            e.1.deep_view() == self.pairs()[i as int].1,
            keys_distinct(self.pairs()),
    {
        proof {
            use_type_invariant(self);
        }
        let (k, v) = &self.entries[i];
        (k, v)
    }

    /// The value held for `key`, if any.
    pub fn get(&self, key: &str) -> (r: Option<&V>)
        ensures
            match r {
                Some(v) => self.view().contains_key(key@) && self.view()[key@] == v.deep_view(),
                None => !self.view().contains_key(key@),
            },
            keys_distinct(self.pairs()),
    {
        proof {
            use_type_invariant(self);
        }
        let k = owned(key);
        match Self::position_in(&self.entries, &k) {
            Some(i) => {
                proof {
                    lemma_map_of_entry(self.pairs(), i as int);
                }
                Some(&self.entries[i].1)
            },
            None => None,
        }
    }

    /// Sets the value for `key`, replacing any earlier one; a new key goes last.
    pub fn insert(&mut self, key: String, value: V)
        ensures
            final(self).view() == old(self).view().insert(key@, value.deep_view()),
            final(self).pairs() == pairs_after_insert(old(self).pairs(), key@, value.deep_view()),
    {
        proof {
            use_type_invariant(&*self);
        }
        let ghost old_pairs = self.pairs();
        let mut entries: Vec<(String, V)> = Vec::new();
        std::mem::swap(&mut entries, &mut self.entries);
        assert(entries.deep_view() == old_pairs);
        match Self::position_in(&entries, &key) {
            Some(i) => {
                let ghost kv = key@;
                let ghost vv = value.deep_view();
                entries.set(i, (key, value));
                proof {
                    assert(has_key(old_pairs, kv));
                    let j = key_position(old_pairs, kv);
                    assert(old_pairs[j].0 == old_pairs[i as int].0);
                    lemma_map_of_update(old_pairs, i as int, vv);
                    assert(entries.deep_view() =~= old_pairs.update(i as int, (kv, vv)));
                }
            },
            None => {
                let ghost kv = key@;
                let ghost vv = value.deep_view();
                entries.push((key, value));
                proof {
                    lemma_map_of_push(old_pairs, kv, vv);
                    assert(entries.deep_view() =~= old_pairs.push((kv, vv)));
                }
            },
        }
        self.entries = entries;
    }

    /// Drops `key` and its value, if present.
    pub fn remove(&mut self, key: &str)
        ensures
            final(self).view() == old(self).view().remove(key@),
            final(self).pairs() == pairs_after_remove(old(self).pairs(), key@),
    {
        proof {
            use_type_invariant(&*self);
        }
        let ghost old_pairs = self.pairs();
        let k = owned(key);
        let mut entries: Vec<(String, V)> = Vec::new();
        std::mem::swap(&mut entries, &mut self.entries);
        assert(entries.deep_view() == old_pairs);
        match Self::position_in(&entries, &k) {
            Some(i) => {
                entries.remove(i);
                proof {
                    assert(has_key(old_pairs, key@));
                    let j = key_position(old_pairs, key@);
                    assert(old_pairs[j].0 == old_pairs[i as int].0);
                    lemma_map_of_remove(old_pairs, i as int);
                    assert(entries.deep_view() =~= old_pairs.remove(i as int));
                }
            },
            None => {
                proof {
                    assert(map_of(old_pairs) =~= map_of(old_pairs).remove(key@));
                }
            },
        }
        self.entries = entries;
    }

    /// The position of `key` among `entries`, if present.
    fn position_in(entries: &Vec<(String, V)>, key: &String) -> (p: Option<usize>)
        ensures
            match p {
                Some(i) => i < entries.deep_view().len() && entries.deep_view()[i as int].0 == key@,
                None => !has_key(entries.deep_view(), key@),
            },
    {
        let mut i: usize = 0;
        while i < entries.len()
            invariant
                0 <= i <= entries.len(),
                forall|j: int| 0 <= j < i ==> #[trigger] entries.deep_view()[j].0 != key@,
            decreases entries.len() - i,
        {
            if entries[i].0 == *key {
                return Some(i);
            }
            i = i + 1;
        }
        None
    }
}

} // verus!
