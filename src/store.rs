//! A map keyed by text that keeps its entries in a vector, in order of
//! first insertion, each key once. It backs the search cache and the click
//! weights.

use vstd::prelude::*;

verus! {

/// No two entries share a key.
pub open spec fn keys_unique<V>(s: Seq<(String, V)>) -> bool {
    forall|i: int, j: int| 0 <= i < j < s.len() ==> s[i].0@ != s[j].0@
}

/// Some entry has key `k`.
pub open spec fn has_key<V>(s: Seq<(String, V)>, k: Seq<char>) -> bool {
    exists|i: int| 0 <= i < s.len() && s[i].0@ == k
}

/// The map that a list of entries stands for.
pub open spec fn map_of<V>(s: Seq<(String, V)>) -> Map<Seq<char>, V> {
    Map::new(
        |k: Seq<char>| has_key(s, k),
        |k: Seq<char>| s[choose|i: int| 0 <= i < s.len() && s[i].0@ == k].1,
    )
}

/// In a list with unique keys, the map holds each entry's value at its key.
pub proof fn lemma_map_of_at<V>(s: Seq<(String, V)>, i: int)
    requires
        keys_unique(s),
        0 <= i < s.len(),
    ensures
        map_of(s).contains_key(s[i].0@),
        map_of(s)[s[i].0@] == s[i].1,
{
    let k = s[i].0@;
    assert(has_key(s, k));
    let j = choose|j: int| 0 <= j < s.len() && s[j].0@ == k;
    if j != i {
        if j < i {
            assert(s[j].0@ != s[i].0@);
        } else {
            assert(s[i].0@ != s[j].0@);
        }
    }
}

/// `m` with each entry of `s` inserted in turn, so that a later entry for a
/// key replaces an earlier one.
pub open spec fn insert_all<V>(m: Map<Seq<char>, V>, s: Seq<(String, V)>) -> Map<Seq<char>, V>
    decreases s.len(),
{
    if s.len() == 0 {
        m
    } else {
        insert_all(m, s.drop_last()).insert(s.last().0@, s.last().1)
    }
}

/// A map keyed by text.
pub struct TextMap<V> {
    entries: Vec<(String, V)>,
}

impl<V> View for TextMap<V> {
    type V = Map<Seq<char>, V>;

    closed spec fn view(&self) -> Map<Seq<char>, V> {
        map_of(self.entries@)
    }
}

impl<V> TextMap<V> {
    /// The map's internal invariant: each key once.
    pub closed spec fn wf(&self) -> bool {
        keys_unique(self.entries@)
    }

    /// The entries, in order of first insertion.
    pub closed spec fn entry_seq(&self) -> Seq<(String, V)> {
        self.entries@
    }

    /// An empty map.
    pub fn new() -> (r: TextMap<V>)
        ensures
            r.wf(),
            r@ == Map::<Seq<char>, V>::empty(),
    {
        let r = TextMap { entries: Vec::new() };
        assert(r@ =~= Map::<Seq<char>, V>::empty());
        r
    }

    fn position(&self, key: &str) -> (r: Option<usize>)
        ensures
            match r {
                Some(i) => i < self.entries@.len() && self.entries@[i as int].0@ == key@,
                None => !has_key(self.entries@, key@),
            },
    {
        let mut i: usize = 0;
        while i < self.entries.len()
            invariant
                i <= self.entries@.len(),
                forall|j: int| 0 <= j < i ==> self.entries@[j].0@ != key@,
            decreases self.entries@.len() - i,
        {
            if crate::text::same_text(self.entries[i].0.as_str(), key) {
                return Some(i);
            }
            i = i + 1;
        }
        None
    }

    /// The value at `key`.
    pub fn get(&self, key: &str) -> (r: Option<&V>)
        requires
            self.wf(),
        ensures
            match r {
                Some(v) => self@.contains_key(key@) && *v == self@[key@],
                None => !self@.contains_key(key@),
            },
    {
        match self.position(key) {
            Some(i) => {
                proof {
                    lemma_map_of_at(self.entries@, i as int);
                }
                Some(&self.entries[i].1)
            },
            None => None,
        }
    }

    /// Sets the value at `key`, in place where the key is present, else at
    /// the end.
    pub fn insert(&mut self, key: String, value: V)
        requires
            old(self).wf(),
        ensures
            final(self).wf(),
            final(self)@ == old(self)@.insert(key@, value),
    {
        let ghost old_s = self.entries@;
        let ghost k0 = key@;
        match self.position(key.as_str()) {
            Some(i) => {
                self.entries.set(i, (key, value));
                let ghost new_s = self.entries@;
                assert(new_s == old_s.update(i as int, new_s[i as int]));
                assert(keys_unique(new_s)) by {
                    assert forall|a: int, b: int| 0 <= a < b < new_s.len() implies new_s[a].0@
                        != new_s[b].0@ by {
                        assert(old_s[a].0@ == new_s[a].0@);
                        assert(old_s[b].0@ == new_s[b].0@);
                    }
                }
                proof {
                    lemma_map_of_at(new_s, i as int);
                    assert forall|k: Seq<char>| #[trigger] has_key(new_s, k) == has_key(old_s, k) by {
                        if has_key(old_s, k) {
                            let j = choose|j: int| 0 <= j < old_s.len() && old_s[j].0@ == k;
                            assert(new_s[j].0@ == k);
                        }
                        if has_key(new_s, k) {
                            let j = choose|j: int| 0 <= j < new_s.len() && new_s[j].0@ == k;
                            assert(old_s[j].0@ == k);
                        }
                    }
                    assert forall|k: Seq<char>| k != k0 && #[trigger] has_key(new_s, k) implies map_of(
                        new_s,
                    )[k] == map_of(old_s)[k] by {
                        let j = choose|j: int| 0 <= j < new_s.len() && new_s[j].0@ == k;
                        lemma_map_of_at(new_s, j);
                        lemma_map_of_at(old_s, j);
                    }
                    assert(map_of(new_s) =~= map_of(old_s).insert(k0, value));
                }
            },
            None => {
                self.entries.push((key, value));
                let ghost new_s = self.entries@;
                let ghost n = old_s.len() as int;
                assert(keys_unique(new_s)) by {
                    assert forall|a: int, b: int| 0 <= a < b < new_s.len() implies new_s[a].0@
                        != new_s[b].0@ by {
                        if b == n {
                            assert(old_s[a].0@ == new_s[a].0@);
                        } else {
                            assert(old_s[a] == new_s[a] && old_s[b] == new_s[b]);
                        }
                    }
                }
                proof {
                    lemma_map_of_at(new_s, n);
                    assert forall|k: Seq<char>| #[trigger] has_key(new_s, k) == (has_key(old_s, k)
                        || k == k0) by {
                        if has_key(old_s, k) {
                            let j = choose|j: int| 0 <= j < old_s.len() && old_s[j].0@ == k;
                            assert(new_s[j] == old_s[j]);
                        }
                        if has_key(new_s, k) && k != k0 {
                            let j = choose|j: int| 0 <= j < new_s.len() && new_s[j].0@ == k;
                            assert(j != n);
                            assert(old_s[j] == new_s[j]);
                        }
                    }
                    assert forall|k: Seq<char>| k != k0 && #[trigger] has_key(new_s, k) implies map_of(
                        new_s,
                    )[k] == map_of(old_s)[k] by {
                        let j = choose|j: int| 0 <= j < new_s.len() && new_s[j].0@ == k;
                        assert(j != n);
                        assert(old_s[j] == new_s[j]);
                        lemma_map_of_at(new_s, j);
                        lemma_map_of_at(old_s, j);
                    }
                    assert(map_of(new_s) =~= map_of(old_s).insert(k0, value));
                }
            },
        }
    }

    /// Takes the value at `key` out of the map.
    pub fn remove(&mut self, key: &str) -> (r: Option<V>)
        requires
            old(self).wf(),
        ensures
            final(self).wf(),
            final(self)@ == old(self)@.remove(key@),
            match r {
                Some(v) => old(self)@.contains_key(key@) && v == old(self)@[key@],
                None => !old(self)@.contains_key(key@),
            },
    {
        let ghost old_s = self.entries@;
        let ghost k0 = key@;
        match self.position(key) {
            Some(i) => {
                proof {
                    lemma_map_of_at(old_s, i as int);
                }
                let (_k, v) = self.entries.remove(i);
                let ghost new_s = self.entries@;
                assert(new_s =~= old_s.remove(i as int));
                assert(keys_unique(new_s)) by {
                    assert forall|a: int, b: int| 0 <= a < b < new_s.len() implies new_s[a].0@
                        != new_s[b].0@ by {
                        let a2 = if a < i { a } else { a + 1 };
                        let b2 = if b < i { b } else { b + 1 };
                        assert(new_s[a] == old_s[a2]);
                        assert(new_s[b] == old_s[b2]);
                    }
                }
                proof {
                    assert forall|k: Seq<char>| #[trigger] has_key(new_s, k) == (has_key(old_s, k)
                        && k != k0) by {
                        if has_key(old_s, k) && k != k0 {
                            let j = choose|j: int| 0 <= j < old_s.len() && old_s[j].0@ == k;
                            assert(j != i);
                            let j2 = if j < i { j } else { j - 1 };
                            assert(new_s[j2] == old_s[j]);
                        }
                        if has_key(new_s, k) {
                            let j = choose|j: int| 0 <= j < new_s.len() && new_s[j].0@ == k;
                            let j2 = if j < i { j } else { j + 1 };
                            assert(new_s[j] == old_s[j2]);
                            assert(k != k0) by {
                                if k == k0 {
                                    assert(j2 != i);
                                    if j2 < i {
                                        assert(old_s[j2].0@ != old_s[i as int].0@);
                                    } else {
                                        assert(old_s[i as int].0@ != old_s[j2].0@);
                                    }
                                }
                            }
                        }
                    }
                    assert forall|k: Seq<char>| #[trigger] has_key(new_s, k) implies map_of(new_s)[k]
                        == map_of(old_s)[k] by {
                        let j = choose|j: int| 0 <= j < new_s.len() && new_s[j].0@ == k;
                        let j2 = if j < i { j } else { j + 1 };
                        assert(new_s[j] == old_s[j2]);
                        lemma_map_of_at(new_s, j);
                        lemma_map_of_at(old_s, j2);
                    }
                    assert(map_of(new_s) =~= map_of(old_s).remove(k0));
                }
                Some(v)
            },
            None => {
                assert(map_of(old_s) =~= map_of(old_s).remove(k0));
                None
            },
        }
    }

    /// The number of keys.
    pub fn len(&self) -> (r: usize)
        requires
            self.wf(),
        ensures
            r == self@.len(),
    {
        let ghost keys = self.entries@.map_values(|e: (String, V)| e.0@);
        proof {
            assert(keys.no_duplicates()) by {
                assert forall|i: int, j: int| 0 <= i < keys.len() && 0 <= j < keys.len() && i != j implies keys[i]
                    != keys[j] by {
                    if i < j {
                        assert(self.entries@[i].0@ != self.entries@[j].0@);
                    } else {
                        assert(self.entries@[j].0@ != self.entries@[i].0@);
                    }
                }
            }
            keys.unique_seq_to_set();
            assert(self@.dom() =~= keys.to_set()) by {
                assert forall|k: Seq<char>| #[trigger] self@.dom().contains(k) implies keys.to_set().contains(k) by {
                    let i = choose|i: int| 0 <= i < self.entries@.len() && self.entries@[i].0@ == k;
                    assert(keys[i] == k);
                }
                assert forall|k: Seq<char>| #[trigger] keys.to_set().contains(k) implies self@.dom().contains(k) by {
                    let i = choose|i: int| 0 <= i < keys.len() && keys[i] == k;
                    assert(self.entries@[i].0@ == k);
                }
            }
        }
        self.entries.len()
    }

    /// Inserts each entry in turn.
    pub fn insert_all(&mut self, entries: Vec<(String, V)>)
        requires
            old(self).wf(),
        ensures
            final(self).wf(),
            final(self)@ == insert_all(old(self)@, entries@),
    {
        let ghost all = entries@;
        let ghost m0 = self@;
        let n = entries.len();
        let mut rest = entries;
        assert(all.subrange(0, 0) =~= Seq::<(String, V)>::empty());
        while rest.len() > 0
            invariant
                self.wf(),
                n == all.len(),
                rest.len() <= n,
                rest@ == all.subrange(n - rest.len(), n as int),
                self@ == insert_all(m0, all.subrange(0, n - rest.len())),
            decreases rest.len(),
        {
            let ghost done = n - rest.len();
            let (k, v) = rest.remove(0);
            assert((k, v) == all[done]);
            assert(rest@ =~= all.subrange(n - rest.len(), n as int));
            assert(all.subrange(0, done + 1).drop_last() =~= all.subrange(0, done));
            self.insert(k, v);
        }
        assert(all.subrange(0, n as int) =~= all);
    }

    /// The entries, in order of first insertion: each key of the map once,
    /// with its value.
    pub fn entries(&self) -> (r: &Vec<(String, V)>)
        requires
            self.wf(),
        ensures
            r@ == self.entry_seq(),
            forall|i: int| 0 <= i < r@.len() ==> #[trigger] self@.contains_key(r@[i].0@)
                && self@[r@[i].0@] == r@[i].1,
            forall|k: Seq<char>| #[trigger] self@.contains_key(k) ==> exists|i: int|
                0 <= i < r@.len() && r@[i].0@ == k,
    {
        proof {
            assert forall|i: int| 0 <= i < self.entries@.len() implies #[trigger] self@.contains_key(
                self.entries@[i].0@,
            ) && self@[self.entries@[i].0@] == self.entries@[i].1 by {
                lemma_map_of_at(self.entries@, i);
            }
        }
        &self.entries
    }
}

} // verus!
