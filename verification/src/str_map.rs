use vstd::prelude::*;
use crate::text::str_eq;

verus! {

/// Whether no key occurs twice.
pub open spec fn keys_unique<V>(s: Seq<(String, V)>) -> bool {
    forall|i: int, j: int| 0 <= i < s.len() && 0 <= j < s.len() && i != j ==> s[i].0@ != s[j].0@
}

/// Whether `k` is one of the keys.
pub open spec fn has_key<V>(s: Seq<(String, V)>, k: Seq<char>) -> bool {
    exists|i: int| 0 <= i < s.len() && s[i].0@ == k
}

/// The position of key `k`.
pub open spec fn key_index<V>(s: Seq<(String, V)>, k: Seq<char>) -> int {
    choose|i: int| 0 <= i < s.len() && s[i].0@ == k
}

/// The map that a list of pairs with distinct keys stands for.
pub open spec fn pairs_map<V>(s: Seq<(String, V)>) -> Map<Seq<char>, V> {
    Map::new(|k: Seq<char>| has_key(s, k), |k: Seq<char>| s[key_index(s, k)].1)
}

/// A map from names to values, kept as a list of pairs with distinct names.
#[derive(Debug)]
pub struct StrMap<V> {
    entries: Vec<(String, V)>,
}

impl<V> View for StrMap<V> {
    type V = Map<Seq<char>, V>;

    closed spec fn view(&self) -> Map<Seq<char>, V> {
        pairs_map(self.entries@)
    }
}

proof fn lemma_index_of<V>(s: Seq<(String, V)>, i: int)
    requires
        keys_unique(s),
        0 <= i < s.len(),
    ensures
        has_key(s, s[i].0@),
        key_index(s, s[i].0@) == i,
        pairs_map(s).contains_key(s[i].0@),
        pairs_map(s)[s[i].0@] == s[i].1,
{
    let k = s[i].0@;
    assert(has_key(s, k));
    let j = key_index(s, k);
    assert(s[j].0@ == k);
}

impl<V> StrMap<V> {
    pub closed spec fn wf(&self) -> bool {
        keys_unique(self.entries@)
    }

    /// The pairs, in storage order.
    pub closed spec fn pairs(&self) -> Seq<(String, V)> {
        self.entries@
    }

    pub fn new() -> (m: StrMap<V>)
        ensures
            m.wf(),
            m@ == Map::<Seq<char>, V>::empty(),
    {
        let m = StrMap { entries: Vec::new() };
        assert(m@ =~= Map::<Seq<char>, V>::empty());
        m
    }

    fn find(&self, k: &str) -> (r: Option<usize>)
        requires
            self.wf(),
        ensures
            r is None <==> !self@.contains_key(k@),
            r matches Some(i) ==> i < self.entries@.len() && self.entries@[i as int].0@ == k@
                && key_index(self.entries@, k@) == i,
    {
        let mut i: usize = 0;
        while i < self.entries.len()
            invariant
                keys_unique(self.entries@),
                i <= self.entries@.len(),
                forall|j: int| 0 <= j < i ==> self.entries@[j].0@ != k@,
            decreases self.entries.len() - i,
        {
            if str_eq(self.entries[i].0.as_str(), k) {
                proof {
                    lemma_index_of(self.entries@, i as int);
                }
                return Some(i);
            }
            i = i + 1;
        }
        None
    }

    pub fn contains_key(&self, k: &str) -> (b: bool)
        requires
            self.wf(),
        ensures
            b == self@.contains_key(k@),
    {
        self.find(k).is_some()
    }

    pub fn get(&self, k: &str) -> (r: Option<&V>)
        requires
            self.wf(),
        ensures
            r is None <==> !self@.contains_key(k@),
            r matches Some(v) ==> self@.contains_key(k@) && *v == self@[k@],
    {
        match self.find(k) {
            Some(i) => Some(&self.entries[i].1),
            None => None,
        }
    }

    pub fn insert(&mut self, k: String, v: V)
        requires
            old(self).wf(),
        ensures
            final(self).wf(),
            final(self)@ == old(self)@.insert(k@, v),
    {
        let ghost kv = k@;
        let ghost vv = v;
        match self.find(k.as_str()) {
            Some(i) => {
                let ghost s0 = self.entries@;
                self.entries.set(i, (k, v));
                let ghost s1 = self.entries@;
                assert(keys_unique(s1));
                assert forall|key: Seq<char>| #![auto] has_key(s1, key) == (has_key(s0, key) || key == kv) by {
                    if has_key(s0, key) {
                        let j = choose|j: int| 0 <= j < s0.len() && s0[j].0@ == key;
                        assert(s1[j].0@ == key);
                    }
                    if has_key(s1, key) {
                        let j = choose|j: int| 0 <= j < s1.len() && s1[j].0@ == key;
                        if j != i {
                            assert(s0[j].0@ == key);
                        }
                    }
                }
                assert forall|key: Seq<char>| #![auto] has_key(s1, key) implies pairs_map(s1)[key] == pairs_map(s0).insert(kv, vv)[key] by {
                    let j = choose|j: int| 0 <= j < s1.len() && s1[j].0@ == key;
                    lemma_index_of(s1, j);
                    if j != i {
                        lemma_index_of(s0, j);
                    }
                }
                assert(pairs_map(s1) =~= pairs_map(s0).insert(kv, vv));
            },
            None => {
                let ghost s0 = self.entries@;
                self.entries.push((k, v));
                let ghost s1 = self.entries@;
                assert(keys_unique(s1));
                assert forall|key: Seq<char>| #![auto] has_key(s1, key) == (has_key(s0, key) || key == kv) by {
                    if has_key(s0, key) {
                        let j = choose|j: int| 0 <= j < s0.len() && s0[j].0@ == key;
                        assert(s1[j].0@ == key);
                    }
                    if key == kv {
                        assert(s1[s0.len() as int].0@ == key);
                    }
                    if has_key(s1, key) {
                        let j = choose|j: int| 0 <= j < s1.len() && s1[j].0@ == key;
                        if j < s0.len() {
                            assert(s0[j].0@ == key);
                        }
                    }
                }
                assert forall|key: Seq<char>| #![auto] has_key(s1, key) implies pairs_map(s1)[key] == pairs_map(s0).insert(kv, vv)[key] by {
                    let j = choose|j: int| 0 <= j < s1.len() && s1[j].0@ == key;
                    lemma_index_of(s1, j);
                    if j < s0.len() {
                        lemma_index_of(s0, j);
                    }
                }
                assert(pairs_map(s1) =~= pairs_map(s0).insert(kv, vv));
            },
        }
    }

    pub fn remove(&mut self, k: &str)
        requires
            old(self).wf(),
        ensures
            final(self).wf(),
            final(self)@ == old(self)@.remove(k@),
    {
        match self.find(k) {
            Some(i) => {
                let ghost s0 = self.entries@;
                let _ = self.entries.remove(i);
                let ghost s1 = self.entries@;
                assert(s1 =~= s0.remove(i as int));
                assert(keys_unique(s1)) by {
                    assert forall|a: int, b: int| 0 <= a < s1.len() && 0 <= b < s1.len() && a != b implies s1[a].0@ != s1[b].0@ by {
                        let a0 = if a < i { a } else { a + 1 };
                        let b0 = if b < i { b } else { b + 1 };
                        assert(s1[a] == s0[a0]);
                        assert(s1[b] == s0[b0]);
                    }
                }
                assert forall|key: Seq<char>| #![auto] has_key(s1, key) == (has_key(s0, key) && key != k@) by {
                    if has_key(s0, key) && key != k@ {
                        let j = choose|j: int| 0 <= j < s0.len() && s0[j].0@ == key;
                        assert(j != i);
                        let j1 = if j < i { j } else { j - 1 };
                        assert(s1[j1] == s0[j]);
                    }
                    if has_key(s1, key) {
                        let j = choose|j: int| 0 <= j < s1.len() && s1[j].0@ == key;
                        let j0 = if j < i { j } else { j + 1 };
                        assert(s1[j] == s0[j0]);
                        assert(j0 != i);
                    }
                }
                assert forall|key: Seq<char>| #![auto] has_key(s1, key) implies pairs_map(s1)[key] == pairs_map(s0).remove(k@)[key] by {
                    let j = choose|j: int| 0 <= j < s1.len() && s1[j].0@ == key;
                    lemma_index_of(s1, j);
                    let j0 = if j < i { j } else { j + 1 };
                    assert(s1[j] == s0[j0]);
                    lemma_index_of(s0, j0);
                }
                assert(pairs_map(s1) =~= pairs_map(s0).remove(k@));
            },
            None => {
                assert(self@ =~= self@.remove(k@));
            },
        }
    }

    /// The pairs, taken apart.
    pub fn into_pairs(self) -> (v: Vec<(String, V)>)
        requires
            self.wf(),
        ensures
            v@ == self.pairs(),
            keys_unique(v@),
            pairs_map(v@) == self@,
    {
        self.entries
    }

    pub fn len(&self) -> (n: usize)
        requires
            self.wf(),
        ensures
            n == self.pairs().len(),
    {
        self.entries.len()
    }
}

} // verus!
