//! Small maps and sets keyed by paths (strings), in insertion order.

use vstd::prelude::*;

verus! {

/// The map that a list of `(key, value)` entries describes, later entries
/// overriding earlier ones.
pub open spec fn entries_map<V: View>(s: Seq<(String, V)>) -> Map<Seq<char>, V::V>
    decreases s.len(),
{
    if s.len() == 0 {
        Map::empty()
    } else {
        entries_map(s.drop_last()).insert(s.last().0@, s.last().1@)
    }
}

pub open spec fn keys_unique<V>(s: Seq<(String, V)>) -> bool {
    forall|i: int, j: int| 0 <= i < j < s.len() ==> (#[trigger] s[i]).0@ != (#[trigger] s[j]).0@
}

proof fn lemma_entries_dom<V: View>(s: Seq<(String, V)>, k: Seq<char>)
    ensures
        entries_map(s).dom().contains(k) <==> exists|i: int| 0 <= i < s.len() && (#[trigger] s[i]).0@ == k,
    decreases s.len(),
{
    if s.len() > 0 {
        lemma_entries_dom(s.drop_last(), k);
        if entries_map(s.drop_last()).dom().contains(k) {
            let i = choose|i: int| 0 <= i < s.drop_last().len() && (#[trigger] s.drop_last()[i]).0@ == k;
            assert(s[i] == s.drop_last()[i]);
        }
        if exists|i: int| 0 <= i < s.len() && (#[trigger] s[i]).0@ == k {
            let i = choose|i: int| 0 <= i < s.len() && (#[trigger] s[i]).0@ == k;
            if i < s.len() - 1 {
                assert(s.drop_last()[i] == s[i]);
            }
        }
    }
}

proof fn lemma_entries_get<V: View>(s: Seq<(String, V)>, i: int)
    requires
        keys_unique(s),
        0 <= i < s.len(),
    ensures
        entries_map(s).dom().contains(s[i].0@),
        entries_map(s)[s[i].0@] == s[i].1@,
    decreases s.len(),
{
    if i < s.len() - 1 {
        assert(s.drop_last()[i] == s[i]);
        assert(keys_unique(s.drop_last()));
        lemma_entries_get(s.drop_last(), i);
        assert(s[i].0@ != s.last().0@);
    }
}

proof fn lemma_entries_update<V: View>(s: Seq<(String, V)>, i: int, e: (String, V))
    requires
        keys_unique(s),
        0 <= i < s.len(),
        e.0@ == s[i].0@,
    ensures
        keys_unique(s.update(i, e)),
        entries_map(s.update(i, e)) == entries_map(s).insert(e.0@, e.1@),
    decreases s.len(),
{
    let t = s.update(i, e);
    assert(keys_unique(t)) by {
        assert forall|a: int, b: int| 0 <= a < b < t.len() implies (#[trigger] t[a]).0@ != (#[trigger] t[b]).0@ by {
            if a == i {
                assert(s[i].0@ != s[b].0@);
            } else if b == i {
                assert(s[a].0@ != s[i].0@);
            } else {
                assert(s[a].0@ != s[b].0@);
            }
        }
    }
    if i == s.len() - 1 {
        assert(t.drop_last() =~= s.drop_last());
        assert(entries_map(t) =~= entries_map(s).insert(e.0@, e.1@));
    } else {
        assert(t.drop_last() =~= s.drop_last().update(i, e));
        assert(keys_unique(s.drop_last()));
        lemma_entries_update(s.drop_last(), i, e);
        assert(s.last().0@ != e.0@);
        assert(entries_map(t) =~= entries_map(s).insert(e.0@, e.1@));
    }
}

/// A map from paths to values, kept as a list of entries with distinct keys.
#[derive(Debug, Clone)]
pub struct PathTable<V> {
    entries: Vec<(String, V)>,
}

impl<V: View> View for PathTable<V> {
    type V = Map<Seq<char>, V::V>;

    closed spec fn view(&self) -> Map<Seq<char>, V::V> {
        entries_map(self.entries@)
    }
}

impl<V: View> PathTable<V> {
    pub closed spec fn wf(&self) -> bool {
        keys_unique(self.entries@)
    }

    /// The keys, in insertion order.
    pub closed spec fn key_order(&self) -> Seq<Seq<char>> {
        self.entries@.map_values(|e: (String, V)| e.0@)
    }

    pub proof fn lemma_key_order(&self)
        requires
            self.wf(),
        ensures
            self.key_order().to_set() == self@.dom(),
            self.key_order().no_duplicates(),
    {
        let ks = self.key_order();
        assert forall|k: Seq<char>| ks.to_set().contains(k) <==> self@.dom().contains(k) by {
            lemma_entries_dom(self.entries@, k);
            if ks.contains(k) {
                let i = choose|i: int| 0 <= i < ks.len() && ks[i] == k;
                assert(self.entries@[i].0@ == k);
            }
            if self@.dom().contains(k) {
                let i = choose|i: int| 0 <= i < self.entries@.len() && (#[trigger] self.entries@[i]).0@ == k;
                assert(ks[i] == k);
            }
        }
        assert(ks.to_set() =~= self@.dom());
    }

    pub fn new() -> (r: Self)
        ensures
            r.wf(),
            r@ == Map::<Seq<char>, V::V>::empty(),
    {
        PathTable { entries: Vec::new() }
    }

    fn find(&self, key: &str) -> (r: Option<usize>)
        requires
            self.wf(),
        ensures
            r matches Some(i) ==> i < self.entries@.len() && self.entries@[i as int].0@ == key@,
            r is None ==> !self@.dom().contains(key@),
    {
        let n = self.entries.len();
        let mut i: usize = 0;
        while i < n
            invariant
                0 <= i <= n == self.entries@.len(),
                forall|j: int| 0 <= j < i ==> (#[trigger] self.entries@[j]).0@ != key@,
            decreases n - i,
        {
            if crate::compiler::str_equal(self.entries[i].0.as_str(), key) {
                return Some(i);
            }
            i = i + 1;
        }
        proof {
            lemma_entries_dom(self.entries@, key@);
        }
        None
    }

    /// The value stored under `key`.
    pub fn get(&self, key: &str) -> (r: Option<&V>)
        requires
            self.wf(),
        ensures
            r matches Some(v) ==> self@.dom().contains(key@) && self@[key@] == v@,
            r is None ==> !self@.dom().contains(key@),
    {
        match self.find(key) {
            Some(i) => {
                proof {
                    lemma_entries_get(self.entries@, i as int);
                }
                Some(&self.entries[i].1)
            },
            None => None,
        }
    }

    /// Stores `value` under `key`, replacing any earlier value.
    pub fn insert(&mut self, key: String, value: V)
        requires
            old(self).wf(),
        ensures
            final(self).wf(),
            final(self)@ == old(self)@.insert(key@, value@),
            final(self).key_order() == (if old(self)@.dom().contains(key@) {
                old(self).key_order()
            } else {
                old(self).key_order().push(key@)
            }),
    {
        match self.find(key.as_str()) {
            Some(i) => {
                let ghost s = self.entries@;
                proof {
                    lemma_entries_dom(s, key@);
                }
                let e = (key, value);
                proof {
                    lemma_entries_update(s, i as int, e);
                }
                self.entries.set(i, e);
                assert(self.entries@ == s.update(i as int, e));
                assert(self.key_order() =~= old(self).key_order());
            },
            None => {
                let ghost s = self.entries@;
                proof {
                    lemma_entries_dom(s, key@);
                }
                self.entries.push((key, value));
                assert(self.entries@.drop_last() =~= s);
                assert(keys_unique(self.entries@)) by {
                    assert forall|a: int, b: int| 0 <= a < b < self.entries@.len() implies (#[trigger] self.entries@[a]).0@ != (#[trigger] self.entries@[b]).0@ by {
                        if b == s.len() {
                            assert(self.entries@[a] == s[a]);
                        } else {
                            assert(self.entries@[a] == s[a]);
                            assert(self.entries@[b] == s[b]);
                        }
                    }
                }
                assert(self.key_order() =~= old(self).key_order().push(key@));
            },
        }
    }

    /// The entries, in insertion order.
    pub fn entries_vec(&self) -> (r: &Vec<(String, V)>)
        requires
            self.wf(),
        ensures
            r@.map_values(|e: (String, V)| e.0@) == self.key_order(),
            forall|i: int| 0 <= i < r@.len() ==> self@.dom().contains(#[trigger] r@[i].0@) && self@[r@[i].0@] == r@[i].1@,
    {
        proof {
            assert forall|i: int| 0 <= i < self.entries@.len() implies self@.dom().contains(#[trigger] self.entries@[i].0@) && self@[self.entries@[i].0@] == self.entries@[i].1@ by {
                lemma_entries_get(self.entries@, i);
            }
        }
        &self.entries
    }
}

/// A set of paths without repetitions, in insertion order.
#[derive(Debug, Clone, Default)]
pub struct PathSet {
    items: Vec<String>,
}

impl View for PathSet {
    type V = Set<Seq<char>>;

    closed spec fn view(&self) -> Set<Seq<char>> {
        self.items@.map_values(|s: String| s@).to_set()
    }
}

impl PathSet {
    pub closed spec fn wf(&self) -> bool {
        self.items@.map_values(|s: String| s@).no_duplicates()
    }

    pub fn new() -> (r: Self)
        ensures
            r.wf(),
            r@ == Set::<Seq<char>>::empty(),
    {
        let r = PathSet { items: Vec::new() };
        assert(r.items@.map_values(|s: String| s@) =~= Seq::<Seq<char>>::empty());
        r
    }

    fn index_of(&self, p: &str) -> (r: Option<usize>)
        ensures
            r matches Some(i) ==> i < self.items@.len() && self.items@[i as int]@ == p@,
            r is None ==> !self@.contains(p@),
    {
        let n = self.items.len();
        let mut i: usize = 0;
        while i < n
            invariant
                0 <= i <= n == self.items@.len(),
                forall|j: int| 0 <= j < i ==> (#[trigger] self.items@[j])@ != p@,
            decreases n - i,
        {
            if crate::compiler::str_equal(self.items[i].as_str(), p) {
                return Some(i);
            }
            i = i + 1;
        }
        proof {
            let vs = self.items@.map_values(|s: String| s@);
            if vs.to_set().contains(p@) {
                let j = choose|j: int| 0 <= j < vs.len() && vs[j] == p@;
                assert(self.items@[j]@ == p@);
            }
        }
        None
    }

    pub fn contains(&self, p: &str) -> (r: bool)
        ensures
            r == self@.contains(p@),
    {
        match self.index_of(p) {
            Some(i) => {
                let ghost vs = self.items@.map_values(|s: String| s@);
                assert(vs[i as int] == p@);
                true
            },
            None => false,
        }
    }

    pub fn insert(&mut self, p: String)
        requires
            old(self).wf(),
        ensures
            final(self).wf(),
            final(self)@ == old(self)@.insert(p@),
    {
        if self.contains(p.as_str()) {
            assert(self@.insert(p@) =~= self@);
            return;
        }
        let ghost before = self.items@.map_values(|s: String| s@);
        self.items.push(p);
        let ghost after = self.items@.map_values(|s: String| s@);
        assert(after =~= before.push(p@));
        assert(after.no_duplicates()) by {
            assert forall|a: int, b: int| 0 <= a < b < after.len() implies after[a] != after[b] by {
                if b == before.len() {
                    assert(after[a] == before[a]);
                    assert(before.contains(before[a]));
                }
            }
        }
        assert forall|k: Seq<char>| after.to_set().contains(k) <==> before.to_set().insert(p@).contains(k) by {
            if after.contains(k) {
                let j = choose|j: int| 0 <= j < after.len() && after[j] == k;
                if j < before.len() {
                    assert(before[j] == k);
                }
            }
            if before.contains(k) {
                let j = choose|j: int| 0 <= j < before.len() && before[j] == k;
                assert(after[j] == k);
            }
            if k == p@ {
                assert(after[before.len() as int] == k);
            }
        }
        assert(after.to_set() =~= before.to_set().insert(p@));
    }

    pub fn remove(&mut self, p: &str)
        requires
            old(self).wf(),
        ensures
            final(self).wf(),
            final(self)@ == old(self)@.remove(p@),
    {
        match self.index_of(p) {
            Some(i) => {
                let ghost before = self.items@.map_values(|s: String| s@);
                self.items.remove(i);
                let ghost after = self.items@.map_values(|s: String| s@);
                assert(after =~= before.remove(i as int));
                assert(after.no_duplicates()) by {
                    assert forall|a: int, b: int| 0 <= a < b < after.len() implies after[a] != after[b] by {
                        let a2 = if a < i { a } else { a + 1 };
                        let b2 = if b < i { b } else { b + 1 };
                        assert(after[a] == before[a2]);
                        assert(after[b] == before[b2]);
                    }
                }
                assert forall|k: Seq<char>| after.to_set().contains(k) <==> before.to_set().remove(p@).contains(k) by {
                    if after.contains(k) {
                        let j = choose|j: int| 0 <= j < after.len() && after[j] == k;
                        let j2 = if j < i { j } else { j + 1 };
                        assert(before[j2] == k);
                        assert(j2 != i);
                        assert(before[i as int] == p@);
                        assert(before[j2] != before[i as int]);
                    }
                    if before.to_set().remove(p@).contains(k) {
                        let j = choose|j: int| 0 <= j < before.len() && before[j] == k;
                        assert(j != i);
                        if j < i {
                            assert(after[j] == k);
                        } else {
                            assert(after[j - 1] == k);
                        }
                    }
                }
                assert(after.to_set() =~= before.to_set().remove(p@));
            },
            None => {
                assert(self@.remove(p@) =~= self@);
            },
        }
    }
}

} // verus!
