//! A small table keyed by object paths.
//!
//! The store keeps its bookkeeping per object key. Keys are strings, so the
//! table is an association list whose keys are pairwise distinct; its view is
//! the finite map from key (as characters) to value.

use vstd::prelude::*;

verus! {

/// Keys of `s` are pairwise distinct.
pub open spec fn unique_keys<V>(s: Seq<(String, V)>) -> bool {
    forall|i: int, j: int|
        0 <= i < s.len() && 0 <= j < s.len() && i != j ==> #[trigger] s[i].0@ != #[trigger] s[j].0@
}

/// Some entry of `s` has key `k`.
pub open spec fn has_key<V>(s: Seq<(String, V)>, k: Seq<char>) -> bool {
    exists|i: int| 0 <= i < s.len() && #[trigger] s[i].0@ == k
}

/// The position of key `k` in `s` (meaningful when `has_key(s, k)`).
pub open spec fn key_index<V>(s: Seq<(String, V)>, k: Seq<char>) -> int {
    choose|i: int| 0 <= i < s.len() && #[trigger] s[i].0@ == k
}

/// The map that an association list with distinct keys stands for.
pub open spec fn entries_map<V>(s: Seq<(String, V)>) -> Map<Seq<char>, V> {
    Map::new(|k: Seq<char>| has_key(s, k), |k: Seq<char>| s[key_index(s, k)].1)
}

/// With distinct keys, the entry holding `k` is the one at `i`.
pub proof fn lemma_index_of_key<V>(s: Seq<(String, V)>, k: Seq<char>, i: int)
    requires
        unique_keys(s),
        0 <= i < s.len(),
        s[i].0@ == k,
    ensures
        has_key(s, k),
        key_index(s, k) == i,
        entries_map(s).contains_key(k),
        entries_map(s)[k] == s[i].1,
{
    assert(has_key(s, k));
    let j = key_index(s, k);
    assert(s[j].0@ == k);
    if j != i {
        assert(s[i].0@ != s[j].0@);
    }
}

/// Dropping the entry at `i` removes its key from the map and keeps the rest.
pub proof fn lemma_remove_at<V>(s: Seq<(String, V)>, i: int)
    requires
        unique_keys(s),
        0 <= i < s.len(),
    ensures
        unique_keys(s.remove(i)),
        entries_map(s.remove(i)) =~= entries_map(s).remove(s[i].0@),
{
    let t = s.remove(i);
    assert forall|a: int, b: int|
        0 <= a < t.len() && 0 <= b < t.len() && a != b implies #[trigger] t[a].0@ != #[trigger] t[b].0@ by {
        let a2 = if a < i { a } else { a + 1 };
        let b2 = if b < i { b } else { b + 1 };
        assert(t[a] == s[a2]);
        assert(t[b] == s[b2]);
        assert(s[a2].0@ != s[b2].0@);
    }
    let key = s[i].0@;
    assert forall|k: Seq<char>| #[trigger] entries_map(t).contains_key(k) <==> entries_map(s).remove(key).contains_key(k) by {
        if has_key(t, k) {
            let j = choose|j: int| 0 <= j < t.len() && #[trigger] t[j].0@ == k;
            let j2 = if j < i { j } else { j + 1 };
            assert(t[j] == s[j2]);
            lemma_index_of_key(s, k, j2);
            assert(s[j2].0@ != s[i].0@);
        }
        if entries_map(s).remove(key).contains_key(k) {
            let j2 = choose|j: int| 0 <= j < s.len() && #[trigger] s[j].0@ == k;
            assert(j2 != i);
            let j = if j2 < i { j2 } else { j2 - 1 };
            assert(t[j] == s[j2]);
            assert(has_key(t, k));
        }
    }
    assert forall|k: Seq<char>| #[trigger] entries_map(t).contains_key(k) implies entries_map(t)[k] == entries_map(s).remove(key)[k] by {
        let j = choose|j: int| 0 <= j < t.len() && #[trigger] t[j].0@ == k;
        let j2 = if j < i { j } else { j + 1 };
        assert(t[j] == s[j2]);
        lemma_index_of_key(t, k, j);
        lemma_index_of_key(s, k, j2);
    }
}

/// Appending an entry with a fresh key adds it to the map.
pub proof fn lemma_push_fresh<V>(s: Seq<(String, V)>, key: String, value: V)
    requires
        unique_keys(s),
        !has_key(s, key@),
    ensures
        unique_keys(s.push((key, value))),
        entries_map(s.push((key, value))) =~= entries_map(s).insert(key@, value),
{
    let t = s.push((key, value));
    assert forall|a: int, b: int|
        0 <= a < t.len() && 0 <= b < t.len() && a != b implies #[trigger] t[a].0@ != #[trigger] t[b].0@ by {
        if a < s.len() && b < s.len() {
            assert(t[a] == s[a] && t[b] == s[b]);
        } else if a < s.len() {
            assert(t[a] == s[a]);
        } else {
            assert(t[b] == s[b]);
        }
    }
    lemma_index_of_key(t, key@, s.len() as int);
    assert forall|k: Seq<char>| #[trigger] entries_map(t).contains_key(k) <==> entries_map(s).insert(key@, value).contains_key(k) by {
        if has_key(s, k) {
            let j = choose|j: int| 0 <= j < s.len() && #[trigger] s[j].0@ == k;
            assert(t[j] == s[j]);
            assert(has_key(t, k));
        }
        if has_key(t, k) && k != key@ {
            let j = choose|j: int| 0 <= j < t.len() && #[trigger] t[j].0@ == k;
            assert(j != s.len());
            assert(t[j] == s[j]);
            assert(has_key(s, k));
        }
    }
    assert forall|k: Seq<char>| #[trigger] entries_map(t).contains_key(k) implies entries_map(t)[k] == entries_map(s).insert(key@, value)[k] by {
        if k != key@ {
            let j = choose|j: int| 0 <= j < t.len() && #[trigger] t[j].0@ == k;
            assert(j != s.len());
            assert(t[j] == s[j]);
            lemma_index_of_key(t, k, j);
            lemma_index_of_key(s, k, j);
        }
    }
}

/// A finite map from object keys to values, kept as a list of entries with
/// distinct keys. (vstd specifies `HashMap` only for keys that obey its key
/// model, which `String` keys are not known to do, so the bookkeeping is kept
/// here instead.)
#[derive(Debug)]
pub struct PathTable<V> {
    entries: Vec<(String, V)>,
}

impl<V> View for PathTable<V> {
    type V = Map<Seq<char>, V>;

    closed spec fn view(&self) -> Map<Seq<char>, V> {
        entries_map(self.entries@)
    }
}

impl<V> PathTable<V> {
    /// Keys are pairwise distinct.
    pub closed spec fn wf(&self) -> bool {
        unique_keys(self.entries@)
    }

    /// Number of entries.
    pub closed spec fn spec_len(&self) -> nat {
        self.entries@.len()
    }

    /// Key of the `i`-th entry.
    pub closed spec fn key_at(&self, i: int) -> Seq<char> {
        self.entries@[i].0@
    }

    /// Value of the `i`-th entry.
    pub closed spec fn value_at(&self, i: int) -> V {
        self.entries@[i].1
    }

    /// The entries list exactly the map: each entry is in the map, each key has an entry,
    /// and there are as many entries as keys.
    pub proof fn lemma_entries(&self)
        requires
            self.wf(),
        ensures
            forall|i: int|
                0 <= i < self.spec_len() ==> #[trigger] self@.contains_key(self.key_at(i))
                    && self@[self.key_at(i)] == self.value_at(i),
            forall|k: Seq<char>|
                #[trigger] self@.contains_key(k) ==> exists|i: int|
                    0 <= i < self.spec_len() && #[trigger] self.key_at(i) == k,
            forall|i: int, j: int|
                0 <= i < self.spec_len() && 0 <= j < self.spec_len() && i != j ==> #[trigger] self.key_at(i)
                    != #[trigger] self.key_at(j),
    {
        assert forall|i: int| 0 <= i < self.spec_len() implies #[trigger] self@.contains_key(self.key_at(i))
            && self@[self.key_at(i)] == self.value_at(i) by {
            lemma_index_of_key(self.entries@, self.key_at(i), i);
        }
        assert forall|k: Seq<char>| #[trigger] self@.contains_key(k) implies exists|i: int|
            0 <= i < self.spec_len() && #[trigger] self.key_at(i) == k by {
            let j = choose|j: int| 0 <= j < self.entries@.len() && #[trigger] self.entries@[j].0@ == k;
            assert(self.key_at(j) == k);
        }
        assert forall|i: int, j: int|
            0 <= i < self.spec_len() && 0 <= j < self.spec_len() && i != j implies #[trigger] self.key_at(i)
                != #[trigger] self.key_at(j) by {
            assert(self.entries@[i].0@ != self.entries@[j].0@);
        }
    }

    /// An empty table.
    pub fn new() -> (t: Self)
        ensures
            t.wf(),
            t@ == Map::<Seq<char>, V>::empty(),
            t.spec_len() == 0,
    {
        let t = PathTable { entries: Vec::new() };
        assert(t@ =~= Map::<Seq<char>, V>::empty());
        t
    }

    /// Number of entries.
    pub fn len(&self) -> (n: usize)
        ensures
            n == self.spec_len(),
    {
        self.entries.len()
    }

    /// Key of the `i`-th entry.
    pub fn key(&self, i: usize) -> (k: &String)
        requires
            i < self.spec_len(),
        ensures
            k@ == self.key_at(i as int),
    {
        &self.entries[i].0
    }

    /// Value of the `i`-th entry.
    pub fn value(&self, i: usize) -> (v: &V)
        requires
            i < self.spec_len(),
        ensures
            *v == self.value_at(i as int),
    {
        &self.entries[i].1
    }

    /// Position of `key`, if the table holds it.
    pub fn position(&self, key: &str) -> (r: Option<usize>)
        requires
            self.wf(),
        ensures
            r is None <==> !self@.contains_key(key@),
            r matches Some(i) ==> i < self.spec_len() && self.key_at(i as int) == key@
                && self@[key@] == self.value_at(i as int),
    {
        let wanted = key.to_owned();
        let n = self.entries.len();
        let mut i: usize = 0;
        while i < n
            invariant
                self.wf(),
                n == self.entries@.len(),
                i <= n,
                wanted@ == key@,
                forall|j: int| 0 <= j < i ==> self.entries@[j].0@ != key@,
            decreases n - i,
        {
            if self.entries[i].0 == wanted {
                proof {
                    lemma_index_of_key(self.entries@, key@, i as int);
                }
                return Some(i);
            }
            i = i + 1;
        }
        proof {
            if has_key(self.entries@, key@) {
                let j = choose|j: int| 0 <= j < self.entries@.len() && #[trigger] self.entries@[j].0@ == key@;
                assert(self.entries@[j].0@ != key@);
            }
        }
        None
    }

    /// Whether the table holds `key`.
    pub fn contains(&self, key: &str) -> (b: bool)
        requires
            self.wf(),
        ensures
            b == self@.contains_key(key@),
    {
        self.position(key).is_some()
    }

    /// The value stored for `key`.
    pub fn get(&self, key: &str) -> (r: Option<&V>)
        requires
            self.wf(),
        ensures
            r is None <==> !self@.contains_key(key@),
            r matches Some(v) ==> *v == self@[key@],
    {
        match self.position(key) {
            Some(i) => Some(&self.entries[i].1),
            None => None,
        }
    }

    /// Takes out the `i`-th entry.
    pub fn remove_at(&mut self, i: usize) -> (r: (String, V))
        requires
            old(self).wf(),
            i < old(self).spec_len(),
        ensures
            final(self).wf(),
            r.0@ == old(self).key_at(i as int),
            r.1 == old(self).value_at(i as int),
            old(self)@.contains_key(r.0@),
            old(self)@[r.0@] == r.1,
            final(self)@ == old(self)@.remove(r.0@),
            final(self).spec_len() + 1 == old(self).spec_len(),
    {
        proof {
            lemma_remove_at(self.entries@, i as int);
            lemma_index_of_key(self.entries@, self.entries@[i as int].0@, i as int);
        }
        self.entries.remove(i)
    }

    /// Takes out the entry for `key`, if there is one.
    pub fn remove(&mut self, key: &str) -> (r: Option<(String, V)>)
        requires
            old(self).wf(),
        ensures
            final(self).wf(),
            final(self)@ == old(self)@.remove(key@),
            r is None <==> !old(self)@.contains_key(key@),
            r is None ==> final(self)@ == old(self)@,
            r matches Some(e) ==> e.0@ == key@ && e.1 == old(self)@[key@],
    {
        match self.position(key) {
            Some(i) => Some(self.remove_at(i)),
            None => {
                assert(self@.remove(key@) =~= self@);
                None
            },
        }
    }

    /// Adds an entry for a key the table does not hold.
    pub fn insert_new(&mut self, key: String, value: V)
        requires
            old(self).wf(),
            !old(self)@.contains_key(key@),
        ensures
            final(self).wf(),
            final(self)@ == old(self)@.insert(key@, value),
            final(self).spec_len() == old(self).spec_len() + 1,
    {
        proof {
            lemma_push_fresh(self.entries@, key, value);
        }
        self.entries.push((key, value));
    }

    /// Sets the value for `key`, replacing any value it had.
    pub fn insert(&mut self, key: String, value: V)
        requires
            old(self).wf(),
        ensures
            final(self).wf(),
            final(self)@ == old(self)@.insert(key@, value),
    {
        let _ = self.remove(key.as_str());
        self.insert_new(key, value);
        assert(self@ =~= old(self)@.insert(key@, value));
    }
}

} // verus!
