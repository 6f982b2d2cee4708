//! A table of records keyed by their id, as the supervisor keeps its
//! sandboxes, the commands of each sandbox, and its snapshots. Seen from
//! outside it is a finite map from key to record.
use vstd::prelude::*;
use crate::text::{chars_eq, chars_of};

verus! {

/// The key of the entry at `i`.
pub open spec fn key_at<V>(s: Seq<(String, V)>, i: int) -> Seq<char> {
    s[i].0@
}

/// Does some entry have this key?
pub open spec fn has_key<V>(s: Seq<(String, V)>, k: Seq<char>) -> bool {
    exists|i: int| 0 <= i < s.len() && #[trigger] key_at(s, i) == k
}

/// No key occurs twice.
pub open spec fn keys_distinct<V>(s: Seq<(String, V)>) -> bool {
    forall|i: int, j: int|
        0 <= i < s.len() && 0 <= j < s.len() && i != j ==> #[trigger] key_at(s, i) != #[trigger] key_at(s, j)
}

/// The position of a key's entry.
pub open spec fn index_of_key<V>(s: Seq<(String, V)>, k: Seq<char>) -> int {
    choose|i: int| 0 <= i < s.len() && #[trigger] key_at(s, i) == k
}

/// The map the entries stand for.
pub open spec fn map_of<V>(s: Seq<(String, V)>) -> Map<Seq<char>, V> {
    Map::new(|k: Seq<char>| has_key(s, k), |k: Seq<char>| s[index_of_key(s, k)].1)
}

/// With distinct keys, the map holds each entry's record under its key.
proof fn lemma_map_at<V>(s: Seq<(String, V)>, i: int)
    requires
        keys_distinct(s),
        0 <= i < s.len(),
    ensures
        map_of(s).contains_key(key_at(s, i)),
        map_of(s)[key_at(s, i)] == s[i].1,
{
    let k = key_at(s, i);
    assert(has_key(s, k));
    let j = index_of_key(s, k);
    assert(0 <= j < s.len() && key_at(s, j) == k);
}

/// The map of the entries with one more at the end, under a new key.
proof fn lemma_map_push<V>(s: Seq<(String, V)>, e: (String, V))
    requires
        keys_distinct(s),
        !has_key(s, e.0@),
    ensures
        keys_distinct(s.push(e)),
        map_of(s.push(e)) == map_of(s).insert(e.0@, e.1),
{
    let t = s.push(e);
    assert forall|i: int, j: int| 0 <= i < t.len() && 0 <= j < t.len() && i != j implies #[trigger] key_at(t, i) != #[trigger] key_at(t, j) by {
        if i < s.len() && j < s.len() {
            assert(key_at(t, i) == key_at(s, i));
            assert(key_at(t, j) == key_at(s, j));
        } else if i < s.len() {
            assert(key_at(t, i) == key_at(s, i));
        } else {
            assert(key_at(t, j) == key_at(s, j));
        }
    }
    assert forall|k: Seq<char>| #[trigger] map_of(t).contains_key(k) == map_of(s).insert(e.0@, e.1).contains_key(k) by {
        if has_key(t, k) && k != e.0@ {
            let i = choose|i: int| 0 <= i < t.len() && #[trigger] key_at(t, i) == k;
            assert(i < s.len());
            assert(key_at(s, i) == k);
        }
        if has_key(s, k) {
            let i = choose|i: int| 0 <= i < s.len() && #[trigger] key_at(s, i) == k;
            assert(key_at(t, i) == k);
        }
        if k == e.0@ {
            assert(key_at(t, s.len() as int) == k);
        }
    }
    assert forall|k: Seq<char>| #[trigger] map_of(t).contains_key(k) implies map_of(t)[k] == map_of(s).insert(e.0@, e.1)[k] by {
        let i = choose|i: int| 0 <= i < t.len() && #[trigger] key_at(t, i) == k;
        lemma_map_at(t, i);
        if i < s.len() {
            assert(key_at(s, i) == k);
            lemma_map_at(s, i);
        }
    }
    assert(map_of(t) =~= map_of(s).insert(e.0@, e.1));
}

/// The map of the entries with the one at `i` replaced under the same key.
proof fn lemma_map_update<V>(s: Seq<(String, V)>, i: int, e: (String, V))
    requires
        keys_distinct(s),
        0 <= i < s.len(),
        key_at(s, i) == e.0@,
    ensures
        keys_distinct(s.update(i, e)),
        map_of(s.update(i, e)) == map_of(s).insert(e.0@, e.1),
{
    let t = s.update(i, e);
    assert forall|a: int, b: int| 0 <= a < t.len() && 0 <= b < t.len() && a != b implies #[trigger] key_at(t, a) != #[trigger] key_at(t, b) by {
        assert(key_at(t, a) == key_at(s, a));
        assert(key_at(t, b) == key_at(s, b));
    }
    assert forall|k: Seq<char>| #[trigger] map_of(t).contains_key(k) == map_of(s).insert(e.0@, e.1).contains_key(k) by {
        if has_key(t, k) {
            let j = choose|j: int| 0 <= j < t.len() && #[trigger] key_at(t, j) == k;
            assert(key_at(s, j) == k);
        }
        if has_key(s, k) {
            let j = choose|j: int| 0 <= j < s.len() && #[trigger] key_at(s, j) == k;
            assert(key_at(t, j) == k);
        }
        assert(key_at(t, i) == e.0@);
    }
    assert forall|k: Seq<char>| #[trigger] map_of(t).contains_key(k) implies map_of(t)[k] == map_of(s).insert(e.0@, e.1)[k] by {
        let j = choose|j: int| 0 <= j < t.len() && #[trigger] key_at(t, j) == k;
        lemma_map_at(t, j);
        if j != i {
            assert(key_at(s, j) == k);
            lemma_map_at(s, j);
        }
    }
    assert(map_of(t) =~= map_of(s).insert(e.0@, e.1));
}

/// The map of the entries without the one at `i`.
proof fn lemma_map_remove<V>(s: Seq<(String, V)>, i: int)
    requires
        keys_distinct(s),
        0 <= i < s.len(),
    ensures
        keys_distinct(s.remove(i)),
        map_of(s.remove(i)) == map_of(s).remove(key_at(s, i)),
{
    let t = s.remove(i);
    let k0 = key_at(s, i);
    assert forall|a: int, b: int| 0 <= a < t.len() && 0 <= b < t.len() && a != b implies #[trigger] key_at(t, a) != #[trigger] key_at(t, b) by {
        let sa = if a < i { a } else { a + 1 };
        let sb = if b < i { b } else { b + 1 };
        assert(key_at(t, a) == key_at(s, sa));
        assert(key_at(t, b) == key_at(s, sb));
    }
    assert forall|k: Seq<char>| #[trigger] map_of(t).contains_key(k) == map_of(s).remove(k0).contains_key(k) by {
        if has_key(t, k) {
            let a = choose|a: int| 0 <= a < t.len() && #[trigger] key_at(t, a) == k;
            let sa = if a < i { a } else { a + 1 };
            assert(key_at(s, sa) == k);
            assert(sa != i);
        }
        if has_key(s, k) && k != k0 {
            let a = choose|a: int| 0 <= a < s.len() && #[trigger] key_at(s, a) == k;
            assert(a != i);
            let ta = if a < i { a } else { a - 1 };
            assert(key_at(t, ta) == k);
        }
    }
    assert forall|k: Seq<char>| #[trigger] map_of(t).contains_key(k) implies map_of(t)[k] == map_of(s).remove(k0)[k] by {
        let a = choose|a: int| 0 <= a < t.len() && #[trigger] key_at(t, a) == k;
        lemma_map_at(t, a);
        let sa = if a < i { a } else { a + 1 };
        assert(key_at(s, sa) == k);
        lemma_map_at(s, sa);
    }
    assert(map_of(t) =~= map_of(s).remove(k0));
}

/// Records keyed by text, each key at most once.
pub struct Registry<V> {
    entries: Vec<(String, V)>,
}

impl<V> View for Registry<V> {
    type V = Map<Seq<char>, V>;

    closed spec fn view(&self) -> Map<Seq<char>, V> {
        map_of(self.entries@)
    }
}

impl<V> Registry<V> {
    #[verifier::type_invariant]
    spec fn wf(&self) -> bool {
        keys_distinct(self.entries@)
    }

    /// An empty table.
    pub fn new() -> (r: Self)
        ensures
            r@ == Map::<Seq<char>, V>::empty(),
    {
        let r = Registry { entries: Vec::new() };
        assert(r@ =~= Map::<Seq<char>, V>::empty());
        r
    }

    fn find(&self, k: &str) -> (r: Option<usize>)
        ensures
            match r {
                Some(i) => i < self.entries@.len() && key_at(self.entries@, i as int) == k@,
                None => !has_key(self.entries@, k@),
            },
    {
        let target = chars_of(k);
        let mut i: usize = 0;
        while i < self.entries.len()
            invariant
                i <= self.entries@.len(),
                target@ == k@,
                forall|j: int| 0 <= j < i ==> #[trigger] key_at(self.entries@, j) != k@,
            decreases self.entries.len() - i,
        {
            let key = chars_of(self.entries[i].0.as_str());
            if chars_eq(&key, &target) {
                return Some(i);
            }
            i = i + 1;
        }
        None
    }

    /// Is there a record under this key?
    pub fn contains(&self, k: &str) -> (r: bool)
        ensures
            r == self@.contains_key(k@),
    {
        self.find(k).is_some()
    }

    /// The record under this key.
    pub fn get(&self, k: &str) -> (r: Option<&V>)
        ensures
            match r {
                Some(v) => self@.contains_key(k@) && *v == self@[k@],
                None => !self@.contains_key(k@),
            },
    {
        proof {
            use_type_invariant(self);
        }
        match self.find(k) {
            Some(i) => {
                proof {
                    lemma_map_at(self.entries@, i as int);
                }
                Some(&self.entries[i].1)
            },
            None => None,
        }
    }

    /// Puts a record under a key, in place of the one there was.
    pub fn insert(&mut self, k: String, v: V)
        ensures
            final(self)@ == old(self)@.insert(k@, v),
    {
        proof {
            use_type_invariant(&*self);
        }
        match self.find(k.as_str()) {
            Some(i) => {
                let ghost e = (k, v);
                proof {
                    lemma_map_update(self.entries@, i as int, e);
                }
                let mut entries: Vec<(String, V)> = Vec::new();
                std::mem::swap(&mut entries, &mut self.entries);
                entries.set(i, (k, v));
                self.entries = entries;
            },
            None => {
                let ghost e = (k, v);
                proof {
                    lemma_map_push(self.entries@, e);
                }
                let mut entries: Vec<(String, V)> = Vec::new();
                std::mem::swap(&mut entries, &mut self.entries);
                entries.push((k, v));
                self.entries = entries;
            },
        }
    }

    /// Takes the record under a key out of the table.
    pub fn remove(&mut self, k: &str) -> (r: Option<V>)
        ensures
            final(self)@ == old(self)@.remove(k@),
            r == (if old(self)@.contains_key(k@) { Some(old(self)@[k@]) } else { None::<V> }),
    {
        proof {
            use_type_invariant(&*self);
        }
        match self.find(k) {
            Some(i) => {
                proof {
                    lemma_map_remove(self.entries@, i as int);
                    lemma_map_at(self.entries@, i as int);
                }
                let mut entries: Vec<(String, V)> = Vec::new();
                std::mem::swap(&mut entries, &mut self.entries);
                let (_key, v) = entries.remove(i);
                self.entries = entries;
                Some(v)
            },
            None => {
                assert(old(self)@.remove(k@) =~= old(self)@);
                None
            },
        }
    }

    /// Every key with its record, each key once.
    pub fn entries(&self) -> (r: Vec<(&String, &V)>)
        ensures
            forall|i: int| #![trigger r@[i]] 0 <= i < r@.len() ==> self@.contains_key(r@[i].0@) && self@[r@[i].0@] == *r@[i].1,
            forall|i: int, j: int| 0 <= i < r@.len() && 0 <= j < r@.len() && i != j ==> #[trigger] r@[i].0@ != #[trigger] r@[j].0@,
            forall|k: Seq<char>| #[trigger] self@.contains_key(k) ==> exists|i: int| 0 <= i < r@.len() && #[trigger] r@[i].0@ == k,
    {
        proof {
            use_type_invariant(self);
        }
        let mut out: Vec<(&String, &V)> = Vec::new();
        let mut i: usize = 0;
        while i < self.entries.len()
            invariant
                i <= self.entries@.len(),
                out@.len() == i,
                keys_distinct(self.entries@),
                forall|j: int| #![trigger out@[j]] 0 <= j < i ==> out@[j].0@ == key_at(self.entries@, j) && *out@[j].1 == self.entries@[j].1,
            decreases self.entries.len() - i,
        {
            out.push((&self.entries[i].0, &self.entries[i].1));
            i = i + 1;
        }
        assert forall|j: int| #![trigger out@[j]] 0 <= j < out@.len() implies self@.contains_key(out@[j].0@) && self@[out@[j].0@] == *out@[j].1 by {
            lemma_map_at(self.entries@, j);
        }
        assert forall|a: int, b: int| 0 <= a < out@.len() && 0 <= b < out@.len() && a != b implies #[trigger] out@[a].0@ != #[trigger] out@[b].0@ by {
            assert(out@[a].0@ == key_at(self.entries@, a));
            assert(out@[b].0@ == key_at(self.entries@, b));
        }
        assert forall|k: Seq<char>| #[trigger] self@.contains_key(k) implies exists|j: int| 0 <= j < out@.len() && #[trigger] out@[j].0@ == k by {
            assert(has_key(self.entries@, k));
            let j = choose|j: int| 0 <= j < self.entries@.len() && #[trigger] key_at(self.entries@, j) == k;
            assert(out@[j].0@ == k);
        }
        out
    }
}

} // verus!
