//! A map from file paths to their captured state, kept sorted by path order
//! (component by component) with at most one entry per path.
use vstd::prelude::*;
use crate::paths::{compare_paths, lemma_path_order, path_eq, path_lt, PathOrder};
use crate::snapshot_types::FileState;

verus! {

/// One path and the state captured for it.
#[derive(Clone, Debug)]
pub struct FileEntry {
    pub path: String,
    pub state: FileState,
}

impl View for FileEntry {
    type V = (Seq<char>, FileState);

    open spec fn view(&self) -> (Seq<char>, FileState) {
        (self.path@, self.state)
    }
}

/// The abstract values of a sequence of entries.
pub open spec fn entries_view(v: Seq<FileEntry>) -> Seq<(Seq<char>, FileState)> {
    v.map_values(|e: FileEntry| e@)
}

/// Keys in strictly increasing path order (so no path occurs twice).
pub open spec fn sorted_keys(s: Seq<(Seq<char>, FileState)>) -> bool {
    forall|i: int, j: int| 0 <= i < j < s.len() ==> path_lt(#[trigger] s[i].0, #[trigger] s[j].0)
}

/// Is there an entry for the path `p` (same components)?
pub open spec fn has_key(s: Seq<(Seq<char>, FileState)>, p: Seq<char>) -> bool {
    exists|k: int| 0 <= k < s.len() && path_eq(#[trigger] s[k].0, p)
}

/// The state stored for the path `p`, if any.
pub open spec fn lookup(s: Seq<(Seq<char>, FileState)>, p: Seq<char>) -> Option<FileState> {
    if has_key(s, p) {
        Some(s[choose|k: int| 0 <= k < s.len() && path_eq(#[trigger] s[k].0, p)].1)
    } else {
        None
    }
}

/// In a sorted map, the entry whose path matches is the one looked up.
pub proof fn lemma_lookup_found(s: Seq<(Seq<char>, FileState)>, k: int, p: Seq<char>)
    requires
        sorted_keys(s),
        0 <= k < s.len(),
        path_eq(s[k].0, p),
    ensures
        lookup(s, p) == Some(s[k].1),
{
    let k2 = choose|k: int| 0 <= k < s.len() && path_eq(#[trigger] s[k].0, p);
    assert(path_eq(s[k2].0, p));
    if k2 < k {
        lemma_path_order(s[k2].0, s[k].0, p);
        assert(path_lt(s[k2].0, s[k].0));
    } else if k < k2 {
        lemma_path_order(s[k].0, s[k2].0, p);
        assert(path_lt(s[k].0, s[k2].0));
    }
}

/// In a sorted map, a path that falls strictly between the entries before
/// `j` and the entry at `j` is absent.
pub proof fn lemma_lookup_absent(s: Seq<(Seq<char>, FileState)>, j: int, p: Seq<char>)
    requires
        sorted_keys(s),
        0 <= j <= s.len(),
        forall|k: int| 0 <= k < j ==> path_lt(#[trigger] s[k].0, p),
        j < s.len() ==> path_lt(p, s[j].0),
    ensures
        lookup(s, p) is None,
        !has_key(s, p),
{
    if has_key(s, p) {
        let k = choose|k: int| 0 <= k < s.len() && path_eq(#[trigger] s[k].0, p);
        if k < j {
            lemma_path_order(s[k].0, p, p);
        } else {
            if k > j {
                assert(path_lt(s[j].0, s[k].0));
                lemma_path_order(p, s[j].0, s[k].0);
            }
            lemma_path_order(p, s[k].0, p);
            lemma_path_order(s[k].0, p, s[j].0);
        }
    }
}

/// How many entries sort before `p`.
pub open spec fn rank(s: Seq<(Seq<char>, FileState)>, p: Seq<char>) -> nat
    decreases s.len(),
{
    if s.len() == 0 {
        0
    } else {
        rank(s.drop_last(), p) + if path_lt(s.last().0, p) { 1nat } else { 0nat }
    }
}

/// The position of the entry for `p`.
pub open spec fn key_index(s: Seq<(Seq<char>, FileState)>, p: Seq<char>) -> int {
    choose|k: int| 0 <= k < s.len() && path_eq(#[trigger] s[k].0, p)
}

/// The key text the entry for `p` has: that of the entry already there for
/// the same path, else `p` itself.
pub open spec fn key_text(s: Seq<(Seq<char>, FileState)>, p: Seq<char>) -> Seq<char> {
    if has_key(s, p) { s[key_index(s, p)].0 } else { p }
}

/// `s` with `st` stored for `p`: the entry for the same path keeps its key
/// text and takes the new state; otherwise a new entry goes in at its place
/// in path order.
pub open spec fn insert_spec(s: Seq<(Seq<char>, FileState)>, p: Seq<char>, st: FileState) -> Seq<(Seq<char>, FileState)> {
    if has_key(s, p) {
        s.update(key_index(s, p), (s[key_index(s, p)].0, st))
    } else {
        s.insert(rank(s, p) as int, (p, st))
    }
}

/// In a sorted map the entries before `p` come first: exactly `rank` of them.
proof fn lemma_rank_split(s: Seq<(Seq<char>, FileState)>, p: Seq<char>)
    requires
        sorted_keys(s),
    ensures
        rank(s, p) <= s.len(),
        forall|k: int| 0 <= k < rank(s, p) ==> path_lt(#[trigger] s[k].0, p),
        forall|k: int| rank(s, p) <= k < s.len() ==> !path_lt(#[trigger] s[k].0, p),
    decreases s.len(),
{
    if s.len() > 0 {
        let s0 = s.drop_last();
        let n = s.len() - 1;
        assert(sorted_keys(s0)) by {
            assert forall|i: int, j: int| 0 <= i < j < s0.len() implies path_lt(#[trigger] s0[i].0, #[trigger] s0[j].0) by {
                assert(s0[i] == s[i] && s0[j] == s[j]);
            }
        }
        lemma_rank_split(s0, p);
        let r0 = rank(s0, p);
        if path_lt(s[n].0, p) {
            assert forall|k: int| 0 <= k < n implies path_lt(#[trigger] s[k].0, p) by {
                assert(path_lt(s[k].0, s[n].0));
                lemma_path_order(s[k].0, s[n].0, p);
            }
            if r0 < n {
                assert(s0[r0 as int] == s[r0 as int]);
            }
            assert forall|k: int| 0 <= k < rank(s, p) implies path_lt(#[trigger] s[k].0, p) by {
                if k < n {
                } else {
                    assert(k == n);
                }
            }
        } else {
            assert forall|k: int| 0 <= k < rank(s, p) implies path_lt(#[trigger] s[k].0, p) by {
                assert(s0[k] == s[k]);
            }
            assert forall|k: int| rank(s, p) <= k < s.len() implies !path_lt(#[trigger] s[k].0, p) by {
                if k < n {
                    assert(s0[k] == s[k]);
                }
            }
        }
    }
}

/// The rank of a path that a sorted map splits at `i`.
proof fn lemma_rank_at(s: Seq<(Seq<char>, FileState)>, p: Seq<char>, i: int)
    requires
        sorted_keys(s),
        0 <= i <= s.len(),
        forall|k: int| 0 <= k < i ==> path_lt(#[trigger] s[k].0, p),
        i < s.len() ==> !path_lt(s[i].0, p),
    ensures
        rank(s, p) == i,
{
    lemma_rank_split(s, p);
    let r = rank(s, p) as int;
    if r < i {
        assert(path_lt(s[r].0, p));
    } else if i < r {
        assert(path_lt(s[i].0, p));
    }
}

/// In a sorted map, at most one entry is the path `p`.
proof fn lemma_unique_key(s: Seq<(Seq<char>, FileState)>, a: int, b: int, p: Seq<char>)
    requires
        sorted_keys(s),
        0 <= a < s.len(),
        0 <= b < s.len(),
        path_eq(s[a].0, p),
        path_eq(s[b].0, p),
    ensures
        a == b,
{
    if a < b {
        assert(path_lt(s[a].0, s[b].0));
        lemma_path_order(s[a].0, s[b].0, p);
    } else if b < a {
        assert(path_lt(s[b].0, s[a].0));
        lemma_path_order(s[b].0, s[a].0, p);
    }
}

/// Storing a state keeps the map sorted, and its entries are the stored
/// one (under its key text) and the old entries for other paths.
pub proof fn lemma_insert_spec(s: Seq<(Seq<char>, FileState)>, p: Seq<char>, st: FileState)
    requires
        sorted_keys(s),
    ensures
        sorted_keys(insert_spec(s, p, st)),
        path_eq(key_text(s, p), p),
        forall|e: (Seq<char>, FileState)| #[trigger] insert_spec(s, p, st).contains(e)
            <==> (e == (key_text(s, p), st) || (s.contains(e) && !path_eq(e.0, p))),
{
    let t = insert_spec(s, p, st);
    lemma_path_order(p, p, p);
    if has_key(s, p) {
        let k = key_index(s, p);
        assert(path_eq(s[k].0, p));
        assert(sorted_keys(t)) by {
            assert forall|i: int, j: int| 0 <= i < j < t.len() implies path_lt(#[trigger] t[i].0, #[trigger] t[j].0) by {
                assert(t[i].0 == s[i].0 && t[j].0 == s[j].0);
            }
        }
        assert forall|e: (Seq<char>, FileState)| #[trigger] t.contains(e)
            <==> (e == (key_text(s, p), st) || (s.contains(e) && !path_eq(e.0, p))) by {
            if t.contains(e) {
                let i = choose|i: int| 0 <= i < t.len() && t[i] == e;
                if i != k {
                    assert(s[i] == e);
                    if path_eq(e.0, p) {
                        lemma_unique_key(s, i, k, p);
                    }
                }
            }
            if e == (key_text(s, p), st) {
                assert(t[k] == e);
            }
            if s.contains(e) && !path_eq(e.0, p) {
                let i = choose|i: int| 0 <= i < s.len() && s[i] == e;
                assert(i != k);
                assert(t[i] == e);
            }
        }
    } else {
        lemma_rank_split(s, p);
        let r = rank(s, p) as int;
        assert forall|k: int| r <= k < s.len() implies path_lt(p, #[trigger] s[k].0) by {
            lemma_path_order(s[k].0, p, p);
            assert(!path_eq(s[k].0, p));
        }
        assert(sorted_keys(t)) by {
            assert forall|i: int, j: int| 0 <= i < j < t.len() implies path_lt(#[trigger] t[i].0, #[trigger] t[j].0) by {
                if j < r {
                    assert(t[i] == s[i] && t[j] == s[j]);
                } else if j == r {
                    assert(t[i] == s[i]);
                } else if i == r {
                    assert(t[j] == s[j - 1]);
                } else if i < r {
                    assert(t[i] == s[i] && t[j] == s[j - 1]);
                    lemma_path_order(s[i].0, p, s[j - 1].0);
                } else {
                    assert(t[i] == s[i - 1] && t[j] == s[j - 1]);
                }
            }
        }
        assert forall|e: (Seq<char>, FileState)| #[trigger] t.contains(e)
            <==> (e == (key_text(s, p), st) || (s.contains(e) && !path_eq(e.0, p))) by {
            if t.contains(e) {
                let i = choose|i: int| 0 <= i < t.len() && t[i] == e;
                if i < r {
                    assert(s[i] == e);
                } else if i > r {
                    assert(s[i - 1] == e);
                }
            }
            if e == (key_text(s, p), st) {
                assert(t[r] == e);
            }
            if s.contains(e) && !path_eq(e.0, p) {
                let i = choose|i: int| 0 <= i < s.len() && s[i] == e;
                if i < r {
                    assert(t[i] == e);
                } else {
                    assert(t[i + 1] == e);
                }
            }
        }
    }
}

/// A sorted map is determined by its entries.
pub proof fn lemma_entries_determine(s1: Seq<(Seq<char>, FileState)>, s2: Seq<(Seq<char>, FileState)>)
    requires
        sorted_keys(s1),
        sorted_keys(s2),
        forall|e: (Seq<char>, FileState)| s1.contains(e) <==> s2.contains(e),
    ensures
        s1 == s2,
    decreases s1.len(),
{
    if s1.len() == 0 {
        if s2.len() > 0 {
            assert(s2.contains(s2[0]));
        }
        assert(s1 =~= s2);
    } else {
        assert(s1.contains(s1[0]));
        let j = choose|j: int| 0 <= j < s2.len() && s2[j] == s1[0];
        assert(s2.contains(s2[0]));
        let i = choose|i: int| 0 <= i < s1.len() && s1[i] == s2[0];
        if j > 0 {
            assert(path_lt(s2[0].0, s2[j].0));
            if i > 0 {
                assert(path_lt(s1[0].0, s1[i].0));
                lemma_path_order(s1[0].0, s2[0].0, s1[0].0);
            }
            lemma_path_order(s2[0].0, s2[0].0, s2[0].0);
        }
        assert(s1[0] == s2[0]);
        let t1 = s1.drop_first();
        let t2 = s2.drop_first();
        assert(sorted_keys(t1)) by {
            assert forall|a: int, b: int| 0 <= a < b < t1.len() implies path_lt(#[trigger] t1[a].0, #[trigger] t1[b].0) by {
                assert(t1[a] == s1[a + 1] && t1[b] == s1[b + 1]);
            }
        }
        assert(sorted_keys(t2)) by {
            assert forall|a: int, b: int| 0 <= a < b < t2.len() implies path_lt(#[trigger] t2[a].0, #[trigger] t2[b].0) by {
                assert(t2[a] == s2[a + 1] && t2[b] == s2[b + 1]);
            }
        }
        assert forall|e: (Seq<char>, FileState)| t1.contains(e) <==> t2.contains(e) by {
            lemma_path_order(s1[0].0, s1[0].0, s1[0].0);
            if t1.contains(e) {
                let a = choose|a: int| 0 <= a < t1.len() && t1[a] == e;
                assert(s1[a + 1] == e);
                assert(s1.contains(e));
                let b = choose|b: int| 0 <= b < s2.len() && s2[b] == e;
                if b == 0 {
                    assert(path_lt(s1[0].0, s1[a + 1].0));
                }
                assert(t2[b - 1] == e);
            }
            if t2.contains(e) {
                let b = choose|b: int| 0 <= b < t2.len() && t2[b] == e;
                assert(s2[b + 1] == e);
                assert(s2.contains(e));
                let a = choose|a: int| 0 <= a < s1.len() && s1[a] == e;
                if a == 0 {
                    assert(path_lt(s2[0].0, s2[b + 1].0));
                }
                assert(t1[a - 1] == e);
            }
        }
        lemma_entries_determine(t1, t2);
        assert(s1 =~= seq![s1[0]] + t1);
        assert(s2 =~= seq![s2[0]] + t2);
    }
}

/// Storing states for two different paths gives the same map in either
/// order: a snapshot's map, and so its leaves and root, do not depend on
/// the order the files were found in.
pub proof fn lemma_insert_commutes(s: Seq<(Seq<char>, FileState)>, a: Seq<char>, x: FileState, b: Seq<char>, y: FileState)
    requires
        sorted_keys(s),
        !path_eq(a, b),
    ensures
        insert_spec(insert_spec(s, a, x), b, y) == insert_spec(insert_spec(s, b, y), a, x),
{
    let sa = insert_spec(s, a, x);
    let sb = insert_spec(s, b, y);
    lemma_insert_spec(s, a, x);
    lemma_insert_spec(s, b, y);
    lemma_insert_spec(sa, b, y);
    lemma_insert_spec(sb, a, x);
    // the key text for `b` is the same before and after storing `a`
    assert(key_text(sa, b) == key_text(s, b)) by {
        lemma_key_text_kept(s, a, x, b);
    }
    assert(key_text(sb, a) == key_text(s, a)) by {
        lemma_key_text_kept(s, b, y, a);
    }
    let l = insert_spec(sa, b, y);
    let r = insert_spec(sb, a, x);
    assert forall|e: (Seq<char>, FileState)| l.contains(e) <==> r.contains(e) by {
        if e.0 == key_text(s, a) {
            assert(path_eq(e.0, a));
        }
        if e.0 == key_text(s, b) {
            assert(path_eq(e.0, b));
        }
    }
    lemma_entries_determine(l, r);
}

/// Storing a state for one path leaves the key text of any other path.
proof fn lemma_key_text_kept(s: Seq<(Seq<char>, FileState)>, a: Seq<char>, x: FileState, b: Seq<char>)
    requires
        sorted_keys(s),
        !path_eq(a, b),
    ensures
        key_text(insert_spec(s, a, x), b) == key_text(s, b),
{
    let t = insert_spec(s, a, x);
    lemma_insert_spec(s, a, x);
    if has_key(s, b) {
        let j = key_index(s, b);
        assert(path_eq(s[j].0, b));
        assert(s.contains(s[j]));
        assert(!path_eq(s[j].0, a));
        assert(t.contains(s[j]));
        let i = choose|i: int| 0 <= i < t.len() && t[i] == s[j];
        assert(has_key(t, b));
        let k = key_index(t, b);
        lemma_unique_key(t, i, k, b);
    } else {
        if has_key(t, b) {
            let k = key_index(t, b);
            assert(t.contains(t[k]));
            if t[k] == (key_text(s, a), x) {
                assert(path_eq(t[k].0, a));
            } else {
                let j = choose|j: int| 0 <= j < s.len() && s[j] == t[k];
                assert(path_eq(s[j].0, b));
            }
        }
    }
}

/// The entries `es` inserted in order into `s`.
pub open spec fn insert_all(s: Seq<(Seq<char>, FileState)>, es: Seq<(Seq<char>, FileState)>) -> Seq<(Seq<char>, FileState)>
    decreases es.len(),
{
    if es.len() == 0 {
        s
    } else {
        insert_spec(insert_all(s, es.drop_last()), es.last().0, es.last().1)
    }
}

/// File states keyed by path, in path order.
#[derive(Clone, Debug)]
pub struct FileMap {
    entries: Vec<FileEntry>,
}

impl View for FileMap {
    type V = Seq<(Seq<char>, FileState)>;

    closed spec fn view(&self) -> Seq<(Seq<char>, FileState)> {
        entries_view(self.entries@)
    }
}

impl FileMap {
    /// The map's entries are in strict path order.
    pub open spec fn wf(&self) -> bool {
        sorted_keys(self@)
    }

    /// An empty map.
    pub fn new() -> (r: Self)
        ensures
            r.wf(),
            r@ == Seq::<(Seq<char>, FileState)>::empty(),
    {
        let r = FileMap { entries: Vec::new() };
        proof {
            assert(r@ =~= Seq::<(Seq<char>, FileState)>::empty());
        }
        r
    }

    /// The map of entries that are already in strict path order; `None`
    /// when two neighbours are out of order or are the same path.
    pub fn from_sorted(entries: Vec<FileEntry>) -> (r: Option<FileMap>)
        ensures
            r is Some == sorted_keys(entries_view(entries@)),
            r matches Some(m) ==> m.wf() && m@ == entries_view(entries@),
    {
        let ghost s = entries_view(entries@);
        if entries.len() == 0 {
            return Some(FileMap { entries });
        }
        let mut i: usize = 1;
        while i < entries.len()
            invariant
                s == entries_view(entries@),
                1 <= i <= entries@.len(),
                sorted_keys(s.take(i as int)),
            decreases entries.len() - i,
        {
            let ord = compare_paths(entries[i - 1].path.as_str(), entries[i].path.as_str());
            proof {
                assert(s[i - 1] == entries@[i - 1]@ && s[i as int] == entries@[i as int]@);
            }
            match ord {
                PathOrder::Less => {},
                _ => {
                    proof {
                        lemma_path_order(s[i - 1].0, s[i as int].0, s[i as int].0);
                        assert(!path_lt(s[i - 1].0, s[i as int].0));
                    }
                    return None;
                },
            }
            proof {
                let t = s.take(i + 1);
                assert forall|a: int, b: int| 0 <= a < b < t.len() implies path_lt(#[trigger] t[a].0, #[trigger] t[b].0) by {
                    assert(t[a] == s[a] && t[b] == s[b]);
                    if b < i {
                        assert(s.take(i as int)[a] == s[a] && s.take(i as int)[b] == s[b]);
                    } else if a < i - 1 {
                        assert(s.take(i as int)[a] == s[a] && s.take(i as int)[i - 1] == s[i - 1]);
                        lemma_path_order(s[a].0, s[i - 1].0, s[b].0);
                    }
                }
            }
            i = i + 1;
        }
        proof {
            assert(s.take(s.len() as int) =~= s);
        }
        Some(FileMap { entries })
    }

    /// The map built entry by entry from `entries`, later states of a path
    /// replacing earlier ones.
    pub fn from_entries(entries: Vec<FileEntry>) -> (r: FileMap)
        ensures
            r.wf(),
            r@ == insert_all(Seq::empty(), entries_view(entries@)),
    {
        let ghost es = entries_view(entries@);
        let mut m = FileMap::new();
        let mut i: usize = 0;
        while i < entries.len()
            invariant
                es == entries_view(entries@),
                i <= es.len(),
                m.wf(),
                m@ == insert_all(Seq::empty(), es.take(i as int)),
            decreases entries.len() - i,
        {
            let e = &entries[i];
            proof {
                assert(es.take(i + 1).drop_last() =~= es.take(i as int));
                assert(es.take(i + 1).last() == e@);
            }
            m.insert(e.path.clone(), e.state);
            i = i + 1;
        }
        proof {
            assert(es.take(es.len() as int) =~= es);
        }
        m
    }

    /// The entries, in path order.
    pub fn entries(&self) -> (r: &Vec<FileEntry>)
        ensures
            entries_view(r@) == self@,
    {
        &self.entries
    }

    /// The number of entries.
    pub fn len(&self) -> (r: usize)
        ensures
            r == self@.len(),
    {
        self.entries.len()
    }

    /// Is the map empty?
    pub fn is_empty(&self) -> (r: bool)
        ensures
            r == (self@.len() == 0),
    {
        self.entries.len() == 0
    }

    /// The state stored for `path`, if any (a binary search in path order).
    pub fn get(&self, path: &str) -> (r: Option<FileState>)
        requires
            self.wf(),
        ensures
            r == lookup(self@, path@),
    {
        let ghost s = self@;
        let mut lo: usize = 0;
        let mut hi: usize = self.entries.len();
        while lo < hi
            invariant
                s == self@,
                s == entries_view(self.entries@),
                sorted_keys(s),
                lo <= hi <= s.len(),
                forall|k: int| 0 <= k < lo ==> path_lt(#[trigger] s[k].0, path@),
                forall|k: int| hi <= k < s.len() ==> path_lt(path@, #[trigger] s[k].0),
            decreases hi - lo,
        {
            let mid = lo + (hi - lo) / 2;
            let e = &self.entries[mid];
            proof {
                assert(s[mid as int] == e@);
            }
            match compare_paths(e.path.as_str(), path) {
                PathOrder::Equal => {
                    proof {
                        lemma_lookup_found(s, mid as int, path@);
                    }
                    return Some(e.state);
                },
                PathOrder::Less => {
                    proof {
                        assert forall|k: int| 0 <= k <= mid implies path_lt(#[trigger] s[k].0, path@) by {
                            if k < mid {
                                lemma_path_order(s[k].0, s[mid as int].0, path@);
                            }
                        }
                    }
                    lo = mid + 1;
                },
                PathOrder::Greater => {
                    proof {
                        assert forall|k: int| mid <= k < s.len() implies path_lt(path@, #[trigger] s[k].0) by {
                            if k > mid {
                                lemma_path_order(path@, s[mid as int].0, s[k].0);
                            }
                        }
                    }
                    hi = mid;
                },
            }
        }
        proof {
            lemma_lookup_absent(s, lo as int, path@);
        }
        None
    }

    /// Is there an entry for `path`?
    pub fn contains_key(&self, path: &str) -> (r: bool)
        requires
            self.wf(),
        ensures
            r == has_key(self@, path@),
    {
        match self.get(path) {
            Some(_) => true,
            None => false,
        }
    }

    /// Stores `state` for `path`. An existing entry for the same path keeps
    /// its key text and takes the new state; otherwise the entry is placed
    /// at its position in path order.
    pub fn insert(&mut self, path: String, state: FileState)
        requires
            old(self).wf(),
        ensures
            final(self).wf(),
            final(self)@ == insert_spec(old(self)@, path@, state),
            lookup(final(self)@, path@) == Some(state),
            forall|q: Seq<char>| !path_eq(q, path@) ==> lookup(final(self)@, q) == lookup(old(self)@, q),
            has_key(old(self)@, path@) ==> final(self)@.len() == old(self)@.len(),
            !has_key(old(self)@, path@) ==> final(self)@.len() == old(self)@.len() + 1,
    {
        let ghost s = self@;
        let mut i: usize = 0;
        while i < self.entries.len()
            invariant
                s == entries_view(self.entries@),
                sorted_keys(s),
                i <= s.len(),
                forall|k: int| 0 <= k < i ==> path_lt(#[trigger] s[k].0, path@),
            ensures
                s == entries_view(self.entries@),
                i <= s.len(),
                forall|k: int| 0 <= k < i ==> path_lt(#[trigger] s[k].0, path@),
                i < s.len() ==> !path_lt(s[i as int].0, path@),
            decreases self.entries.len() - i,
        {
            let ord = compare_paths(self.entries[i].path.as_str(), path.as_str());
            proof {
                assert(s[i as int] == self.entries@[i as int]@);
            }
            match ord {
                PathOrder::Less => {},
                _ => {
                    break;
                },
            }
            i = i + 1;
        }
        proof {
            if i < s.len() {
                assert(s[i as int] == self.entries@[i as int]@);
            }
        }
        let mut same = false;
        if i < self.entries.len() {
            let ord = compare_paths(self.entries[i].path.as_str(), path.as_str());
            same = ord == PathOrder::Equal;
        }
        if same {
            let key = self.entries[i].path.clone();
            self.entries.set(i, FileEntry { path: key, state });
            proof {
                let t = self@;
                assert(t =~= s.update(i as int, (s[i as int].0, state)));
                assert(sorted_keys(t));
                lemma_lookup_found(t, i as int, path@);
                assert forall|q: Seq<char>| !path_eq(q, path@) implies lookup(t, q)
                    == lookup(s, q) by {
                    if has_key(s, q) {
                        let k = choose|k: int| 0 <= k < s.len() && path_eq(#[trigger] s[k].0, q);
                        lemma_lookup_found(s, k, q);
                        assert(k != i);
                        assert(t[k] == s[k]);
                        lemma_lookup_found(t, k, q);
                    } else {
                        assert forall|k: int| 0 <= k < t.len() implies !path_eq(#[trigger] t[k].0, q) by {
                            assert(t[k].0 == s[k].0);
                        }
                    }
                }
                assert(has_key(s, path@)) by {
                    assert(path_eq(s[i as int].0, path@));
                }
                lemma_unique_key(s, i as int, key_index(s, path@), path@);
            }
            return;
        }
        // the new path sorts strictly before every entry from `i` on
        proof {
            if i < s.len() {
                lemma_path_order(path@, s[i as int].0, path@);
                assert(path_lt(path@, s[i as int].0));
            }
            lemma_lookup_absent(s, i as int, path@);
        }
        let ghost old_entries = self.entries@;
        self.entries.insert(i, FileEntry { path, state });
        proof {
            let t = self@;
            let p = self.entries@[i as int].path@;
            assert(t =~= s.insert(i as int, (p, state)));
            assert forall|a: int, b: int| 0 <= a < b < t.len() implies path_lt(#[trigger] t[a].0, #[trigger] t[b].0) by {
                if b < i {
                    assert(t[a] == s[a] && t[b] == s[b]);
                } else if b == i {
                    assert(t[a] == s[a]);
                } else if a == i {
                    assert(t[b] == s[b - 1]);
                    if b - 1 > i {
                        assert(path_lt(s[i as int].0, s[b - 1].0));
                        lemma_path_order(p, s[i as int].0, s[b - 1].0);
                    }
                } else if a < i {
                    assert(t[a] == s[a] && t[b] == s[b - 1]);
                } else {
                    assert(t[a] == s[a - 1] && t[b] == s[b - 1]);
                }
            }
            lemma_path_order(p, p, p);
            lemma_rank_at(s, p, i as int);
            lemma_lookup_found(t, i as int, p);
            assert forall|q: Seq<char>| !path_eq(q, p) implies lookup(t, q) == lookup(s, q) by {
                if has_key(s, q) {
                    let k = choose|k: int| 0 <= k < s.len() && path_eq(#[trigger] s[k].0, q);
                    lemma_lookup_found(s, k, q);
                    let kt = if k < i { k } else { k + 1 };
                    assert(t[kt] == s[k]);
                    lemma_lookup_found(t, kt, q);
                } else {
                    assert forall|k: int| 0 <= k < t.len() implies !path_eq(#[trigger] t[k].0, q) by {
                        if k < i {
                            assert(t[k] == s[k]);
                        } else if k > i {
                            assert(t[k] == s[k - 1]);
                        }
                    }
                }
            }
        }
    }
}

} // verus!
