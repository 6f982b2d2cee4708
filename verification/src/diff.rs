//! Differences between two snapshots of a file tree: which paths were
//! created, modified, deleted or had their permissions changed.
use vstd::prelude::*;
use crate::file_map::{
    entries_view, has_key, lemma_lookup_absent, lemma_lookup_found, lookup, sorted_keys, FileEntry,
    FileMap,
};
use crate::paths::{compare_paths, lemma_path_order, path_eq, path_lt, PathOrder};
use crate::snapshot_types::{Change, ChangeType, ChangeView, FileState};

verus! {

/// The views of a sequence of changes.
pub open spec fn changes_view(v: Seq<Change>) -> Seq<ChangeView> {
    v.map_values(|c: Change| c@)
}

/// Every size fits a signed 64-bit delta (no file is 2^63 bytes or more).
pub open spec fn sizes_fit(s: Seq<(Seq<char>, FileState)>) -> bool {
    forall|k: int| 0 <= k < s.len() ==> #[trigger] s[k].1.size <= i64::MAX
}

/// The change reported for a path of the previous snapshot, given its state
/// in the current one: modified when the content hash differs, permissions
/// changed when only the mode differs, deleted when it is gone, nothing when
/// both agree.
pub open spec fn change_from_previous(path: Seq<char>, prev: FileState, cur: Option<FileState>) -> Option<ChangeView> {
    match cur {
        Some(c) => if c.hash != prev.hash {
            Some((path, ChangeType::Modified, Some((c.size - prev.size) as i64), Some(prev.hash), Some(c.hash)))
        } else if c.permissions != prev.permissions {
            Some((path, ChangeType::PermissionsChanged, Some(0i64), Some(prev.hash), Some(c.hash)))
        } else {
            None
        },
        None => Some((path, ChangeType::Deleted, Some((0 - prev.size) as i64), Some(prev.hash), None)),
    }
}

/// The change reported for a path that only the current snapshot holds.
pub open spec fn created_change(path: Seq<char>, cur: FileState) -> ChangeView {
    (path, ChangeType::Created, Some(cur.size as i64), None, Some(cur.hash))
}

/// The change a previous entry gives rise to.
pub open spec fn prev_entry_change(prev: Seq<(Seq<char>, FileState)>, cur: Seq<(Seq<char>, FileState)>, k: int) -> Option<ChangeView> {
    change_from_previous(prev[k].0, prev[k].1, lookup(cur, prev[k].0))
}

/// `c` is the change of some previous entry, or the creation of some
/// current entry that the previous snapshot lacks.
pub open spec fn has_source(prev: Seq<(Seq<char>, FileState)>, cur: Seq<(Seq<char>, FileState)>, c: ChangeView) -> bool {
    ||| exists|k: int| 0 <= k < prev.len() && #[trigger] prev_entry_change(prev, cur, k) == Some(c)
    ||| exists|k: int|
        0 <= k < cur.len() && !has_key(prev, cur[k].0) && c == created_change(#[trigger] cur[k].0, cur[k].1)
}

/// `r` is the diff of `prev` against `cur`: in strict path order, every
/// element is owed to some entry, and every entry that differs has its
/// change listed.
pub open spec fn is_diff(prev: Seq<(Seq<char>, FileState)>, cur: Seq<(Seq<char>, FileState)>, r: Seq<ChangeView>) -> bool {
    &&& forall|i: int, j: int| 0 <= i < j < r.len() ==> path_lt(#[trigger] r[i].0, #[trigger] r[j].0)
    &&& forall|i: int| 0 <= i < r.len() ==> has_source(prev, cur, #[trigger] r[i])
    &&& forall|k: int|
        0 <= k < prev.len() && (#[trigger] prev_entry_change(prev, cur, k)) is Some ==> exists|i: int|
            0 <= i < r.len() && r[i] == prev_entry_change(prev, cur, k)->0
    &&& forall|k: int|
        0 <= k < cur.len() && !has_key(prev, #[trigger] cur[k].0) ==> exists|i: int|
            0 <= i < r.len() && r[i] == created_change(cur[k].0, cur[k].1)
}

/// Builds the change for a path of the previous snapshot that is gone.
fn deleted(e: &FileEntry) -> (r: Change)
    requires
        e.state.size <= i64::MAX,
    ensures
        Some(r@) == change_from_previous(e@.0, e@.1, None),
{
    Change {
        path: e.path.clone(),
        change_type: ChangeType::Deleted,
        size_delta: Some(-(e.state.size as i64)),
        old_hash: Some(e.state.hash),
        new_hash: None,
    }
}

/// Builds the change for a path only the current snapshot holds.
fn created(e: &FileEntry) -> (r: Change)
    requires
        e.state.size <= i64::MAX,
    ensures
        r@ == created_change(e@.0, e@.1),
{
    Change {
        path: e.path.clone(),
        change_type: ChangeType::Created,
        size_delta: Some(e.state.size as i64),
        old_hash: None,
        new_hash: Some(e.state.hash),
    }
}

/// Builds the change, if any, for a path present in both snapshots.
fn compared(p: &FileEntry, c: &FileEntry) -> (r: Option<Change>)
    requires
        p.state.size <= i64::MAX,
        c.state.size <= i64::MAX,
    ensures
        match r {
            Some(ch) => Some(ch@) == change_from_previous(p@.0, p@.1, Some(c@.1)),
            None => change_from_previous(p@.0, p@.1, Some(c@.1)) is None,
        },
{
    if !c.state.hash.same_as(&p.state.hash) {
        Some(Change {
            path: p.path.clone(),
            change_type: ChangeType::Modified,
            size_delta: Some(c.state.size as i64 - p.state.size as i64),
            old_hash: Some(p.state.hash),
            new_hash: Some(c.state.hash),
        })
    } else if c.state.permissions != p.state.permissions {
        Some(Change {
            path: p.path.clone(),
            change_type: ChangeType::PermissionsChanged,
            size_delta: Some(0),
            old_hash: Some(p.state.hash),
            new_hash: Some(c.state.hash),
        })
    } else {
        None
    }
}

/// Diff two file manifests into a sorted list of changes.
pub fn compute_changes(previous: &FileMap, current: &FileMap) -> (r: Vec<Change>)
    requires
        previous.wf(),
        current.wf(),
        sizes_fit(previous@),
        sizes_fit(current@),
    ensures
        is_diff(previous@, current@, changes_view(r@)),
{
    let pe = previous.entries();
    let ce = current.entries();
    let ghost ps = previous@;
    let ghost cs = current@;
    let mut out: Vec<Change> = Vec::new();
    let mut i: usize = 0;
    let mut j: usize = 0;
    while i < pe.len() || j < ce.len()
        invariant
            entries_view(pe@) == ps,
            entries_view(ce@) == cs,
            sorted_keys(ps),
            sorted_keys(cs),
            sizes_fit(ps),
            sizes_fit(cs),
            i <= ps.len(),
            j <= cs.len(),
            forall|a: int, b: int| 0 <= a < b < changes_view(out@).len() ==> path_lt(
                #[trigger] changes_view(out@)[a].0,
                #[trigger] changes_view(out@)[b].0,
            ),
            forall|t: int|
                0 <= t < changes_view(out@).len() ==> (i < ps.len() ==> path_lt(
                    #[trigger] changes_view(out@)[t].0,
                    ps[i as int].0,
                )) && (j < cs.len() ==> path_lt(changes_view(out@)[t].0, cs[j as int].0)),
            forall|b: int| 0 <= b < j ==> (i < ps.len() ==> path_lt(#[trigger] cs[b].0, ps[i as int].0)),
            forall|a: int| 0 <= a < i ==> (j < cs.len() ==> path_lt(#[trigger] ps[a].0, cs[j as int].0)),
            forall|t: int| 0 <= t < changes_view(out@).len() ==> has_source(ps, cs, #[trigger] changes_view(out@)[t]),
            forall|a: int|
                0 <= a < i && (#[trigger] prev_entry_change(ps, cs, a)) is Some ==> exists|t: int|
                    0 <= t < changes_view(out@).len() && changes_view(out@)[t] == prev_entry_change(ps, cs, a)->0,
            forall|b: int|
                0 <= b < j && !has_key(ps, #[trigger] cs[b].0) ==> exists|t: int|
                    0 <= t < changes_view(out@).len() && changes_view(out@)[t] == created_change(cs[b].0, cs[b].1),
        decreases (ps.len() - i) + (cs.len() - j),
    {
        let ghost o = changes_view(out@);
        let ord = if i < pe.len() && j < ce.len() {
            compare_paths(pe[i].path.as_str(), ce[j].path.as_str())
        } else if i < pe.len() {
            PathOrder::Less
        } else {
            PathOrder::Greater
        };
        proof {
            if i < ps.len() {
                assert(ps[i as int] == pe@[i as int]@);
            }
            if j < cs.len() {
                assert(cs[j as int] == ce@[j as int]@);
            }
        }
        if ord == PathOrder::Less {
            // the previous entry has no counterpart: deleted
            let ghost p = ps[i as int].0;
            proof {
                lemma_lookup_absent(cs, j as int, p);
                assert(ps[i as int].1.size <= i64::MAX);
            }
            let ch = deleted(&pe[i]);
            out.push(ch);
            i = i + 1;
            proof {
                let o2 = changes_view(out@);
                assert(o2 =~= o.push(ch@));
                assert(prev_entry_change(ps, cs, i - 1) == Some(ch@));
                assert forall|t: int| 0 <= t < o.len() implies path_lt(o[t].0, p) by {}
                assert forall|t: int| 0 <= t < o2.len() implies (i < ps.len() ==> path_lt(
                    #[trigger] o2[t].0,
                    ps[i as int].0,
                )) && (j < cs.len() ==> path_lt(o2[t].0, cs[j as int].0)) by {
                    if i < ps.len() {
                        assert(path_lt(p, ps[i as int].0));
                        if t < o.len() {
                            lemma_path_order(o[t].0, p, ps[i as int].0);
                        }
                    }
                }
                assert forall|b: int| 0 <= b < j implies (i < ps.len() ==> path_lt(#[trigger] cs[b].0, ps[i as int].0)) by {
                    if i < ps.len() {
                        assert(path_lt(p, ps[i as int].0));
                        lemma_path_order(cs[b].0, p, ps[i as int].0);
                    }
                }
                assert forall|t: int| 0 <= t < o2.len() implies has_source(ps, cs, #[trigger] o2[t]) by {
                    if t < o.len() {
                        assert(o2[t] == o[t]);
                    }
                }
                assert forall|a: int|
                    0 <= a < i && (#[trigger] prev_entry_change(ps, cs, a)) is Some implies exists|t: int|
                        0 <= t < o2.len() && o2[t] == prev_entry_change(ps, cs, a)->0 by {
                    if a < i - 1 {
                        let t = choose|t: int| 0 <= t < o.len() && o[t] == prev_entry_change(ps, cs, a)->0;
                        assert(o2[t] == o[t]);
                    } else {
                        assert(o2[o.len() as int] == ch@);
                    }
                }
                assert forall|b: int|
                    0 <= b < j && !has_key(ps, #[trigger] cs[b].0) implies exists|t: int|
                        0 <= t < o2.len() && o2[t] == created_change(cs[b].0, cs[b].1) by {
                    let t = choose|t: int| 0 <= t < o.len() && o[t] == created_change(cs[b].0, cs[b].1);
                    assert(o2[t] == o[t]);
                }
            }
        } else if ord == PathOrder::Greater {
            // the current entry has no counterpart: created
            let ghost c = cs[j as int].0;
            proof {
                lemma_lookup_absent(ps, i as int, c);
                assert(cs[j as int].1.size <= i64::MAX);
            }
            let ch = created(&ce[j]);
            out.push(ch);
            j = j + 1;
            proof {
                let o2 = changes_view(out@);
                assert(o2 =~= o.push(ch@));
                assert forall|t: int| 0 <= t < o.len() implies path_lt(o[t].0, c) by {}
                assert forall|t: int| 0 <= t < o2.len() implies (i < ps.len() ==> path_lt(
                    #[trigger] o2[t].0,
                    ps[i as int].0,
                )) && (j < cs.len() ==> path_lt(o2[t].0, cs[j as int].0)) by {
                    if j < cs.len() {
                        assert(path_lt(c, cs[j as int].0));
                        if t < o.len() {
                            lemma_path_order(o[t].0, c, cs[j as int].0);
                        }
                    }
                }
                assert forall|a: int| 0 <= a < i implies (j < cs.len() ==> path_lt(#[trigger] ps[a].0, cs[j as int].0)) by {
                    if j < cs.len() {
                        assert(path_lt(c, cs[j as int].0));
                        lemma_path_order(ps[a].0, c, cs[j as int].0);
                    }
                }
                assert forall|t: int| 0 <= t < o2.len() implies has_source(ps, cs, #[trigger] o2[t]) by {
                    if t < o.len() {
                        assert(o2[t] == o[t]);
                    } else {
                        assert(o2[t] == created_change(cs[j - 1].0, cs[j - 1].1));
                    }
                }
                assert forall|a: int|
                    0 <= a < i && (#[trigger] prev_entry_change(ps, cs, a)) is Some implies exists|t: int|
                        0 <= t < o2.len() && o2[t] == prev_entry_change(ps, cs, a)->0 by {
                    let t = choose|t: int| 0 <= t < o.len() && o[t] == prev_entry_change(ps, cs, a)->0;
                    assert(o2[t] == o[t]);
                }
                assert forall|b: int|
                    0 <= b < j && !has_key(ps, #[trigger] cs[b].0) implies exists|t: int|
                        0 <= t < o2.len() && o2[t] == created_change(cs[b].0, cs[b].1) by {
                    if b < j - 1 {
                        let t = choose|t: int| 0 <= t < o.len() && o[t] == created_change(cs[b].0, cs[b].1);
                        assert(o2[t] == o[t]);
                    } else {
                        assert(o2[o.len() as int] == ch@);
                    }
                }
            }
        } else {
            // the same path on both sides
            let ghost p = ps[i as int].0;
            let ghost c = cs[j as int].0;
            proof {
                lemma_lookup_found(cs, j as int, p);
                assert(has_key(ps, c)) by {
                    assert(path_eq(ps[i as int].0, c));
                }
                assert(ps[i as int].1.size <= i64::MAX);
                assert(cs[j as int].1.size <= i64::MAX);
            }
            let och = compared(&pe[i], &ce[j]);
            let ghost pushed = och is Some;
            match och {
                Some(ch) => {
                    out.push(ch);
                },
                None => {},
            }
            i = i + 1;
            j = j + 1;
            proof {
                let o2 = changes_view(out@);
                if pushed {
                    assert(o2 =~= o.push(o2.last()));
                    assert(prev_entry_change(ps, cs, i - 1) == Some(o2.last()));
                    assert(o2.last().0 == p);
                } else {
                    assert(o2 =~= o);
                }
                assert forall|t: int| 0 <= t < o2.len() implies (i < ps.len() ==> path_lt(
                    #[trigger] o2[t].0,
                    ps[i as int].0,
                )) && (j < cs.len() ==> path_lt(o2[t].0, cs[j as int].0)) by {
                    if i < ps.len() {
                        assert(path_lt(p, ps[i as int].0));
                        if t < o.len() {
                            assert(o2[t] == o[t]);
                            lemma_path_order(o[t].0, p, ps[i as int].0);
                        }
                    }
                    if j < cs.len() {
                        assert(path_lt(c, cs[j as int].0));
                        lemma_path_order(p, c, cs[j as int].0);
                        if t < o.len() {
                            assert(o2[t] == o[t]);
                            lemma_path_order(o[t].0, c, cs[j as int].0);
                        }
                    }
                }
                assert forall|a: int, b: int| 0 <= a < b < o2.len() implies path_lt(#[trigger] o2[a].0, #[trigger] o2[b].0) by {
                    if b < o.len() {
                        assert(o2[a] == o[a] && o2[b] == o[b]);
                    } else {
                        assert(o2[a] == o[a]);
                        assert(path_lt(o[a].0, p));
                    }
                }
                assert forall|b: int| 0 <= b < j implies (i < ps.len() ==> path_lt(#[trigger] cs[b].0, ps[i as int].0)) by {
                    if i < ps.len() {
                        assert(path_lt(p, ps[i as int].0));
                        lemma_path_order(c, p, ps[i as int].0);
                        if b < j - 1 {
                            lemma_path_order(cs[b].0, p, ps[i as int].0);
                        }
                    }
                }
                assert forall|a: int| 0 <= a < i implies (j < cs.len() ==> path_lt(#[trigger] ps[a].0, cs[j as int].0)) by {
                    if j < cs.len() {
                        assert(path_lt(c, cs[j as int].0));
                        lemma_path_order(p, c, cs[j as int].0);
                        if a < i - 1 {
                            lemma_path_order(ps[a].0, c, cs[j as int].0);
                        }
                    }
                }
                assert forall|t: int| 0 <= t < o2.len() implies has_source(ps, cs, #[trigger] o2[t]) by {
                    if t < o.len() {
                        assert(o2[t] == o[t]);
                    }
                }
                assert forall|a: int|
                    0 <= a < i && (#[trigger] prev_entry_change(ps, cs, a)) is Some implies exists|t: int|
                        0 <= t < o2.len() && o2[t] == prev_entry_change(ps, cs, a)->0 by {
                    if a < i - 1 {
                        let t = choose|t: int| 0 <= t < o.len() && o[t] == prev_entry_change(ps, cs, a)->0;
                        assert(o2[t] == o[t]);
                    } else {
                        assert(o2[o.len() as int] == o2.last());
                    }
                }
                assert forall|b: int|
                    0 <= b < j && !has_key(ps, #[trigger] cs[b].0) implies exists|t: int|
                        0 <= t < o2.len() && o2[t] == created_change(cs[b].0, cs[b].1) by {
                    if b < j - 1 {
                        let t = choose|t: int| 0 <= t < o.len() && o[t] == created_change(cs[b].0, cs[b].1);
                        assert(o2[t] == o[t]);
                    }
                }
            }
        }
    }
    out
}

/// A snapshot diffed against itself has no changes: every path keeps its
/// hash and permissions, so nothing is created, modified or deleted.
pub proof fn lemma_diff_of_identical_is_empty(s: Seq<(Seq<char>, FileState)>, r: Seq<ChangeView>)
    requires
        sorted_keys(s),
        is_diff(s, s, r),
    ensures
        r.len() == 0,
{
    assert forall|k: int| 0 <= k < s.len() implies prev_entry_change(s, s, k) is None by {
        crate::paths::lemma_path_order(s[k].0, s[k].0, s[k].0);
        lemma_lookup_found(s, k, s[k].0);
    }
    if r.len() > 0 {
        assert(has_source(s, s, r[0]));
        if exists|k: int| 0 <= k < s.len() && #[trigger] prev_entry_change(s, s, k) == Some(r[0]) {
            let k = choose|k: int| 0 <= k < s.len() && #[trigger] prev_entry_change(s, s, k) == Some(r[0]);
            assert(prev_entry_change(s, s, k) is None);
        } else {
            let k = choose|k: int|
                0 <= k < s.len() && !has_key(s, s[k].0) && r[0] == created_change(#[trigger] s[k].0, s[k].1);
            crate::paths::lemma_path_order(s[k].0, s[k].0, s[k].0);
            assert(path_eq(s[k].0, s[k].0));
        }
    }
}


/// A change seen from the other side: created and deleted trade places, the
/// two hashes swap and the size delta changes sign; the path is kept.
pub open spec fn reversed_change(c: ChangeView) -> ChangeView {
    (
        c.0,
        match c.1 {
            ChangeType::Created => ChangeType::Deleted,
            ChangeType::Deleted => ChangeType::Created,
            t => t,
        },
        match c.2 {
            Some(d) => Some((-d) as i64),
            None => None,
        },
        c.4,
        c.3,
    )
}

/// The changes in strict path order.
pub open spec fn strictly_sorted(r: Seq<ChangeView>) -> bool {
    forall|i: int, j: int| 0 <= i < j < r.len() ==> path_lt(#[trigger] r[i].0, #[trigger] r[j].0)
}

/// `e` is an element of `y`.
pub open spec fn occurs(y: Seq<ChangeView>, e: ChangeView) -> bool {
    exists|j: int| 0 <= j < y.len() && y[j] == e
}

/// Every element of `x` occurs in `y`.
pub open spec fn contained_in(x: Seq<ChangeView>, y: Seq<ChangeView>) -> bool {
    forall|i: int| 0 <= i < x.len() ==> occurs(y, #[trigger] x[i])
}

/// In a list in strict path order, an element other than the first sorts
/// after the first, so is not the first.
proof fn lemma_not_first(x: Seq<ChangeView>, a: int)
    requires
        strictly_sorted(x),
        0 < a < x.len(),
    ensures
        x[a] != x[0],
{
    assert(path_lt(x[0].0, x[a].0));
    lemma_path_order(x[0].0, x[a].0, x[0].0);
}

/// The tails of two lists with a common head share their elements too.
proof fn lemma_tail_contained(x: Seq<ChangeView>, y: Seq<ChangeView>)
    requires
        strictly_sorted(x),
        x.len() > 0,
        y.len() > 0,
        x[0] == y[0],
        contained_in(x, y),
    ensures
        contained_in(x.drop_first(), y.drop_first()),
{
    let xs = x.drop_first();
    let ys = y.drop_first();
    assert forall|a: int| 0 <= a < xs.len() implies occurs(ys, #[trigger] xs[a]) by {
        assert(xs[a] == x[a + 1]);
        assert(occurs(y, x[a + 1]));
        let b = choose|b: int| 0 <= b < y.len() && y[b] == x[a + 1];
        lemma_not_first(x, a + 1);
        assert(ys[b - 1] == y[b]);
    }
}

/// Two lists in strict path order with the same elements are one list.
proof fn lemma_sorted_same_elements(x: Seq<ChangeView>, y: Seq<ChangeView>)
    requires
        strictly_sorted(x),
        strictly_sorted(y),
        contained_in(x, y),
        contained_in(y, x),
    ensures
        x == y,
    decreases x.len(),
{
    if x.len() == 0 {
        if y.len() > 0 {
            assert(occurs(x, y[0]));
        }
        assert(x =~= y);
    } else {
        assert(occurs(y, x[0]));
        let j = choose|j: int| 0 <= j < y.len() && y[j] == x[0];
        assert(occurs(x, y[0]));
        let i = choose|i: int| 0 <= i < x.len() && x[i] == y[0];
        if j > 0 {
            assert(path_lt(y[0].0, y[j].0));
            if i > 0 {
                assert(path_lt(x[0].0, x[i].0));
                lemma_path_order(x[0].0, x[i].0, x[0].0);
            } else {
                lemma_path_order(x[0].0, x[0].0, x[0].0);
            }
        }
        assert(x[0] == y[0]);
        lemma_tail_contained(x, y);
        lemma_tail_contained(y, x);
        let xs = x.drop_first();
        let ys = y.drop_first();
        assert(strictly_sorted(xs)) by {
            assert forall|a: int, b: int| 0 <= a < b < xs.len() implies path_lt(
                #[trigger] xs[a].0,
                #[trigger] xs[b].0,
            ) by {
                assert(xs[a] == x[a + 1] && xs[b] == x[b + 1]);
            }
        }
        assert(strictly_sorted(ys)) by {
            assert forall|a: int, b: int| 0 <= a < b < ys.len() implies path_lt(
                #[trigger] ys[a].0,
                #[trigger] ys[b].0,
            ) by {
                assert(ys[a] == y[a + 1] && ys[b] == y[b + 1]);
            }
        }
        lemma_sorted_same_elements(xs, ys);
        assert(x =~= y) by {
            assert forall|a: int| 0 <= a < x.len() implies x[a] == y[a] by {
                if a > 0 {
                    assert(x[a] == xs[a - 1] && y[a] == ys[a - 1]);
                }
            }
        }
    }
}

/// Every change of one diff of two snapshots is a change of any other.
proof fn lemma_diff_contained(
    p: Seq<(Seq<char>, FileState)>,
    c: Seq<(Seq<char>, FileState)>,
    x: Seq<ChangeView>,
    y: Seq<ChangeView>,
)
    requires
        is_diff(p, c, x),
        is_diff(p, c, y),
    ensures
        contained_in(x, y),
{
    assert forall|i: int| 0 <= i < x.len() implies occurs(y, #[trigger] x[i]) by {
        assert(has_source(p, c, x[i]));
        if exists|k: int| 0 <= k < p.len() && #[trigger] prev_entry_change(p, c, k) == Some(x[i]) {
            let k = choose|k: int| 0 <= k < p.len() && #[trigger] prev_entry_change(p, c, k) == Some(x[i]);
            assert(prev_entry_change(p, c, k) is Some);
        } else {
            let k = choose|k: int|
                0 <= k < c.len() && !has_key(p, c[k].0) && x[i] == created_change(#[trigger] c[k].0, c[k].1);
            assert(!has_key(p, c[k].0));
        }
    }
}

/// The diff of two snapshots is unique: it is fixed by the two snapshots.
pub proof fn lemma_diff_unique(
    p: Seq<(Seq<char>, FileState)>,
    c: Seq<(Seq<char>, FileState)>,
    x: Seq<ChangeView>,
    y: Seq<ChangeView>,
)
    requires
        is_diff(p, c, x),
        is_diff(p, c, y),
    ensures
        x == y,
{
    lemma_diff_contained(p, c, x, y);
    lemma_diff_contained(p, c, y, x);
    lemma_sorted_same_elements(x, y);
}

/// A change seen from the other side: `d` names the same path as `c` (same
/// components), created and deleted trade places, the two hashes swap and
/// the size delta changes sign.
pub open spec fn reverses(c: ChangeView, d: ChangeView) -> bool {
    &&& path_eq(c.0, d.0)
    &&& d.1 == reversed_change(c).1
    &&& d.2 == reversed_change(c).2
    &&& d.3 == c.4
    &&& d.4 == c.3
}

/// A path held by both snapshots: the change it gives one way round is the
/// reverse of the change it gives the other way round.
proof fn lemma_reverse_shared(
    a: Seq<(Seq<char>, FileState)>,
    b: Seq<(Seq<char>, FileState)>,
    k: int,
    m: int,
)
    requires
        sorted_keys(a),
        sorted_keys(b),
        sizes_fit(a),
        sizes_fit(b),
        0 <= k < a.len(),
        0 <= m < b.len(),
        path_eq(a[k].0, b[m].0),
    ensures
        prev_entry_change(a, b, k) is Some == prev_entry_change(b, a, m) is Some,
        prev_entry_change(a, b, k) is Some ==> reverses(
            prev_entry_change(a, b, k)->0,
            prev_entry_change(b, a, m)->0,
        ),
{
    lemma_lookup_found(b, m, a[k].0);
    lemma_lookup_found(a, k, b[m].0);
    assert(a[k].1.size <= i64::MAX);
    assert(b[m].1.size <= i64::MAX);
}

/// A path only the first snapshot holds is deleted one way round and
/// created the other.
proof fn lemma_reverse_deleted(a: Seq<(Seq<char>, FileState)>, b: Seq<(Seq<char>, FileState)>, k: int)
    requires
        sizes_fit(a),
        0 <= k < a.len(),
        !has_key(b, a[k].0),
    ensures
        prev_entry_change(a, b, k) is Some,
        reversed_change(prev_entry_change(a, b, k)->0) == created_change(a[k].0, a[k].1),
{
    assert(a[k].1.size <= i64::MAX);
}

/// A path only the second snapshot holds is created one way round and
/// deleted the other.
proof fn lemma_reverse_created(a: Seq<(Seq<char>, FileState)>, b: Seq<(Seq<char>, FileState)>, m: int)
    requires
        sizes_fit(b),
        0 <= m < b.len(),
        !has_key(a, b[m].0),
    ensures
        prev_entry_change(b, a, m) is Some,
        reversed_change(created_change(b[m].0, b[m].1)) == prev_entry_change(b, a, m)->0,
{
    assert(b[m].1.size <= i64::MAX);
}

/// The same change, its path perhaps written otherwise (same components).
pub open spec fn alike(c: ChangeView, d: ChangeView) -> bool {
    path_eq(c.0, d.0) && c.1 == d.1 && c.2 == d.2 && c.3 == d.3 && c.4 == d.4
}

/// `e` is, up to how its path is written, an element of `y`.
pub open spec fn occurs_alike(y: Seq<ChangeView>, e: ChangeView) -> bool {
    exists|j: int| 0 <= j < y.len() && alike(#[trigger] y[j], e)
}

/// Every element of `x` is alike some element of `y`.
pub open spec fn contained_alike(x: Seq<ChangeView>, y: Seq<ChangeView>) -> bool {
    forall|i: int| 0 <= i < x.len() ==> occurs_alike(y, #[trigger] x[i])
}

/// The tails of two lists whose heads are alike are contained alike too.
proof fn lemma_tail_contained_alike(x: Seq<ChangeView>, y: Seq<ChangeView>)
    requires
        strictly_sorted(x),
        x.len() > 0,
        y.len() > 0,
        alike(y[0], x[0]),
        contained_alike(x, y),
    ensures
        contained_alike(x.drop_first(), y.drop_first()),
{
    let xs = x.drop_first();
    let ys = y.drop_first();
    assert forall|a: int| 0 <= a < xs.len() implies occurs_alike(ys, #[trigger] xs[a]) by {
        assert(xs[a] == x[a + 1]);
        assert(occurs_alike(y, x[a + 1]));
        let b = choose|b: int| 0 <= b < y.len() && alike(#[trigger] y[b], x[a + 1]);
        assert(path_lt(x[0].0, x[a + 1].0));
        lemma_path_order(x[0].0, x[0].0, x[0].0);
        if b == 0 {
            assert(path_lt(x[0].0, x[0].0));
        }
        assert(ys[b - 1] == y[b]);
    }
}

/// Two lists in strict path order whose elements are alike one another's
/// are alike place by place.
proof fn lemma_sorted_alike(x: Seq<ChangeView>, y: Seq<ChangeView>)
    requires
        strictly_sorted(x),
        strictly_sorted(y),
        contained_alike(x, y),
        contained_alike(y, x),
    ensures
        x.len() == y.len(),
        forall|i: int| 0 <= i < x.len() ==> alike(#[trigger] x[i], y[i]),
    decreases x.len(),
{
    if x.len() == 0 {
        if y.len() > 0 {
            assert(occurs_alike(x, y[0]));
        }
    } else {
        assert(occurs_alike(y, x[0]));
        let j = choose|j: int| 0 <= j < y.len() && alike(#[trigger] y[j], x[0]);
        assert(occurs_alike(x, y[0]));
        let i = choose|i: int| 0 <= i < x.len() && alike(#[trigger] x[i], y[0]);
        if j > 0 {
            assert(path_lt(y[0].0, y[j].0));
            if i > 0 {
                assert(path_lt(x[0].0, x[i].0));
                lemma_path_order(x[0].0, x[i].0, x[0].0);
            } else {
                lemma_path_order(x[0].0, x[0].0, x[0].0);
            }
        }
        assert(alike(y[0], x[0]));
        lemma_tail_contained_alike(x, y);
        lemma_tail_contained_alike(y, x);
        let xs = x.drop_first();
        let ys = y.drop_first();
        assert(strictly_sorted(xs)) by {
            assert forall|a: int, b: int| 0 <= a < b < xs.len() implies path_lt(
                #[trigger] xs[a].0,
                #[trigger] xs[b].0,
            ) by {
                assert(xs[a] == x[a + 1] && xs[b] == x[b + 1]);
            }
        }
        assert(strictly_sorted(ys)) by {
            assert forall|a: int, b: int| 0 <= a < b < ys.len() implies path_lt(
                #[trigger] ys[a].0,
                #[trigger] ys[b].0,
            ) by {
                assert(ys[a] == y[a + 1] && ys[b] == y[b + 1]);
            }
        }
        lemma_sorted_alike(xs, ys);
        assert forall|a: int| 0 <= a < x.len() implies alike(#[trigger] x[a], y[a]) by {
            if a > 0 {
                assert(x[a] == xs[a - 1] && y[a] == ys[a - 1]);
            }
        }
    }
}

/// Each change of a diff, reversed, is alike a change of the diff taken
/// the other way round.
proof fn lemma_reversed_contained(
    a: Seq<(Seq<char>, FileState)>,
    b: Seq<(Seq<char>, FileState)>,
    forward: Seq<ChangeView>,
    backward: Seq<ChangeView>,
)
    requires
        sorted_keys(a),
        sorted_keys(b),
        sizes_fit(a),
        sizes_fit(b),
        is_diff(a, b, forward),
        is_diff(b, a, backward),
    ensures
        contained_alike(forward.map_values(|c: ChangeView| reversed_change(c)), backward),
{
    let rr = forward.map_values(|c: ChangeView| reversed_change(c));
    assert forall|i: int| 0 <= i < rr.len() implies occurs_alike(backward, #[trigger] rr[i]) by {
        assert(rr[i] == reversed_change(forward[i]));
        assert(has_source(a, b, forward[i]));
        if exists|k: int| 0 <= k < a.len() && #[trigger] prev_entry_change(a, b, k) == Some(forward[i]) {
            let k = choose|k: int| 0 <= k < a.len() && #[trigger] prev_entry_change(a, b, k) == Some(forward[i]);
            if has_key(b, a[k].0) {
                let m = choose|m: int| 0 <= m < b.len() && path_eq(#[trigger] b[m].0, a[k].0);
                lemma_reverse_shared(a, b, k, m);
                let j = choose|j: int| 0 <= j < backward.len() && backward[j] == prev_entry_change(b, a, m)->0;
                assert(alike(backward[j], rr[i]));
            } else {
                lemma_reverse_deleted(a, b, k);
                let j = choose|j: int| 0 <= j < backward.len() && backward[j] == created_change(a[k].0, a[k].1);
                assert(alike(backward[j], rr[i]));
            }
        } else {
            let m = choose|m: int|
                0 <= m < b.len() && !has_key(a, b[m].0) && forward[i] == created_change(#[trigger] b[m].0, b[m].1);
            lemma_reverse_created(a, b, m);
            let j = choose|j: int| 0 <= j < backward.len() && backward[j] == prev_entry_change(b, a, m)->0;
            lemma_path_order(b[m].0, b[m].0, b[m].0);
            assert(alike(backward[j], rr[i]));
        }
    }
}

/// Each change of the diff taken the other way round is alike some change
/// of a diff, reversed.
proof fn lemma_backward_contained(
    a: Seq<(Seq<char>, FileState)>,
    b: Seq<(Seq<char>, FileState)>,
    forward: Seq<ChangeView>,
    backward: Seq<ChangeView>,
)
    requires
        sorted_keys(a),
        sorted_keys(b),
        sizes_fit(a),
        sizes_fit(b),
        is_diff(a, b, forward),
        is_diff(b, a, backward),
    ensures
        contained_alike(backward, forward.map_values(|c: ChangeView| reversed_change(c))),
{
    let rr = forward.map_values(|c: ChangeView| reversed_change(c));
    assert forall|j: int| 0 <= j < backward.len() implies occurs_alike(rr, #[trigger] backward[j]) by {
        assert(has_source(b, a, backward[j]));
        if exists|m: int| 0 <= m < b.len() && #[trigger] prev_entry_change(b, a, m) == Some(backward[j]) {
            let m = choose|m: int| 0 <= m < b.len() && #[trigger] prev_entry_change(b, a, m) == Some(backward[j]);
            if has_key(a, b[m].0) {
                let k = choose|k: int| 0 <= k < a.len() && path_eq(#[trigger] a[k].0, b[m].0);
                lemma_reverse_shared(a, b, k, m);
                assert(prev_entry_change(a, b, k) is Some);
                let i = choose|i: int| 0 <= i < forward.len() && forward[i] == prev_entry_change(a, b, k)->0;
                assert(rr[i] == reversed_change(forward[i]));
                assert(alike(rr[i], backward[j]));
            } else {
                lemma_reverse_created(a, b, m);
                let i = choose|i: int| 0 <= i < forward.len() && forward[i] == created_change(b[m].0, b[m].1);
                assert(rr[i] == reversed_change(forward[i]));
                lemma_path_order(b[m].0, b[m].0, b[m].0);
                assert(alike(rr[i], backward[j]));
            }
        } else {
            let k = choose|k: int|
                0 <= k < a.len() && !has_key(b, a[k].0) && backward[j] == created_change(#[trigger] a[k].0, a[k].1);
            lemma_reverse_deleted(a, b, k);
            assert(prev_entry_change(a, b, k) is Some);
            let i = choose|i: int| 0 <= i < forward.len() && forward[i] == prev_entry_change(a, b, k)->0;
            assert(rr[i] == reversed_change(forward[i]));
            lemma_path_order(a[k].0, a[k].0, a[k].0);
            assert(alike(rr[i], backward[j]));
        }
    }
}

/// Diffing the other way round reverses every change: the two diffs list
/// the same paths (same components) in the same order, what was created one
/// way is deleted the other (and the reverse), the old and new hashes swap
/// and each size delta changes sign.
pub proof fn lemma_diff_reversed(
    a: Seq<(Seq<char>, FileState)>,
    b: Seq<(Seq<char>, FileState)>,
    forward: Seq<ChangeView>,
    backward: Seq<ChangeView>,
)
    requires
        sorted_keys(a),
        sorted_keys(b),
        sizes_fit(a),
        sizes_fit(b),
        is_diff(a, b, forward),
        is_diff(b, a, backward),
    ensures
        backward.len() == forward.len(),
        forall|i: int| 0 <= i < forward.len() ==> reverses(#[trigger] forward[i], backward[i]),
{
    let rr = forward.map_values(|c: ChangeView| reversed_change(c));
    lemma_reversed_contained(a, b, forward, backward);
    lemma_backward_contained(a, b, forward, backward);
    assert(strictly_sorted(rr)) by {
        assert forall|i: int, j: int| 0 <= i < j < rr.len() implies path_lt(
            #[trigger] rr[i].0,
            #[trigger] rr[j].0,
        ) by {
            assert(path_lt(forward[i].0, forward[j].0));
        }
    }
    lemma_sorted_alike(rr, backward);
    assert forall|i: int| 0 <= i < forward.len() implies reverses(#[trigger] forward[i], backward[i]) by {
        assert(rr[i] == reversed_change(forward[i]));
        assert(alike(rr[i], backward[i]));
    }
}

/// A snapshot in which exactly one file was rewritten with new content
/// differs from the one before by exactly that file, modified: its delta is
/// the change of size and its hashes the old and the new content.
pub proof fn lemma_one_rewrite_is_one_change(
    prev: Seq<(Seq<char>, FileState)>,
    k: int,
    rewritten: FileState,
    r: Seq<ChangeView>,
)
    requires
        sorted_keys(prev),
        sizes_fit(prev),
        rewritten.size <= i64::MAX,
        0 <= k < prev.len(),
        rewritten.hash != prev[k].1.hash,
        is_diff(prev, prev.update(k, (prev[k].0, rewritten)), r),
    ensures
        r == seq![
            (
                prev[k].0,
                ChangeType::Modified,
                Some((rewritten.size - prev[k].1.size) as i64),
                Some(prev[k].1.hash),
                Some(rewritten.hash),
            ),
        ],
{
    let cur = prev.update(k, (prev[k].0, rewritten));
    let c: ChangeView = (
        prev[k].0,
        ChangeType::Modified,
        Some((rewritten.size - prev[k].1.size) as i64),
        Some(prev[k].1.hash),
        Some(rewritten.hash),
    );
    let one = seq![c];
    assert(sorted_keys(cur)) by {
        assert forall|i: int, j: int| 0 <= i < j < cur.len() implies path_lt(
            #[trigger] cur[i].0,
            #[trigger] cur[j].0,
        ) by {
            assert(cur[i].0 == prev[i].0 && cur[j].0 == prev[j].0);
        }
    }
    assert forall|j: int| 0 <= j < prev.len() implies #[trigger] prev_entry_change(prev, cur, j) == (
        if j == k { Some(c) } else { None }) by {
        lemma_path_order(prev[j].0, prev[j].0, prev[j].0);
        lemma_lookup_found(cur, j, prev[j].0);
    }
    assert forall|j: int| 0 <= j < cur.len() implies has_key(prev, #[trigger] cur[j].0) by {
        lemma_path_order(prev[j].0, prev[j].0, prev[j].0);
        assert(path_eq(prev[j].0, cur[j].0));
    }
    assert(has_source(prev, cur, c)) by {
        assert(prev_entry_change(prev, cur, k) == Some(c));
    }
    assert(is_diff(prev, cur, one)) by {
        assert forall|j: int|
            0 <= j < prev.len() && (#[trigger] prev_entry_change(prev, cur, j)) is Some implies exists|i: int|
                0 <= i < one.len() && one[i] == prev_entry_change(prev, cur, j)->0 by {
            assert(j == k);
            assert(one[0] == c);
        }
    }
    lemma_diff_unique(prev, cur, r, one);
}

} // verus!
