//! Replaying changes onto a file tree: the content each path holds once a
//! list of changes is applied, and the proof that a diff replays onto the
//! tree it was taken from.
use vstd::prelude::*;
use crate::diff::{created_change, has_source, is_diff, prev_entry_change};
use crate::file_map::{has_key, lemma_lookup_found, lookup, sorted_keys};
use crate::paths::{lemma_path_order, path_eq, path_lt};
use crate::snapshot_types::{ChangeView, ContentHash, FileState};

verus! {

/// Is some change of `cs` about the path `p`?
pub open spec fn touches(cs: Seq<ChangeView>, p: Seq<char>) -> bool {
    exists|i: int| 0 <= i < cs.len() && path_eq(#[trigger] cs[i].0, p)
}

/// The content stored for `p` in a tree, if it has the file.
pub open spec fn content_of(s: Seq<(Seq<char>, FileState)>, p: Seq<char>) -> Option<ContentHash> {
    match lookup(s, p) {
        Some(st) => Some(st.hash),
        None => None,
    }
}

/// The content `p` holds once `writes` are written and `deletions` deleted
/// in the `current` tree: a written file holds what was written, a deleted
/// one is gone, any other file keeps its content.
pub open spec fn content_after(current: Seq<(Seq<char>, FileState)>, writes: Seq<ChangeView>, deletions: Seq<ChangeView>, p: Seq<char>) -> Option<ContentHash> {
    if touches(writes, p) {
        writes[choose|i: int| 0 <= i < writes.len() && path_eq(#[trigger] writes[i].0, p)].4
    } else if touches(deletions, p) {
        None
    } else {
        content_of(current, p)
    }
}

/// In a sorted tree, at most one entry is the path `p`.
pub proof fn lemma_sorted_unique(s: Seq<(Seq<char>, FileState)>, a: int, b: int, p: Seq<char>)
    requires
        sorted_keys(s),
        0 <= a < s.len(),
        0 <= b < s.len(),
        path_eq(s[a].0, p),
        path_eq(s[b].0, p),
    ensures
        a == b,
{
    if a < b {
        assert(path_lt(s[a].0, s[b].0));
        lemma_path_order(s[a].0, s[b].0, p);
    } else if b < a {
        assert(path_lt(s[b].0, s[a].0));
        lemma_path_order(s[b].0, s[a].0, p);
    }
}

/// The content of a path in a sorted tree is that of the entry that is the
/// path.
pub proof fn lemma_content_at(s: Seq<(Seq<char>, FileState)>, p: Seq<char>)
    requires
        sorted_keys(s),
    ensures
        has_key(s, p) ==> exists|k: int| 0 <= k < s.len() && path_eq(#[trigger] s[k].0, p) && content_of(s, p) == Some(s[k].1.hash),
        !has_key(s, p) ==> content_of(s, p) is None,
{
    if has_key(s, p) {
        let k = choose|k: int| 0 <= k < s.len() && path_eq(#[trigger] s[k].0, p);
        lemma_lookup_found(s, k, p);
    }
}

/// A diff replays: applying its changes to the previous tree (a deletion
/// removes the file, any other change leaves the file with its new
/// content) gives every path exactly the content it has in the current
/// tree.
pub proof fn lemma_diff_replays(prev: Seq<(Seq<char>, FileState)>, cur: Seq<(Seq<char>, FileState)>, r: Seq<ChangeView>, p: Seq<char>)
    requires
        sorted_keys(prev),
        sorted_keys(cur),
        is_diff(prev, cur, r),
    ensures
        content_after(prev, r, Seq::empty(), p) == content_of(cur, p),
{
    lemma_content_at(prev, p);
    lemma_content_at(cur, p);
    assert(!touches(Seq::<ChangeView>::empty(), p));
    if touches(r, p) {
        let i = choose|i: int| 0 <= i < r.len() && path_eq(#[trigger] r[i].0, p);
        assert(has_source(prev, cur, r[i]));
        if exists|k: int| 0 <= k < prev.len() && #[trigger] prev_entry_change(prev, cur, k) == Some(r[i]) {
            let k = choose|k: int| 0 <= k < prev.len() && #[trigger] prev_entry_change(prev, cur, k) == Some(r[i]);
            assert(r[i].0 == prev[k].0);
            if has_key(cur, p) {
                let j = choose|j: int| 0 <= j < cur.len() && path_eq(#[trigger] cur[j].0, p) && content_of(cur, p) == Some(cur[j].1.hash);
                lemma_lookup_found(cur, j, prev[k].0);
            } else {
                assert(!has_key(cur, prev[k].0));
            }
        } else {
            let k = choose|k: int|
                0 <= k < cur.len() && !has_key(prev, cur[k].0) && r[i] == created_change(#[trigger] cur[k].0, cur[k].1);
            let j = choose|j: int| 0 <= j < cur.len() && path_eq(#[trigger] cur[j].0, p) && content_of(cur, p) == Some(cur[j].1.hash);
            lemma_sorted_unique(cur, j, k, p);
        }
    } else {
        if has_key(prev, p) {
            let k = choose|k: int| 0 <= k < prev.len() && path_eq(#[trigger] prev[k].0, p) && content_of(prev, p) == Some(prev[k].1.hash);
            if has_key(cur, p) {
                let j = choose|j: int| 0 <= j < cur.len() && path_eq(#[trigger] cur[j].0, p) && content_of(cur, p) == Some(cur[j].1.hash);
                lemma_lookup_found(cur, j, prev[k].0);
            } else {
                assert(!has_key(cur, prev[k].0));
            }
            if prev_entry_change(prev, cur, k) is Some {
                let i = choose|i: int| 0 <= i < r.len() && r[i] == prev_entry_change(prev, cur, k)->0;
                assert(path_eq(r[i].0, p));
            }
        } else if has_key(cur, p) {
            let j = choose|j: int| 0 <= j < cur.len() && path_eq(#[trigger] cur[j].0, p) && content_of(cur, p) == Some(cur[j].1.hash);
            assert(!has_key(prev, cur[j].0)) by {
                if has_key(prev, cur[j].0) {
                    let k = choose|k: int| 0 <= k < prev.len() && path_eq(#[trigger] prev[k].0, cur[j].0);
                    assert(path_eq(prev[k].0, p));
                }
            }
            let i = choose|i: int| 0 <= i < r.len() && r[i] == created_change(cur[j].0, cur[j].1);
            assert(path_eq(r[i].0, p));
        }
    }
}

} // verus!
