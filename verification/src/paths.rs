//! Unix path arithmetic: the components a path is made of, the order in
//! which paths sort, prefix tests, file names and joining.
//!
//! A path is held as a string. Its components follow the Unix reading of
//! `/`-separated text: a leading `/` is the root, a leading `.` segment is
//! the current directory, empty and inner `.` segments vanish, `..` is the
//! parent directory and every other segment is a normal name. Paths compare
//! component by component (root < current dir < parent dir < names, names by
//! code point), which is how paths order as map keys.
use vstd::prelude::*;
use crate::text::{chars_of, char_vec_views, split_chars, split_on, string_of};

verus! {

/// Does the path start at the root?
pub open spec fn has_root(p: Seq<char>) -> bool {
    p.len() > 0 && p[0] == '/'
}

/// Does the path start with a current-directory component?
pub open spec fn has_cur_dir(p: Seq<char>) -> bool {
    !has_root(p) && p.len() >= 1 && p[0] == '.' && (p.len() == 1 || p[1] == '/')
}

/// The `..` segment.
pub open spec fn dot_dot() -> Seq<char> {
    seq!['.', '.']
}

/// The segments that stand as components after the root and current-directory
/// markers: every non-empty segment other than `.` (a `..` stays, as the
/// parent-directory component).
pub open spec fn body_comps(segs: Seq<Seq<char>>) -> Seq<Seq<char>>
    decreases segs.len(),
{
    if segs.len() == 0 {
        Seq::empty()
    } else {
        let rest = body_comps(segs.drop_last());
        let s = segs.last();
        if s.len() == 0 || s == seq!['.'] {
            rest
        } else {
            rest.push(s)
        }
    }
}

/// The body components of a path.
pub open spec fn path_body(p: Seq<char>) -> Seq<Seq<char>> {
    body_comps(split_on(p, '/'))
}

/// The sort key of one body component: `..` sorts as the parent directory,
/// any other segment as a name.
pub open spec fn comp_key(s: Seq<char>) -> Seq<u32> {
    if s == dot_dot() {
        seq![2u32]
    } else {
        seq![3u32] + s.map_values(|c: char| c as u32)
    }
}

/// The sort keys of the leading root / current-directory markers.
pub open spec fn prefix_keys(p: Seq<char>) -> Seq<Seq<u32>> {
    if has_root(p) {
        seq![seq![0u32]]
    } else if has_cur_dir(p) {
        seq![seq![1u32]]
    } else {
        Seq::empty()
    }
}

/// The component sequence of a path, one key per component. Two paths are
/// the same path exactly when their keys are equal.
pub open spec fn path_key(p: Seq<char>) -> Seq<Seq<u32>> {
    prefix_keys(p) + path_body(p).map_values(|s: Seq<char>| comp_key(s))
}

/// Strict lexicographic order on code sequences.
pub open spec fn codes_lt(a: Seq<u32>, b: Seq<u32>) -> bool
    decreases a.len(),
{
    if a.len() == 0 {
        b.len() > 0
    } else if b.len() == 0 {
        false
    } else if a[0] < b[0] {
        true
    } else if a[0] > b[0] {
        false
    } else {
        codes_lt(a.drop_first(), b.drop_first())
    }
}

/// Strict lexicographic order on component sequences.
pub open spec fn keys_lt(a: Seq<Seq<u32>>, b: Seq<Seq<u32>>) -> bool
    decreases a.len(),
{
    if a.len() == 0 {
        b.len() > 0
    } else if b.len() == 0 {
        false
    } else if codes_lt(a[0], b[0]) {
        true
    } else if codes_lt(b[0], a[0]) {
        false
    } else {
        keys_lt(a.drop_first(), b.drop_first())
    }
}

/// `p` sorts strictly before `q`.
pub open spec fn path_lt(p: Seq<char>, q: Seq<char>) -> bool {
    keys_lt(path_key(p), path_key(q))
}

/// `p` and `q` name the same path (same components).
pub open spec fn path_eq(p: Seq<char>, q: Seq<char>) -> bool {
    path_key(p) == path_key(q)
}

pub proof fn lemma_codes_lt_irrefl(a: Seq<u32>)
    ensures
        !codes_lt(a, a),
    decreases a.len(),
{
    if a.len() > 0 {
        lemma_codes_lt_irrefl(a.drop_first());
    }
}

pub proof fn lemma_codes_lt_trans(a: Seq<u32>, b: Seq<u32>, c: Seq<u32>)
    requires
        codes_lt(a, b),
        codes_lt(b, c),
    ensures
        codes_lt(a, c),
    decreases a.len(),
{
    if a.len() > 0 && b.len() > 0 && c.len() > 0 && a[0] == b[0] && b[0] == c[0] {
        lemma_codes_lt_trans(a.drop_first(), b.drop_first(), c.drop_first());
    }
}

pub proof fn lemma_codes_lt_total(a: Seq<u32>, b: Seq<u32>)
    ensures
        a == b || codes_lt(a, b) || codes_lt(b, a),
    decreases a.len(),
{
    if a.len() > 0 && b.len() > 0 && a[0] == b[0] {
        lemma_codes_lt_total(a.drop_first(), b.drop_first());
        if a.drop_first() == b.drop_first() {
            assert(a =~= seq![a[0]] + a.drop_first());
            assert(b =~= seq![b[0]] + b.drop_first());
        }
    } else if a.len() == 0 && b.len() == 0 {
        assert(a =~= b);
    }
}

pub proof fn lemma_codes_lt_asym(a: Seq<u32>, b: Seq<u32>)
    requires
        codes_lt(a, b),
    ensures
        !codes_lt(b, a),
{
    if codes_lt(b, a) {
        lemma_codes_lt_trans(a, b, a);
        lemma_codes_lt_irrefl(a);
    }
}

pub proof fn lemma_keys_lt_irrefl(a: Seq<Seq<u32>>)
    ensures
        !keys_lt(a, a),
    decreases a.len(),
{
    if a.len() > 0 {
        lemma_codes_lt_irrefl(a[0]);
        lemma_keys_lt_irrefl(a.drop_first());
    }
}

pub proof fn lemma_keys_lt_trans(a: Seq<Seq<u32>>, b: Seq<Seq<u32>>, c: Seq<Seq<u32>>)
    requires
        keys_lt(a, b),
        keys_lt(b, c),
    ensures
        keys_lt(a, c),
    decreases a.len(),
{
    if a.len() > 0 && b.len() > 0 && c.len() > 0 {
        lemma_codes_lt_total(a[0], b[0]);
        lemma_codes_lt_total(b[0], c[0]);
        lemma_codes_lt_total(a[0], c[0]);
        if codes_lt(a[0], b[0]) {
            lemma_codes_lt_asym(a[0], b[0]);
            if codes_lt(b[0], c[0]) {
                lemma_codes_lt_trans(a[0], b[0], c[0]);
                lemma_codes_lt_asym(a[0], c[0]);
            }
        } else if codes_lt(b[0], c[0]) {
            lemma_codes_lt_asym(b[0], c[0]);
        } else {
            lemma_keys_lt_trans(a.drop_first(), b.drop_first(), c.drop_first());
        }
    }
}

pub proof fn lemma_keys_lt_total(a: Seq<Seq<u32>>, b: Seq<Seq<u32>>)
    ensures
        a == b || keys_lt(a, b) || keys_lt(b, a),
    decreases a.len(),
{
    if a.len() > 0 && b.len() > 0 {
        lemma_codes_lt_total(a[0], b[0]);
        if a[0] == b[0] {
            lemma_codes_lt_irrefl(a[0]);
            lemma_keys_lt_total(a.drop_first(), b.drop_first());
            if a.drop_first() == b.drop_first() {
                assert(a =~= seq![a[0]] + a.drop_first());
                assert(b =~= seq![b[0]] + b.drop_first());
            }
        }
    } else if a.len() == 0 && b.len() == 0 {
        assert(a =~= b);
    }
}

pub proof fn lemma_keys_lt_asym(a: Seq<Seq<u32>>, b: Seq<Seq<u32>>)
    requires
        keys_lt(a, b),
    ensures
        !keys_lt(b, a),
{
    if keys_lt(b, a) {
        lemma_keys_lt_trans(a, b, a);
        lemma_keys_lt_irrefl(a);
    }
}

/// Path order is a strict total order on paths up to `path_eq`.
pub proof fn lemma_path_order(p: Seq<char>, q: Seq<char>, r: Seq<char>)
    ensures
        !path_lt(p, p),
        path_lt(p, q) ==> !path_lt(q, p),
        path_lt(p, q) && path_lt(q, r) ==> path_lt(p, r),
        path_eq(p, q) || path_lt(p, q) || path_lt(q, p),
        path_eq(p, q) ==> !path_lt(p, q),
        path_eq(p, q) && path_lt(q, r) ==> path_lt(p, r),
        path_lt(p, q) && path_eq(q, r) ==> path_lt(p, r),
{
    lemma_keys_lt_irrefl(path_key(p));
    lemma_keys_lt_total(path_key(p), path_key(q));
    if path_lt(p, q) {
        lemma_keys_lt_asym(path_key(p), path_key(q));
        if path_lt(q, r) {
            lemma_keys_lt_trans(path_key(p), path_key(q), path_key(r));
        }
    }
}

/// The result of comparing two paths.
#[derive(PartialEq, Eq, Structural, Clone, Copy, Debug)]
pub enum PathOrder {
    Less,
    Equal,
    Greater,
}

/// The key views of a vector of code vectors.
pub open spec fn code_vec_views(v: Seq<Vec<u32>>) -> Seq<Seq<u32>> {
    v.map_values(|x: Vec<u32>| x@)
}

/// The sort key of one body component.
fn comp_key_exec(s: &Vec<char>) -> (r: Vec<u32>)
    ensures
        r@ == comp_key(s@),
{
    if s.len() == 2 && s[0] == '.' && s[1] == '.' {
        proof {
            assert(s@ =~= dot_dot());
        }
        let mut r: Vec<u32> = Vec::new();
        r.push(2);
        proof {
            assert(r@ =~= seq![2u32]);
        }
        return r;
    }
    let mut r: Vec<u32> = Vec::new();
    r.push(3);
    let mut i: usize = 0;
    while i < s.len()
        invariant
            i <= s@.len(),
            r@ =~= seq![3u32] + s@.take(i as int).map_values(|c: char| c as u32),
        decreases s.len() - i,
    {
        r.push(s[i] as u32);
        i = i + 1;
        proof {
            assert(s@.take(i as int).map_values(|c: char| c as u32) =~= s@.take(i - 1).map_values(
                |c: char| c as u32,
            ).push(s@[i - 1] as u32));
        }
    }
    proof {
        assert(s@.take(s@.len() as int) =~= s@);
        assert(s@ != dot_dot());
    }
    r
}

/// The body components of a path held as characters.
fn body_comps_exec(segs: &Vec<Vec<char>>) -> (r: Vec<Vec<char>>)
    ensures
        char_vec_views(r@) == body_comps(char_vec_views(segs@)),
{
    let mut r: Vec<Vec<char>> = Vec::new();
    let mut i: usize = 0;
    while i < segs.len()
        invariant
            i <= segs@.len(),
            char_vec_views(r@) =~= body_comps(char_vec_views(segs@).take(i as int)),
        decreases segs.len() - i,
    {
        let ghost pre = char_vec_views(segs@).take(i as int);
        let ghost nxt = char_vec_views(segs@).take(i + 1);
        proof {
            assert(nxt.drop_last() =~= pre);
            assert(nxt.last() == segs@[i as int]@);
        }
        let s = &segs[i];
        let dot = s.len() == 1 && s[0] == '.';
        proof {
            if s@ == seq!['.'] {
                assert(dot);
            }
            if dot {
                assert(s@ =~= seq!['.']);
            }
        }
        if !(s.len() == 0 || dot) {
            let ghost old_r = r@;
            r.push(s.clone());
            proof {
                assert(char_vec_views(r@) =~= char_vec_views(old_r).push(s@));
            }
        }
        i = i + 1;
    }
    proof {
        assert(char_vec_views(segs@).take(segs@.len() as int) =~= char_vec_views(segs@));
    }
    r
}

/// The component sequence of a path, with its root / current-directory
/// markers and its body components.
pub struct PathParts {
    pub root: bool,
    pub cur_dir: bool,
    pub body: Vec<Vec<char>>,
}

/// Splits a path into its components.
pub fn path_parts(p: &str) -> (r: PathParts)
    ensures
        r.root == has_root(p@),
        r.cur_dir == has_cur_dir(p@),
        char_vec_views(r.body@) == path_body(p@),
{
    let cs = chars_of(p);
    let root = cs.len() > 0 && cs[0] == '/';
    let cur_dir = !root && cs.len() >= 1 && cs[0] == '.' && (cs.len() == 1 || cs[1] == '/');
    let segs = split_chars(&cs, '/');
    let body = body_comps_exec(&segs);
    PathParts { root, cur_dir, body }
}

/// The component key of a path.
pub fn path_key_exec(p: &str) -> (r: Vec<Vec<u32>>)
    ensures
        code_vec_views(r@) == path_key(p@),
{
    let parts = path_parts(p);
    let mut r: Vec<Vec<u32>> = Vec::new();
    if parts.root {
        let mut k: Vec<u32> = Vec::new();
        k.push(0);
        r.push(k);
    } else if parts.cur_dir {
        let mut k: Vec<u32> = Vec::new();
        k.push(1);
        r.push(k);
    }
    let ghost pre = code_vec_views(r@);
    proof {
        assert(pre =~= prefix_keys(p@));
    }
    let ghost body = path_body(p@);
    let mut i: usize = 0;
    while i < parts.body.len()
        invariant
            i <= parts.body@.len(),
            char_vec_views(parts.body@) == body,
            code_vec_views(r@) =~= pre + body.take(i as int).map_values(|s: Seq<char>| comp_key(s)),
        decreases parts.body.len() - i,
    {
        let k = comp_key_exec(&parts.body[i]);
        let ghost old_r = r@;
        r.push(k);
        i = i + 1;
        proof {
            assert(body[i - 1] == parts.body@[i - 1]@);
            assert(body.take(i as int).map_values(|s: Seq<char>| comp_key(s)) =~= body.take(
                i - 1,
            ).map_values(|s: Seq<char>| comp_key(s)).push(comp_key(body[i - 1])));
            assert(code_vec_views(r@) =~= code_vec_views(old_r).push(k@));
        }
    }
    proof {
        assert(body.take(body.len() as int) =~= body);
    }
    r
}

/// Lexicographic comparison of two code vectors.
fn order_codes(a: &Vec<u32>, b: &Vec<u32>) -> (r: PathOrder)
    ensures
        r == PathOrder::Less <==> codes_lt(a@, b@),
        r == PathOrder::Greater <==> codes_lt(b@, a@),
        r == PathOrder::Equal <==> a@ == b@,
{
    let mut i: usize = 0;
    proof {
        assert(a@.skip(0) =~= a@);
        assert(b@.skip(0) =~= b@);
    }
    while i < a.len() && i < b.len()
        invariant
            i <= a@.len(),
            i <= b@.len(),
            a@.take(i as int) == b@.take(i as int),
            codes_lt(a@, b@) == codes_lt(a@.skip(i as int), b@.skip(i as int)),
            codes_lt(b@, a@) == codes_lt(b@.skip(i as int), a@.skip(i as int)),
        decreases a.len() - i,
    {
        proof {
            assert(a@.skip(i as int).drop_first() =~= a@.skip(i + 1));
            assert(b@.skip(i as int).drop_first() =~= b@.skip(i + 1));
        }
        if a[i] < b[i] {
            proof {
                lemma_codes_lt_asym(a@, b@);
                lemma_codes_lt_irrefl(a@);
            }
            return PathOrder::Less;
        }
        if a[i] > b[i] {
            proof {
                lemma_codes_lt_asym(b@, a@);
                lemma_codes_lt_irrefl(a@);
            }
            return PathOrder::Greater;
        }
        proof {
            assert(a@.take(i + 1) =~= a@.take(i as int).push(a@[i as int]));
            assert(b@.take(i + 1) =~= b@.take(i as int).push(b@[i as int]));
        }
        i = i + 1;
    }
    proof {
        lemma_codes_lt_irrefl(a@);
        lemma_codes_lt_total(a@, b@);
        if a@.len() == b@.len() {
            assert(a@ =~= a@.take(i as int));
            assert(b@ =~= b@.take(i as int));
        }
        if a@ == b@ {
            assert(a@.len() == b@.len());
        }
    }
    if a.len() < b.len() {
        PathOrder::Less
    } else if a.len() > b.len() {
        PathOrder::Greater
    } else {
        PathOrder::Equal
    }
}

/// Lexicographic comparison of two component keys.
fn order_keys(a: &Vec<Vec<u32>>, b: &Vec<Vec<u32>>) -> (r: PathOrder)
    ensures
        r == PathOrder::Less <==> keys_lt(code_vec_views(a@), code_vec_views(b@)),
        r == PathOrder::Greater <==> keys_lt(code_vec_views(b@), code_vec_views(a@)),
        r == PathOrder::Equal <==> code_vec_views(a@) == code_vec_views(b@),
{
    let ghost av = code_vec_views(a@);
    let ghost bv = code_vec_views(b@);
    let mut i: usize = 0;
    proof {
        assert(av.skip(0) =~= av);
        assert(bv.skip(0) =~= bv);
    }
    while i < a.len() && i < b.len()
        invariant
            av == code_vec_views(a@),
            bv == code_vec_views(b@),
            i <= a@.len(),
            i <= b@.len(),
            av.take(i as int) == bv.take(i as int),
            keys_lt(av, bv) == keys_lt(av.skip(i as int), bv.skip(i as int)),
            keys_lt(bv, av) == keys_lt(bv.skip(i as int), av.skip(i as int)),
        decreases a.len() - i,
    {
        proof {
            assert(av.skip(i as int).drop_first() =~= av.skip(i + 1));
            assert(bv.skip(i as int).drop_first() =~= bv.skip(i + 1));
            assert(av.skip(i as int)[0] == a@[i as int]@);
            assert(bv.skip(i as int)[0] == b@[i as int]@);
        }
        let c = order_codes(&a[i], &b[i]);
        match c {
            PathOrder::Less => {
                proof {
                    lemma_codes_lt_asym(a@[i as int]@, b@[i as int]@);
                    lemma_keys_lt_asym(av, bv);
                    lemma_keys_lt_irrefl(av);
                }
                return PathOrder::Less;
            },
            PathOrder::Greater => {
                proof {
                    lemma_codes_lt_asym(b@[i as int]@, a@[i as int]@);
                    lemma_keys_lt_asym(bv, av);
                    lemma_keys_lt_irrefl(av);
                }
                return PathOrder::Greater;
            },
            PathOrder::Equal => {},
        }
        proof {
            lemma_codes_lt_irrefl(a@[i as int]@);
            assert(av.take(i + 1) =~= av.take(i as int).push(av[i as int]));
            assert(bv.take(i + 1) =~= bv.take(i as int).push(bv[i as int]));
        }
        i = i + 1;
    }
    proof {
        lemma_keys_lt_irrefl(av);
        lemma_keys_lt_total(av, bv);
        if av.len() == bv.len() {
            assert(av =~= av.take(i as int));
            assert(bv =~= bv.take(i as int));
        }
        if av == bv {
            assert(av.len() == bv.len());
        }
    }
    if a.len() < b.len() {
        PathOrder::Less
    } else if a.len() > b.len() {
        PathOrder::Greater
    } else {
        PathOrder::Equal
    }
}

/// Compares two paths component by component.
pub fn compare_paths(p: &str, q: &str) -> (r: PathOrder)
    ensures
        r == PathOrder::Less <==> path_lt(p@, q@),
        r == PathOrder::Greater <==> path_lt(q@, p@),
        r == PathOrder::Equal <==> path_eq(p@, q@),
{
    let kp = path_key_exec(p);
    let kq = path_key_exec(q);
    order_keys(&kp, &kq)
}

/// Do two paths have the same components?
pub fn same_path(p: &str, q: &str) -> (r: bool)
    ensures
        r == path_eq(p@, q@),
{
    match compare_paths(p, q) {
        PathOrder::Equal => true,
        _ => false,
    }
}

/// The paths with later duplicates (same components as an earlier one)
/// left out, first occurrences in order.
pub open spec fn dedup_paths(s: Seq<Seq<char>>) -> Seq<Seq<char>>
    decreases s.len(),
{
    if s.len() == 0 {
        Seq::empty()
    } else {
        let r = dedup_paths(s.drop_last());
        if exists|i: int| 0 <= i < r.len() && path_eq(#[trigger] r[i], s.last()) {
            r
        } else {
            r.push(s.last())
        }
    }
}

/// Dropping duplicates keeps only paths of the input.
pub proof fn lemma_dedup_subset(s: Seq<Seq<char>>)
    ensures
        forall|i: int| #![trigger dedup_paths(s)[i]] 0 <= i < dedup_paths(s).len() ==> exists|k: int| 0 <= k < s.len() && s[k] == dedup_paths(s)[i],
    decreases s.len(),
{
    if s.len() > 0 {
        let p = s.drop_last();
        lemma_dedup_subset(p);
        let r = dedup_paths(p);
        let d = dedup_paths(s);
        assert forall|i: int| #![trigger d[i]] 0 <= i < d.len() implies exists|k: int| 0 <= k < s.len() && s[k] == d[i] by {
            if i < r.len() {
                assert(d[i] == r[i]);
                let k = choose|k: int| 0 <= k < p.len() && p[k] == r[i];
                assert(s[k] == p[k]);
            } else {
                assert(d[i] == s.last());
                assert(s[s.len() - 1] == d[i]);
            }
        }
    }
}

/// Joining a single name (not empty, not `.`, without `/`) onto a path adds
/// exactly that component at the end.
pub proof fn lemma_join_name_key(base: Seq<char>, name: Seq<char>)
    requires
        name.len() > 0,
        name != seq!['.'],
        forall|i: int| 0 <= i < name.len() ==> name[i] != '/',
    ensures
        path_key(join_spec(base, name)) == path_key(base).push(comp_key(name)),
{
    let j = join_spec(base, name);
    assert(!has_root(name));
    crate::text::lemma_split_on_nonempty(base, '/');
    if base.len() > 0 && base.last() != '/' {
        let b1 = base.push('/');
        assert(j =~= b1 + name);
        crate::text::lemma_split_on_append(b1, name, '/');
        assert(b1.drop_last() =~= base);
        assert(split_on(b1, '/') == split_on(base, '/').push(Seq::<char>::empty()));
        assert(Seq::<char>::empty() + name =~= name);
        assert(split_on(j, '/') =~= split_on(base, '/').push(name));
        assert(split_on(base, '/').push(name).drop_last() =~= split_on(base, '/'));
        assert(path_body(j) == path_body(base).push(name));
        assert(j[0] == base[0]);
        if base.len() >= 2 {
            assert(j[1] == base[1]);
        } else {
            assert(j[1] == '/');
        }
        assert(prefix_keys(j) == prefix_keys(base));
    } else if base.len() == 0 {
        assert(j =~= name);
        assert(base + name =~= name);
        crate::text::lemma_split_on_append(base, name, '/');
        assert(split_on(base, '/') == seq![Seq::<char>::empty()]);
        assert(split_on(j, '/') =~= seq![name]);
        assert(seq![name].drop_last() =~= Seq::<Seq<char>>::empty());
        assert(seq![Seq::<char>::empty()].drop_last() =~= Seq::<Seq<char>>::empty());
        assert(path_body(base) == body_comps(Seq::<Seq<char>>::empty()));
        assert(path_body(j) == body_comps(Seq::<Seq<char>>::empty()).push(name));
        if name.len() >= 2 {
            assert(name[1] != '/');
        } else {
            assert(name =~= seq![name[0]]);
        }
        assert(!has_root(j) && !has_cur_dir(j));
        assert(prefix_keys(j) == prefix_keys(base));
    } else {
        let b0 = base.drop_last();
        assert(j =~= base + name);
        assert(base =~= b0.push('/'));
        crate::text::lemma_split_on_append(base, name, '/');
        crate::text::lemma_split_on_nonempty(b0, '/');
        assert(split_on(base, '/') == split_on(b0, '/').push(Seq::<char>::empty()));
        assert(Seq::<char>::empty() + name =~= name);
        assert(split_on(j, '/') =~= split_on(b0, '/').push(name));
        assert(split_on(b0, '/').push(name).drop_last() =~= split_on(b0, '/'));
        assert(split_on(b0, '/').push(Seq::<char>::empty()).drop_last() =~= split_on(b0, '/'));
        assert(path_body(j) == path_body(base).push(name));
        assert(j[0] == base[0]);
        if base.len() >= 2 {
            assert(j[1] == base[1]);
        }
        assert(prefix_keys(j) == prefix_keys(base));
    }
    assert(path_key(j) =~= path_key(base).push(comp_key(name)));
}

/// A path joined with a single name lies under it.
pub proof fn lemma_join_name_under(base: Seq<char>, name: Seq<char>)
    requires
        name.len() > 0,
        name != seq!['.'],
        forall|i: int| 0 <= i < name.len() ==> name[i] != '/',
    ensures
        path_starts_with(join_spec(base, name), base),
{
    lemma_join_name_key(base, name);
    assert(path_key(base).push(comp_key(name)).take(path_key(base).len() as int) =~= path_key(base));
}

/// After dropping duplicates, no two paths are the same path, and every
/// path of the input is represented.
pub proof fn lemma_dedup_paths(s: Seq<Seq<char>>)
    ensures
        forall|i: int, j: int| 0 <= i < j < dedup_paths(s).len() ==> !path_eq(#[trigger] dedup_paths(s)[i], #[trigger] dedup_paths(s)[j]),
        forall|k: int| #![trigger s[k]] 0 <= k < s.len() ==> exists|i: int| 0 <= i < dedup_paths(s).len() && path_eq(#[trigger] dedup_paths(s)[i], s[k]),
    decreases s.len(),
{
    if s.len() > 0 {
        let p = s.drop_last();
        lemma_dedup_paths(p);
        let r = dedup_paths(p);
        let d = dedup_paths(s);
        if exists|i: int| 0 <= i < r.len() && path_eq(#[trigger] r[i], s.last()) {
            assert(d == r);
            assert forall|k: int| #![trigger s[k]] 0 <= k < s.len() implies exists|i: int| 0 <= i < d.len() && path_eq(#[trigger] d[i], s[k]) by {
                if k < p.len() {
                    assert(s[k] == p[k]);
                } else {
                    assert(s[k] == s.last());
                }
            }
        } else {
            assert(d == r.push(s.last()));
            assert forall|i: int, j: int| 0 <= i < j < d.len() implies !path_eq(#[trigger] d[i], #[trigger] d[j]) by {
                if j == d.len() - 1 {
                    assert(d[i] == r[i]);
                    assert(d[j] == s.last());
                } else {
                    assert(d[i] == r[i] && d[j] == r[j]);
                }
            }
            assert forall|k: int| #![trigger s[k]] 0 <= k < s.len() implies exists|i: int| 0 <= i < d.len() && path_eq(#[trigger] d[i], s[k]) by {
                if k < p.len() {
                    assert(s[k] == p[k]);
                    let i = choose|i: int| 0 <= i < r.len() && path_eq(#[trigger] r[i], p[k]);
                    assert(d[i] == r[i]);
                } else {
                    assert(d[d.len() - 1] == s[k]);
                    lemma_path_order(s[k], s[k], s[k]);
                }
            }
        }
    }
}

/// Keeps the first of each set of paths with the same components.
pub fn dedup_path_strings(v: Vec<String>) -> (r: Vec<String>)
    ensures
        crate::text::string_views(r@) == dedup_paths(crate::text::string_views(v@)),
{
    let ghost sv = crate::text::string_views(v@);
    let mut out: Vec<String> = Vec::new();
    let mut i: usize = 0;
    proof {
        assert(crate::text::string_views(out@) =~= dedup_paths(sv.take(0)));
    }
    while i < v.len()
        invariant
            sv == crate::text::string_views(v@),
            i <= v@.len(),
            crate::text::string_views(out@) == dedup_paths(sv.take(i as int)),
        decreases v.len() - i,
    {
        let ghost o = crate::text::string_views(out@);
        proof {
            assert(sv.take(i + 1).drop_last() =~= sv.take(i as int));
            assert(sv.take(i + 1).last() == v@[i as int]@);
        }
        let mut seen = false;
        let mut k: usize = 0;
        while k < out.len()
            invariant
                o == crate::text::string_views(out@),
                k <= out@.len(),
                seen == exists|j: int| 0 <= j < k && path_eq(#[trigger] o[j], v@[i as int]@),
                i < v@.len(),
            decreases out.len() - k,
        {
            proof {
                assert(o[k as int] == out@[k as int]@);
            }
            if same_path(out[k].as_str(), v[i].as_str()) {
                seen = true;
            }
            k = k + 1;
        }
        if !seen {
            out.push(v[i].clone());
            proof {
                assert(crate::text::string_views(out@) =~= o.push(v@[i as int]@));
            }
        }
        i = i + 1;
    }
    proof {
        assert(sv.take(v@.len() as int) =~= sv);
    }
    out
}

/// What `PathBuf::join` gives on Unix: an absolute `seg` replaces the base;
/// otherwise `seg` is appended, with a `/` between them unless the base is
/// empty or already ends in one.
pub open spec fn join_spec(base: Seq<char>, seg: Seq<char>) -> Seq<char> {
    if has_root(seg) {
        seg
    } else if base.len() > 0 && base.last() != '/' {
        base + seq!['/'] + seg
    } else {
        base + seg
    }
}

/// Joins `seg` onto `base` as `PathBuf::join` does on Unix.
pub fn join_path(base: &str, seg: &str) -> (r: String)
    ensures
        r@ == join_spec(base@, seg@),
{
    let b = chars_of(base);
    let s = chars_of(seg);
    let mut out: Vec<char> = Vec::new();
    if s.len() > 0 && s[0] == '/' {
        return string_of(&s);
    }
    let mut i: usize = 0;
    while i < b.len()
        invariant
            i <= b@.len(),
            out@ =~= b@.take(i as int),
        decreases b.len() - i,
    {
        out.push(b[i]);
        i = i + 1;
    }
    if b.len() > 0 && b[b.len() - 1] != '/' {
        out.push('/');
    }
    let ghost mid = out@;
    proof {
        assert(b@.take(b@.len() as int) =~= b@);
    }
    let mut j: usize = 0;
    while j < s.len()
        invariant
            j <= s@.len(),
            out@ =~= mid + s@.take(j as int),
        decreases s.len() - j,
    {
        out.push(s[j]);
        j = j + 1;
    }
    proof {
        assert(s@.take(s@.len() as int) =~= s@);
    }
    string_of(&out)
}

/// `base`'s components are a leading run of `p`'s components
/// (`Path::starts_with`).
pub open spec fn path_starts_with(p: Seq<char>, base: Seq<char>) -> bool {
    path_key(base).len() <= path_key(p).len()
        && path_key(p).take(path_key(base).len() as int) == path_key(base)
}

/// Does `p` begin with the components of `base`?
pub fn starts_with_path(p: &str, base: &str) -> (r: bool)
    ensures
        r == path_starts_with(p@, base@),
{
    let kp = path_key_exec(p);
    let kb = path_key_exec(base);
    let ghost vp = code_vec_views(kp@);
    let ghost vb = code_vec_views(kb@);
    if kb.len() > kp.len() {
        return false;
    }
    let mut i: usize = 0;
    while i < kb.len()
        invariant
            vp == path_key(p@),
            vb == path_key(base@),
            vp == code_vec_views(kp@),
            vb == code_vec_views(kb@),
            kb@.len() <= kp@.len(),
            i <= kb@.len(),
            vp.take(i as int) == vb.take(i as int),
        decreases kb.len() - i,
    {
        let c = order_codes(&kp[i], &kb[i]);
        match c {
            PathOrder::Equal => {},
            _ => {
                proof {
                    assert(vp[i as int] == kp@[i as int]@);
                    assert(vb[i as int] == kb@[i as int]@);
                    assert(vp.take(vb.len() as int)[i as int] == vp[i as int]);
                    assert(vp.take(vb.len() as int)[i as int] != vb[i as int]);
                }
                return false;
            },
        }
        proof {
            assert(vp.take(i + 1) =~= vp.take(i as int).push(vp[i as int]));
            assert(vb.take(i + 1) =~= vb.take(i as int).push(vb[i as int]));
        }
        i = i + 1;
    }
    proof {
        assert(vb.take(vb.len() as int) =~= vb);
    }
    true
}

/// The last component of `p` when it is a name (`Path::file_name`).
pub open spec fn file_name_spec(p: Seq<char>) -> Option<Seq<char>> {
    let body = path_body(p);
    if body.len() > 0 && body.last() != dot_dot() {
        Some(body.last())
    } else {
        None
    }
}

/// The final name of a path, if it ends in one.
pub fn file_name(p: &str) -> (r: Option<Vec<char>>)
    ensures
        match r {
            Some(v) => file_name_spec(p@) == Some(v@),
            None => file_name_spec(p@).is_none(),
        },
{
    let parts = path_parts(p);
    let n = parts.body.len();
    if n == 0 {
        return None;
    }
    let last = &parts.body[n - 1];
    proof {
        assert(path_body(p@).last() == last@);
    }
    if last.len() == 2 && last[0] == '.' && last[1] == '.' {
        proof {
            assert(last@ =~= dot_dot());
        }
        None
    } else {
        proof {
            if last@ == dot_dot() {
                assert(last@[0] == '.' && last@[1] == '.');
            }
        }
        Some(last.clone())
    }
}

/// Does `p` hold a parent-directory (`..`) component?
pub open spec fn has_parent_dir(p: Seq<char>) -> bool {
    exists|i: int| 0 <= i < path_body(p).len() && #[trigger] path_body(p)[i] == dot_dot()
}

/// Does `p` hold a `..` component?
pub fn contains_parent_dir(p: &str) -> (r: bool)
    ensures
        r == has_parent_dir(p@),
{
    let parts = path_parts(p);
    let ghost body = path_body(p@);
    let mut i: usize = 0;
    while i < parts.body.len()
        invariant
            body == path_body(p@),
            char_vec_views(parts.body@) == body,
            i <= body.len(),
            forall|k: int| 0 <= k < i ==> body[k] != dot_dot(),
        decreases parts.body.len() - i,
    {
        let c = &parts.body[i];
        proof {
            assert(body[i as int] == c@);
        }
        if c.len() == 2 && c[0] == '.' && c[1] == '.' {
            proof {
                assert(c@ =~= dot_dot());
                assert(path_body(p@)[i as int] == dot_dot());
            }
            return true;
        }
        proof {
            if c@ == dot_dot() {
                assert(c@[0] == '.' && c@[1] == '.');
            }
        }
        i = i + 1;
    }
    false
}

/// Does `p` hold a name component equal to `name`?
pub open spec fn has_normal_component(p: Seq<char>, name: Seq<char>) -> bool {
    exists|i: int|
        0 <= i < path_body(p).len() && #[trigger] path_body(p)[i] == name && name != dot_dot()
}

/// Does `needle` occur in `hay` starting at `at`?
pub open spec fn occurs_at(hay: Seq<char>, needle: Seq<char>, at: int) -> bool {
    0 <= at && at + needle.len() <= hay.len() && hay.subrange(at, at + needle.len()) == needle
}

/// Does `needle` occur anywhere in `hay` (`str::contains`)?
pub open spec fn contains_spec(hay: Seq<char>, needle: Seq<char>) -> bool {
    exists|at: int| occurs_at(hay, needle, at)
}

/// Substring search on character sequences.
pub fn contains_chars(hay: &Vec<char>, needle: &Vec<char>) -> (r: bool)
    ensures
        r == contains_spec(hay@, needle@),
{
    if needle.len() > hay.len() {
        proof {
            assert forall|at: int| !occurs_at(hay@, needle@, at) by {}
        }
        return false;
    }
    let hay_len = hay.len();
    let last = hay_len - needle.len();
    let mut at: usize = 0;
    while at <= last
        invariant
            hay_len == hay@.len(),
            last == hay@.len() - needle@.len(),
            needle@.len() <= hay@.len(),
            forall|k: int| 0 <= k < at ==> !occurs_at(hay@, needle@, k),
        decreases last + 1 - at,
    {
        let mut j: usize = 0;
        let mut ok = true;
        while j < needle.len()
            invariant
                at <= last,
                hay_len == hay@.len(),
                at + needle@.len() <= hay@.len(),
                last == hay@.len() - needle@.len(),
                needle@.len() <= hay@.len(),
                j <= needle@.len(),
                ok ==> forall|k: int| 0 <= k < j ==> hay@[at + k] == needle@[k],
                !ok ==> !occurs_at(hay@, needle@, at as int),
            decreases needle.len() - j,
        {
            assert(at + j < hay@.len());
            if hay[at + j] != needle[j] {
                if ok {
                    proof {
                        if occurs_at(hay@, needle@, at as int) {
                            assert(hay@.subrange(at as int, at + needle@.len())[j as int] == hay@[at
                                + j]);
                        }
                    }
                }
                ok = false;
            }
            j = j + 1;
        }
        if ok {
            proof {
                assert(hay@.subrange(at as int, at + needle@.len()) =~= needle@);
                assert(occurs_at(hay@, needle@, at as int));
            }
            return true;
        }
        if at == last {
            proof {
                assert forall|k: int| !occurs_at(hay@, needle@, k) by {
                    if 0 <= k <= last && occurs_at(hay@, needle@, k) {
                        assert(k <= at);
                    }
                }
            }
            return false;
        }
        at = at + 1;
    }
    false
}

} // verus!
