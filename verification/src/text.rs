//! Character-level helpers: conversions between strings and character
//! vectors, decimal rendering and parsing of unsigned integers, and
//! splitting on a separator.
use vstd::prelude::*;

verus! {

/// The characters of `s`, in order.
pub(crate) fn chars_of(s: &str) -> (r: Vec<char>)
    ensures
        r@ == s@,
{
    broadcast use vstd::string::axiom_spec_iter;

    let mut v: Vec<char> = Vec::new();
    for c in it: s.chars()
        invariant
            it.seq() == s@,
            v@ == s@.take(it.index() as int),
    {
        proof {
            assert(s@.take(it.index() + 1) =~= s@.take(it.index() as int).push(c));
        }
        v.push(c);
    }
    proof {
        assert(s@.take(s@.len() as int) =~= s@);
    }
    v
}

/// The string made of the characters `cs`, in order.
///
/// Trusted: wraps `String::from_iter` over `char`s; claims that the string
/// holds exactly these characters.
#[verifier::external_body]
pub(crate) fn string_of(cs: &Vec<char>) -> (r: String)
    ensures
        r@ == cs@,
{
    cs.iter().collect()
}

/// The ASCII digit for a value below ten.
pub open spec fn digit_char(d: nat) -> char {
    if d == 0 { '0' }
    else if d == 1 { '1' }
    else if d == 2 { '2' }
    else if d == 3 { '3' }
    else if d == 4 { '4' }
    else if d == 5 { '5' }
    else if d == 6 { '6' }
    else if d == 7 { '7' }
    else if d == 8 { '8' }
    else { '9' }
}

/// Decimal rendering of a natural number, without leading zeros.
pub open spec fn decimal(n: nat) -> Seq<char>
    decreases n,
{
    if n < 10 {
        seq![digit_char(n)]
    } else {
        decimal(n / 10).push(digit_char(n % 10))
    }
}

/// Is `c` one of `0`..`9`?
pub open spec fn is_digit(c: char) -> bool {
    '0' <= c && c <= '9'
}

/// Every character of `s` is an ASCII digit.
pub open spec fn all_digits(s: Seq<char>) -> bool {
    forall|i: int| 0 <= i < s.len() ==> is_digit(#[trigger] s[i])
}

/// The value of a string of decimal digits (most significant first).
pub open spec fn digits_value(s: Seq<char>) -> nat
    decreases s.len(),
{
    if s.len() == 0 {
        0
    } else {
        digits_value(s.drop_last()) * 10 + ((s.last() as int - '0' as int) as nat)
    }
}

/// What `str::parse::<u32>` yields: an optional `+`, then one or more ASCII
/// digits whose value fits in a `u32`.
pub open spec fn parse_u32_spec(s: Seq<char>) -> Option<u32> {
    let d = if s.len() > 0 && s[0] == '+' { s.drop_first() } else { s };
    if d.len() == 0 || !all_digits(d) || digits_value(d) > u32::MAX {
        None
    } else {
        Some(digits_value(d) as u32)
    }
}

/// The pieces of `s` between occurrences of `sep`, as `str::split` yields
/// them (an empty string yields one empty piece).
pub open spec fn split_on(s: Seq<char>, sep: char) -> Seq<Seq<char>>
    decreases s.len(),
{
    if s.len() == 0 {
        seq![Seq::<char>::empty()]
    } else {
        let rest = split_on(s.drop_last(), sep);
        if s.last() == sep {
            rest.push(Seq::<char>::empty())
        } else {
            rest.update(rest.len() - 1, rest.last().push(s.last()))
        }
    }
}

/// `split_on` never yields an empty list.
pub proof fn lemma_split_on_nonempty(s: Seq<char>, sep: char)
    ensures
        split_on(s, sep).len() >= 1,
    decreases s.len(),
{
    if s.len() > 0 {
        lemma_split_on_nonempty(s.drop_last(), sep);
    }
}

/// Appending text without the separator extends the last piece.
pub proof fn lemma_split_on_append(a: Seq<char>, b: Seq<char>, sep: char)
    requires
        forall|i: int| 0 <= i < b.len() ==> b[i] != sep,
    ensures
        split_on(a + b, sep) == split_on(a, sep).update(split_on(a, sep).len() - 1, split_on(a, sep).last() + b),
    decreases b.len(),
{
    lemma_split_on_nonempty(a, sep);
    if b.len() == 0 {
        assert(a + b =~= a);
        assert(split_on(a, sep).last() + b =~= split_on(a, sep).last());
        assert(split_on(a, sep).update(split_on(a, sep).len() - 1, split_on(a, sep).last()) =~= split_on(a, sep));
    } else {
        let c = b.last();
        let b0 = b.drop_last();
        lemma_split_on_append(a, b0, sep);
        assert((a + b).drop_last() =~= a + b0);
        assert((a + b).last() == c);
        let rest = split_on(a + b0, sep);
        lemma_split_on_nonempty(a + b0, sep);
        assert(split_on(a + b, sep) == rest.update(rest.len() - 1, rest.last().push(c)));
        assert((split_on(a, sep).last() + b0).push(c) =~= split_on(a, sep).last() + b);
        assert(rest.len() == split_on(a, sep).len());
        assert(rest.last() == split_on(a, sep).last() + b0);
        assert(split_on(a + b, sep) =~= split_on(a, sep).update(split_on(a, sep).len() - 1, split_on(a, sep).last() + b));
    }
}

/// Appending a digit multiplies by ten and adds it.
proof fn lemma_digits_value_push(s: Seq<char>, c: char)
    ensures
        digits_value(s.push(c)) == digits_value(s) * 10 + ((c as int - '0' as int) as nat),
{
    assert(s.push(c).drop_last() =~= s);
}

/// A natural number rendered in decimal is a non-empty run of digits.
pub proof fn lemma_decimal_digits(n: nat)
    ensures
        decimal(n).len() >= 1,
        all_digits(decimal(n)),
    decreases n,
{
    if n >= 10 {
        lemma_decimal_digits(n / 10);
        lemma_digit_char_value(n % 10);
    } else {
        lemma_digit_char_value(n);
    }
}

/// A digit character stands for its value.
proof fn lemma_digit_char_value(d: nat)
    requires
        d < 10,
    ensures
        (digit_char(d) as int - '0' as int) == d,
        is_digit(digit_char(d)),
{
}

/// Reading back a decimal rendering gives the number.
pub proof fn lemma_decimal_value(n: nat)
    ensures
        digits_value(decimal(n)) == n,
    decreases n,
{
    if n < 10 {
        lemma_digit_char_value(n);
        assert(decimal(n).drop_last() =~= Seq::<char>::empty());
        assert(digits_value(Seq::<char>::empty()) == 0);
        assert(digits_value(decimal(n)) == digits_value(decimal(n).drop_last()) * 10
            + ((decimal(n).last() as int - '0' as int) as nat));
    } else {
        lemma_digit_char_value(n % 10);
        lemma_decimal_value(n / 10);
        lemma_digits_value_push(decimal(n / 10), digit_char(n % 10));
        assert(decimal(n) == decimal(n / 10).push(digit_char(n % 10)));
        assert(n == (n / 10) * 10 + n % 10);
    }
}

/// The decimal rendering of `n`, as `u64::to_string` gives it.
pub fn u64_to_decimal(n: u64) -> (r: String)
    ensures
        r@ == decimal(n as nat),
{
    let mut digits: Vec<char> = Vec::new();
    let mut m: u64 = n;
    // digits holds the low-order digits of n, least significant first
    while m >= 10
        invariant
            decimal(n as nat) == decimal(m as nat) + digits@.reverse(),
        decreases m,
    {
        let d: u64 = m % 10;
        let c: char = digit_of(d);
        proof {
            assert(decimal(m as nat) == decimal((m / 10) as nat).push(digit_char((m % 10) as nat)));
            assert(digits@.push(c).reverse() =~= seq![c] + digits@.reverse());
            assert(decimal((m / 10) as nat).push(c) + digits@.reverse()
                =~= decimal((m / 10) as nat) + (seq![c] + digits@.reverse()));
        }
        digits.push(c);
        m = m / 10;
    }
    let c: char = digit_of(m);
    digits.push(c);
    proof {
        assert(digits@.reverse() =~= seq![c] + digits@.drop_last().reverse());
    }
    let mut out: Vec<char> = Vec::new();
    let len = digits.len();
    let mut i: usize = 0;
    while i < len
        invariant
            len == digits@.len(),
            i <= len,
            out@ =~= digits@.reverse().take(i as int),
        decreases len - i,
    {
        out.push(digits[len - 1 - i]);
        i = i + 1;
        proof {
            assert(out@ =~= digits@.reverse().take(i as int));
        }
    }
    proof {
        assert(digits@.reverse().take(len as int) =~= digits@.reverse());
    }
    string_of(&out)
}

/// All-digit strings never lose value when more digits follow.
proof fn lemma_digits_value_prefix(s: Seq<char>, k: int)
    requires
        0 <= k <= s.len(),
        all_digits(s),
    ensures
        digits_value(s.take(k)) <= digits_value(s),
    decreases s.len(),
{
    if k < s.len() {
        assert(s.take(k) =~= s.drop_last().take(k));
        lemma_digits_value_prefix(s.drop_last(), k);
        assert(is_digit(s[s.len() - 1]));
    } else {
        assert(s.take(k) =~= s);
    }
}

/// What `str::parse::<u32>` returns, with the error folded into `None`.
pub fn parse_u32(s: &str) -> (r: Option<u32>)
    ensures
        r == parse_u32_spec(s@),
{
    let cs = chars_of(s);
    let start: usize = if cs.len() > 0 && cs[0] == '+' { 1 } else { 0 };
    let ghost d = if s@.len() > 0 && s@[0] == '+' { s@.drop_first() } else { s@ };
    proof {
        assert(d =~= cs@.subrange(start as int, cs@.len() as int));
    }
    if start == cs.len() {
        return None;
    }
    let mut acc: u64 = 0;
    let mut i: usize = start;
    while i < cs.len()
        invariant
            cs@ == s@,
            d == (if s@.len() > 0 && s@[0] == '+' { s@.drop_first() } else { s@ }),
            start < cs@.len(),
            d =~= cs@.subrange(start as int, cs@.len() as int),
            start <= i <= cs@.len(),
            all_digits(cs@.subrange(start as int, i as int)),
            acc as nat == digits_value(cs@.subrange(start as int, i as int)),
            acc <= u32::MAX,
        decreases cs.len() - i,
    {
        let c = cs[i];
        if !('0' <= c && c <= '9') {
            proof {
                assert(d[i - start] == c);
                assert(!is_digit(d[i - start]));
            }
            return None;
        }
        let dv: u64 = (c as u32 - '0' as u32) as u64;
        proof {
            let pre = cs@.subrange(start as int, i as int);
            assert(cs@.subrange(start as int, i + 1) =~= pre.push(c));
            lemma_digits_value_push(pre, c);
        }
        acc = acc * 10 + dv;
        i = i + 1;
        if acc > 0xffff_ffffu64 {
            proof {
                if all_digits(d) {
                    assert(cs@.subrange(start as int, i as int) =~= d.take(i - start));
                    lemma_digits_value_prefix(d, i - start);
                }
            }
            return None;
        }
    }
    proof {
        assert(cs@.subrange(start as int, i as int) =~= d);
    }
    Some(acc as u32)
}

/// The views of a sequence of character vectors.
pub open spec fn char_vec_views(v: Seq<Vec<char>>) -> Seq<Seq<char>> {
    v.map_values(|x: Vec<char>| x@)
}

/// The pieces of `cs` between occurrences of `sep`, as `str::split` yields them.
pub fn split_chars(cs: &Vec<char>, sep: char) -> (r: Vec<Vec<char>>)
    ensures
        char_vec_views(r@) == split_on(cs@, sep),
{
    let mut pieces: Vec<Vec<char>> = Vec::new();
    let mut cur: Vec<char> = Vec::new();
    let mut i: usize = 0;
    proof {
        assert(cs@.take(0) =~= Seq::<char>::empty());
        assert(char_vec_views(pieces@).push(cur@) =~= split_on(cs@.take(0), sep));
    }
    while i < cs.len()
        invariant
            i <= cs@.len(),
            char_vec_views(pieces@).push(cur@) =~= split_on(cs@.take(i as int), sep),
        decreases cs.len() - i,
    {
        let c = cs[i];
        let ghost before = cs@.take(i as int);
        proof {
            assert(cs@.take(i + 1).drop_last() =~= before);
            assert(cs@.take(i + 1).last() == c);
        }
        if c == sep {
            let ghost old_pieces = pieces@;
            pieces.push(cur);
            cur = Vec::new();
            proof {
                assert(char_vec_views(pieces@) =~= char_vec_views(old_pieces).push(
                    char_vec_views(pieces@).last()));
            }
        } else {
            cur.push(c);
        }
        i = i + 1;
    }
    let ghost old_pieces = pieces@;
    pieces.push(cur);
    proof {
        assert(cs@.take(cs@.len() as int) =~= cs@);
        assert(char_vec_views(pieces@) =~= char_vec_views(old_pieces).push(
            char_vec_views(pieces@).last()));
    }
    pieces
}

/// The views of a sequence of strings.
/// The text of an optional string.
pub open spec fn opt_text(o: Option<String>) -> Option<Seq<char>> {
    match o {
        Some(s) => Some(s@),
        None => None,
    }
}

/// A copy of an optional string.
pub fn copy_opt_string(o: &Option<String>) -> (r: Option<String>)
    ensures
        opt_text(r) == opt_text(*o),
{
    match o {
        Some(s) => Some(s.clone()),
        None => None,
    }
}

pub open spec fn string_views(v: Seq<String>) -> Seq<Seq<char>> {
    v.map_values(|x: String| x@)
}

/// The pieces joined with `sep` between neighbours (`[String]::join`).
pub open spec fn joined(parts: Seq<Seq<char>>, sep: Seq<char>) -> Seq<char>
    decreases parts.len(),
{
    if parts.len() == 0 {
        Seq::empty()
    } else if parts.len() == 1 {
        parts[0]
    } else {
        joined(parts.drop_last(), sep) + sep + parts.last()
    }
}

/// Joins the strings with `sep` between neighbours.
pub fn join_strings(parts: &[String], sep: &str) -> (r: String)
    ensures
        r@ == joined(string_views(parts@), sep@),
{
    let sep_chars = chars_of(sep);
    let mut out: Vec<char> = Vec::new();
    let mut i: usize = 0;
    while i < parts.len()
        invariant
            i <= parts@.len(),
            sep_chars@ == sep@,
            out@ == joined(string_views(parts@).take(i as int), sep@),
        decreases parts.len() - i,
    {
        let ghost before = out@;
        let piece = chars_of(parts[i].as_str());
        if i > 0 {
            let mut k: usize = 0;
            while k < sep_chars.len()
                invariant
                    k <= sep_chars@.len(),
                    out@ == before + sep_chars@.take(k as int),
                decreases sep_chars.len() - k,
            {
                out.push(sep_chars[k]);
                k = k + 1;
            }
            proof {
                assert(sep_chars@.take(sep_chars@.len() as int) =~= sep_chars@);
            }
        }
        let ghost mid = out@;
        let mut j: usize = 0;
        while j < piece.len()
            invariant
                j <= piece@.len(),
                out@ == mid + piece@.take(j as int),
            decreases piece.len() - j,
        {
            out.push(piece[j]);
            j = j + 1;
        }
        proof {
            assert(piece@.take(piece@.len() as int) =~= piece@);
            let ps = string_views(parts@);
            assert(ps.take(i + 1).drop_last() =~= ps.take(i as int));
            assert(ps.take(i + 1).last() == parts@[i as int]@);
            if i == 0 {
                assert(out@ =~= piece@);
            } else {
                assert(out@ =~= before + sep@ + piece@);
            }
        }
        i = i + 1;
    }
    proof {
        assert(string_views(parts@).take(parts@.len() as int) =~= string_views(parts@));
    }
    string_of(&out)
}

/// Do two character vectors hold the same characters?
pub fn chars_eq(a: &Vec<char>, b: &Vec<char>) -> (r: bool)
    ensures
        r == (a@ == b@),
{
    if a.len() != b.len() {
        return false;
    }
    let mut i: usize = 0;
    while i < a.len()
        invariant
            i <= a@.len(),
            a@.len() == b@.len(),
            forall|k: int| 0 <= k < i ==> a@[k] == b@[k],
        decreases a.len() - i,
    {
        if a[i] != b[i] {
            return false;
        }
        i = i + 1;
    }
    proof {
        assert(a@ =~= b@);
    }
    true
}

/// The Unicode `White_Space` property (`char::is_whitespace`): tab, line
/// feed, vertical tab, form feed, carriage return, space, next line,
/// no-break space, the Ogham space mark, the spaces from en quad to hair
/// space, the line and paragraph separators, the narrow no-break space, the
/// medium mathematical space and the ideographic space.
pub open spec fn unicode_white_space(c: char) -> bool {
    let u = c as u32;
    ||| 0x09 <= u <= 0x0d
    ||| u == 0x20
    ||| u == 0x85
    ||| u == 0xa0
    ||| u == 0x1680
    ||| 0x2000 <= u <= 0x200a
    ||| u == 0x2028
    ||| u == 0x2029
    ||| u == 0x202f
    ||| u == 0x205f
    ||| u == 0x3000
}

/// Is the character white space (`char::is_whitespace`)?
pub(crate) fn is_white_space(c: char) -> (r: bool)
    ensures
        r == unicode_white_space(c),
{
    let u = c as u32;
    (0x09 <= u && u <= 0x0d) || u == 0x20 || u == 0x85 || u == 0xa0 || u == 0x1680 || (0x2000 <= u
        && u <= 0x200a) || u == 0x2028 || u == 0x2029 || u == 0x202f || u == 0x205f || u == 0x3000
}

/// The text without its leading white space.
pub open spec fn trim_front(s: Seq<char>) -> Seq<char>
    decreases s.len(),
{
    if s.len() > 0 && unicode_white_space(s[0]) {
        trim_front(s.drop_first())
    } else {
        s
    }
}

/// The text without its trailing white space.
pub open spec fn trim_back(s: Seq<char>) -> Seq<char>
    decreases s.len(),
{
    if s.len() > 0 && unicode_white_space(s.last()) {
        trim_back(s.drop_last())
    } else {
        s
    }
}

/// The text without leading and trailing white space (`str::trim`).
pub open spec fn trim_spec(s: Seq<char>) -> Seq<char> {
    trim_back(trim_front(s))
}

/// Removes leading and trailing white space.
pub fn trim_chars(cs: &Vec<char>) -> (r: Vec<char>)
    ensures
        r@ == trim_spec(cs@),
{
    let n = cs.len();
    let mut a: usize = 0;
    proof {
        assert(cs@.skip(0) =~= cs@);
    }
    while a < n && is_white_space(cs[a])
        invariant
            n == cs@.len(),
            a <= n,
            trim_front(cs@) == trim_front(cs@.skip(a as int)),
        decreases n - a,
    {
        proof {
            assert(cs@.skip(a as int).drop_first() =~= cs@.skip(a + 1));
            assert(cs@.skip(a as int)[0] == cs@[a as int]);
        }
        a = a + 1;
    }
    let ghost front = cs@.skip(a as int);
    proof {
        if a < n {
            assert(front[0] == cs@[a as int]);
        }
        assert(trim_front(cs@) == front);
    }
    let mut b: usize = n;
    while b > a && is_white_space(cs[b - 1])
        invariant
            n == cs@.len(),
            a <= b <= n,
            front == cs@.skip(a as int),
            trim_back(front) == trim_back(cs@.subrange(a as int, b as int)),
        decreases b - a,
    {
        proof {
            assert(cs@.subrange(a as int, b as int).drop_last() =~= cs@.subrange(a as int, b - 1));
            assert(cs@.subrange(a as int, b as int).last() == cs@[b - 1]);
        }
        b = b - 1;
    }
    proof {
        if b == n {
            assert(cs@.subrange(a as int, b as int) =~= front);
        }
        if b > a {
            assert(cs@.subrange(a as int, b as int).last() == cs@[b - 1]);
        }
    }
    let mut out: Vec<char> = Vec::new();
    let mut i: usize = a;
    while i < b
        invariant
            a <= i <= b <= n,
            n == cs@.len(),
            out@ == cs@.subrange(a as int, i as int),
        decreases b - i,
    {
        out.push(cs[i]);
        proof {
            assert(cs@.subrange(a as int, i + 1) =~= cs@.subrange(a as int, i as int).push(cs@[i as int]));
        }
        i = i + 1;
    }
    out
}

/// The position of the first `sep` in the text, if any.
pub open spec fn first_index_of(s: Seq<char>, sep: char) -> Option<int> {
    if s.contains(sep) {
        Some(choose|i: int| 0 <= i < s.len() && s[i] == sep && forall|j: int| 0 <= j < i ==> s[j] != sep)
    } else {
        None
    }
}

/// Finds the first `sep` (the split point of `str::split_once`).
pub fn find_char(cs: &Vec<char>, sep: char) -> (r: Option<usize>)
    ensures
        match r {
            Some(i) => first_index_of(cs@, sep) == Some(i as int) && i < cs@.len(),
            None => first_index_of(cs@, sep) is None,
        },
{
    let mut i: usize = 0;
    while i < cs.len()
        invariant
            i <= cs@.len(),
            forall|j: int| 0 <= j < i ==> cs@[j] != sep,
        decreases cs.len() - i,
    {
        if cs[i] == sep {
            proof {
                assert(cs@.contains(sep));
                let k = choose|k: int| 0 <= k < cs@.len() && cs@[k] == sep && forall|j: int| 0 <= j < k ==> cs@[j] != sep;
                assert(k == i) by {
                    if k < i {
                        assert(cs@[k] != sep);
                    } else if k > i {
                        assert(cs@[i as int] != sep);
                    }
                }
            }
            return Some(i);
        }
        i = i + 1;
    }
    proof {
        if cs@.contains(sep) {
            let k = choose|k: int| 0 <= k < cs@.len() && cs@[k] == sep;
            assert(cs@[k] != sep);
        }
    }
    None
}

/// The decimal rendering of a signed integer: a `-` before the digits of
/// a negative one.
pub open spec fn signed_decimal(n: int) -> Seq<char> {
    if n < 0 {
        seq!['-'] + decimal((-n) as nat)
    } else {
        decimal(n as nat)
    }
}

/// The decimal rendering of `n`, as `i64::to_string` gives it.
pub fn i64_to_decimal(n: i64) -> (r: String)
    ensures
        r@ == signed_decimal(n as int),
{
    if n < 0 {
        let mag: u64 = if n == i64::MIN { 9_223_372_036_854_775_808u64 } else { (-n) as u64 };
        let digits = u64_to_decimal(mag);
        let mut v: Vec<char> = Vec::new();
        v.push('-');
        let ds = chars_of(digits.as_str());
        let mut i: usize = 0;
        while i < ds.len()
            invariant
                i <= ds@.len(),
                v@ == seq!['-'] + ds@.take(i as int),
            decreases ds.len() - i,
        {
            v.push(ds[i]);
            proof {
                assert(ds@.take(i + 1) =~= ds@.take(i as int).push(ds@[i as int]));
            }
            i = i + 1;
        }
        proof {
            assert(ds@.take(ds@.len() as int) =~= ds@);
        }
        string_of(&v)
    } else {
        u64_to_decimal(n as u64)
    }
}

/// The character for a single decimal digit.
fn digit_of(d: u64) -> (c: char)
    requires
        d < 10,
    ensures
        c == digit_char(d as nat),
{
    if d == 0 { '0' }
    else if d == 1 { '1' }
    else if d == 2 { '2' }
    else if d == 3 { '3' }
    else if d == 4 { '4' }
    else if d == 5 { '5' }
    else if d == 6 { '6' }
    else if d == 7 { '7' }
    else if d == 8 { '8' }
    else { '9' }
}

} // verus!
