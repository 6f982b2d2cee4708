//! Sandbox identity and placement: guest addresses in the 10.20.0.0/16
//! network, sandbox and snapshot identifiers, and the directories that hold
//! their files.
use vstd::prelude::*;
use vstd::string::StringExecFns;
use vstd::utf8::is_ascii_chars;
use crate::paths::{join_path, join_spec};
use crate::text::{
    all_digits, chars_of, decimal, digits_value, is_digit, lemma_decimal_digits,
    lemma_decimal_value, lemma_split_on_nonempty, parse_u32, parse_u32_spec, split_chars,
    split_on, u64_to_decimal, char_vec_views, string_of,
};

verus! {

/// The `10.20.` network prefix.
pub open spec fn net_prefix() -> Seq<char> {
    seq!['1', '0', '.', '2', '0', '.']
}

/// The dotted address a counter stands for: `10.20.x.y` with `x` the second
/// lowest byte and `y` the lowest byte of the counter.
pub open spec fn ip_text(counter: u32) -> Seq<char> {
    net_prefix() + decimal(((counter / 256) % 256) as nat) + seq!['.'] + decimal(
        (counter % 256) as nat,
    )
}

/// Allocates an IP address in the 10.20.x.y range from a counter value.
///
/// Counter 0 is 10.20.0.0 (network) and 1 is 10.20.0.1 (bridge/host), so
/// usable sandbox addresses start at counter 2.
pub fn allocate_ip(counter: u32) -> (r: String)
    ensures
        r@ == ip_text(counter),
{
    let third = u64_to_decimal(((counter / 256) % 256) as u64);
    let fourth = u64_to_decimal((counter % 256) as u64);
    let mut out: Vec<char> = Vec::new();
    out.push('1');
    out.push('0');
    out.push('.');
    out.push('2');
    out.push('0');
    out.push('.');
    let t = chars_of(third.as_str());
    let f = chars_of(fourth.as_str());
    let ghost start = out@;
    let mut i: usize = 0;
    while i < t.len()
        invariant
            i <= t@.len(),
            out@ =~= start + t@.take(i as int),
        decreases t.len() - i,
    {
        out.push(t[i]);
        i = i + 1;
    }
    out.push('.');
    let ghost mid = out@;
    let mut j: usize = 0;
    while j < f.len()
        invariant
            j <= f@.len(),
            out@ =~= mid + f@.take(j as int),
        decreases f.len() - j,
    {
        out.push(f[j]);
        j = j + 1;
    }
    proof {
        assert(t@.take(t@.len() as int) =~= t@);
        assert(f@.take(f@.len() as int) =~= f@);
        assert(start =~= net_prefix());
        assert(out@ =~= ip_text(counter));
    }
    string_of(&out)
}

/// What `ip_to_counter` answers: for `10.20.x.y` with `x` and `y` decimal
/// octets (each at most 255), the counter `x * 256 + y`; for any other text,
/// nothing.
pub open spec fn ip_to_counter_spec(ip: Seq<char>) -> Option<u32> {
    let parts = split_on(ip, '.');
    if parts.len() != 4 || parts[0] != seq!['1', '0'] || parts[1] != seq!['2', '0'] {
        None
    } else {
        match (parse_u32_spec(parts[2]), parse_u32_spec(parts[3])) {
            (Some(third), Some(fourth)) => if third <= 255 && fourth <= 255 {
                Some((third * 256 + fourth) as u32)
            } else {
                None
            },
            _ => None,
        }
    }
}

/// Converts an IP address in the 10.20.x.y range back to a counter value.
/// Returns `None` if the address is not in the expected format, an octet
/// above 255 included.
pub fn ip_to_counter(ip: &str) -> (r: Option<u32>)
    ensures
        r == ip_to_counter_spec(ip@),
{
    let cs = chars_of(ip);
    let parts = split_chars(&cs, '.');
    let ghost pv = char_vec_views(parts@);
    if parts.len() != 4 {
        return None;
    }
    proof {
        assert(pv[0] == parts@[0]@);
        assert(pv[1] == parts@[1]@);
        assert(pv[2] == parts@[2]@);
        assert(pv[3] == parts@[3]@);
    }
    let p0 = &parts[0];
    let p1 = &parts[1];
    let first_ok = p0.len() == 2 && p0[0] == '1' && p0[1] == '0';
    let second_ok = p1.len() == 2 && p1[0] == '2' && p1[1] == '0';
    proof {
        if first_ok {
            assert(p0@ =~= seq!['1', '0']);
        }
        if p0@ == seq!['1', '0'] {
            assert(p0@[0] == '1' && p0@[1] == '0');
        }
        if second_ok {
            assert(p1@ =~= seq!['2', '0']);
        }
        if p1@ == seq!['2', '0'] {
            assert(p1@[0] == '2' && p1@[1] == '0');
        }
    }
    if !first_ok || !second_ok {
        return None;
    }
    let s2 = string_of(&parts[2]);
    let s3 = string_of(&parts[3]);
    let third = match parse_u32(s2.as_str()) {
        Some(v) => v,
        None => return None,
    };
    let fourth = match parse_u32(s3.as_str()) {
        Some(v) => v,
        None => return None,
    };
    if third > 255 || fourth > 255 {
        return None;
    }
    Some(third * 256 + fourth)
}

/// Splitting a concatenation at a separator splits each side.
proof fn lemma_split_on_concat(a: Seq<char>, sep: char, b: Seq<char>)
    ensures
        split_on(a + seq![sep] + b, sep) == split_on(a, sep) + split_on(b, sep),
    decreases b.len(),
{
    lemma_split_on_nonempty(b, sep);
    if b.len() == 0 {
        assert((a + seq![sep] + b).drop_last() =~= a);
        assert(split_on(b, sep) =~= seq![Seq::<char>::empty()]);
        assert(split_on(a + seq![sep] + b, sep) =~= split_on(a, sep) + split_on(b, sep));
    } else {
        let bp = b.drop_last();
        lemma_split_on_concat(a, sep, bp);
        lemma_split_on_nonempty(bp, sep);
        assert((a + seq![sep] + b).drop_last() =~= a + seq![sep] + bp);
        let l = split_on(a, sep);
        let r = split_on(bp, sep);
        if b.last() == sep {
            assert((l + r).push(Seq::<char>::empty()) =~= l + r.push(Seq::<char>::empty()));
        } else {
            assert((l + r).update((l + r).len() - 1, (l + r).last().push(b.last())) =~= l
                + r.update(r.len() - 1, r.last().push(b.last())));
        }
    }
}

/// A separator-free string splits into itself alone.
proof fn lemma_split_on_no_sep(a: Seq<char>, sep: char)
    requires
        forall|i: int| 0 <= i < a.len() ==> a[i] != sep,
    ensures
        split_on(a, sep) == seq![a],
    decreases a.len(),
{
    if a.len() == 0 {
        assert(a =~= Seq::<char>::empty());
        assert(split_on(a, sep) =~= seq![a]);
    } else {
        lemma_split_on_no_sep(a.drop_last(), sep);
        assert(a.drop_last().push(a.last()) =~= a);
        assert(a.last() != sep);
        assert(seq![a.drop_last()].update(0, a.drop_last().push(a.last())) =~= seq![a]);
    }
}

/// A decimal rendering parses back to its number.
proof fn lemma_parse_decimal(n: u32)
    ensures
        parse_u32_spec(decimal(n as nat)) == Some(n),
{
    lemma_decimal_digits(n as nat);
    lemma_decimal_value(n as nat);
    assert(is_digit(decimal(n as nat)[0]));
}

/// Reading back an allocated address gives the counter it came from, for
/// every counter that fits in the sixteen host bits of the network.
pub proof fn lemma_ip_roundtrip(counter: u32)
    requires
        counter < 65536,
    ensures
        ip_to_counter_spec(ip_text(counter)) == Some(counter),
{
    let a = ((counter / 256) % 256) as u32;
    let b = (counter % 256) as u32;
    let da = decimal(a as nat);
    let db = decimal(b as nat);
    lemma_decimal_digits(a as nat);
    lemma_decimal_digits(b as nat);
    assert forall|i: int| 0 <= i < da.len() implies da[i] != '.' by {
        assert(is_digit(da[i]));
    }
    assert forall|i: int| 0 <= i < db.len() implies db[i] != '.' by {
        assert(is_digit(db[i]));
    }
    lemma_split_on_no_sep(da, '.');
    lemma_split_on_no_sep(db, '.');
    lemma_split_on_no_sep(seq!['1', '0'], '.');
    lemma_split_on_no_sep(seq!['2', '0'], '.');
    let ip = ip_text(counter);
    assert(ip =~= seq!['1', '0'] + seq!['.'] + (seq!['2', '0'] + seq!['.'] + (da + seq!['.']
        + db)));
    lemma_split_on_concat(da, '.', db);
    lemma_split_on_concat(seq!['2', '0'], '.', da + seq!['.'] + db);
    lemma_split_on_concat(seq!['1', '0'], '.', seq!['2', '0'] + seq!['.'] + (da + seq!['.'] + db));
    assert(split_on(ip, '.') =~= seq![seq!['1', '0'], seq!['2', '0'], da, db]);
    lemma_parse_decimal(a);
    lemma_parse_decimal(b);
    assert(a * 256 + b == counter);
}

/// The directory path for a given sandbox under the data directory.
pub open spec fn sandbox_dir_spec(data_dir: Seq<char>, sandbox_id: Seq<char>) -> Seq<char> {
    join_spec(join_spec(data_dir, seq!['s', 'a', 'n', 'd', 'b', 'o', 'x', 'e', 's']), sandbox_id)
}

/// Returns the directory path for a given sandbox under the data directory.
pub fn sandbox_dir(data_dir: &str, sandbox_id: &str) -> (r: String)
    ensures
        r@ == sandbox_dir_spec(data_dir@, sandbox_id@),
{
    let sandboxes = "sandboxes";
    proof {
        reveal_strlit("sandboxes");
    }
    let d = join_path(data_dir, sandboxes);
    join_path(d.as_str(), sandbox_id)
}

/// Returns the directory path for a given snapshot under the base storage
/// directory.
pub fn snapshot_dir(base: &str, snapshot_id: &str) -> (r: String)
    ensures
        r@ == join_spec(base@, snapshot_id@),
{
    join_path(base, snapshot_id)
}

/// The files a snapshot directory holds: the VM state, the memory image and
/// the root file system.
pub fn snapshot_files(dir: &str) -> (r: (String, String, String))
    ensures
        r.0@ == join_spec(dir@, "vm_state.bin"@),
        r.1@ == join_spec(dir@, "mem_file.bin"@),
        r.2@ == join_spec(dir@, "rootfs.ext4"@),
{
    (join_path(dir, "vm_state.bin"), join_path(dir, "mem_file.bin"), join_path(dir, "rootfs.ext4"))
}

/// The metadata file of a snapshot directory.
pub fn snapshot_metadata_file(dir: &str) -> (r: String)
    ensures
        r@ == join_spec(dir@, "metadata.json"@),
{
    join_path(dir, "metadata.json")
}

/// Is `c` a lowercase hexadecimal digit?
pub open spec fn is_lower_hex(c: char) -> bool {
    ('0' <= c && c <= '9') || ('a' <= c && c <= 'f')
}

/// A fresh random UUID (version 4) in its simple form: 32 lowercase hex
/// digits.
///
/// Trusted: wraps `uuid::Uuid::new_v4` and `Uuid::as_simple`; claims only the
/// shape of the text, which the crate documents for the simple format. The
/// digits themselves are random.
#[verifier::external_body]
fn uuid_v4_simple() -> (r: String)
    ensures
        r@.len() == 32,
        forall|i: int| 0 <= i < 32 ==> is_lower_hex(#[trigger] r@[i]),
{
    uuid::Uuid::new_v4().as_simple().to_string()
}

/// `prefix` followed by the first twelve characters of `hex`.
pub fn id_from_hex(prefix: &str, hex: &str) -> (r: String)
    requires
        hex@.len() >= 12,
        is_ascii_chars(hex@),
    ensures
        r@ == prefix@ + hex@.take(12),
{
    let cs = chars_of(hex);
    let mut head: Vec<char> = Vec::new();
    let mut i: usize = 0;
    while i < 12
        invariant
            cs@ == hex@,
            hex@.len() >= 12,
            i <= 12,
            head@ =~= hex@.take(i as int),
        decreases 12 - i,
    {
        head.push(cs[i]);
        i = i + 1;
    }
    let tail = string_of(&head);
    let mut r = String::from_str(prefix);
    r.append(tail.as_str());
    r
}

/// Is `s` the given prefix followed by twelve lowercase hex digits?
pub open spec fn is_prefixed_id(s: Seq<char>, prefix: Seq<char>) -> bool {
    s.len() == prefix.len() + 12 && s.take(prefix.len() as int) == prefix && forall|i: int|
        prefix.len() <= i < s.len() ==> is_lower_hex(#[trigger] s[i])
}

/// Generates a sandbox ID: `sbx_` followed by the first 12 hex digits of a
/// random UUID.
pub fn generate_sandbox_id() -> (r: String)
    ensures
        is_prefixed_id(r@, seq!['s', 'b', 'x', '_']),
{
    let hex = uuid_v4_simple();
    proof {
        assert forall|i: int| 0 <= i < hex@.len() implies (hex@[i] as u32) < 128 by {
            assert(is_lower_hex(hex@[i]));
        }
    }
    let prefix = "sbx_";
    proof {
        reveal_strlit("sbx_");
    }
    let r = id_from_hex(prefix, hex.as_str());
    proof {
        assert(r@.take(4) =~= seq!['s', 'b', 'x', '_']);
        assert forall|i: int| 4 <= i < r@.len() implies is_lower_hex(#[trigger] r@[i]) by {
            assert(r@[i] == hex@[i - 4]);
        }
    }
    r
}

/// Generates a snapshot ID: `snap_` followed by the first 12 hex digits of a
/// random UUID.
pub fn generate_snapshot_id() -> (r: String)
    ensures
        is_prefixed_id(r@, seq!['s', 'n', 'a', 'p', '_']),
{
    let hex = uuid_v4_simple();
    proof {
        assert forall|i: int| 0 <= i < hex@.len() implies (hex@[i] as u32) < 128 by {
            assert(is_lower_hex(hex@[i]));
        }
    }
    let prefix = "snap_";
    proof {
        reveal_strlit("snap_");
    }
    let r = id_from_hex(prefix, hex.as_str());
    proof {
        assert(r@.take(5) =~= seq!['s', 'n', 'a', 'p', '_']);
        assert forall|i: int| 5 <= i < r@.len() implies is_lower_hex(#[trigger] r@[i]) by {
            assert(r@[i] == hex@[i - 5]);
        }
    }
    r
}

} // verus!
