//! The supervisor's command line: the tables it prints, the prompt of its
//! line shell, and the checks it makes on the API's answers.
use vstd::prelude::*;
use vstd::string::StringExecFns;
use vstd::string::StringSliceAdditionalSpecFns;
use vstd::utf8::{
    decode_utf8, encode_utf8, encode_utf8_decode_utf8, encode_utf8_valid_utf8, is_char_boundary,
    is_char_boundary_iff_not_is_continuation_byte, is_char_boundary_start_end_of_seq, valid_utf8,
    valid_utf8_split,
};
use crate::text::{chars_of, string_of};

verus! {

/// `n` spaces.
pub open spec fn spaces(n: nat) -> Seq<char> {
    Seq::new(n, |i: int| ' ')
}

/// The text left-aligned in a column of `width` characters: padded with
/// spaces up to the width, never cut.
pub open spec fn pad_right_spec(s: Seq<char>, width: nat) -> Seq<char> {
    if s.len() < width { s + spaces((width - s.len()) as nat) } else { s }
}

/// The text left-aligned in a column of `width` characters.
pub fn pad_right(s: &str, width: usize) -> (r: String)
    ensures
        r@ == pad_right_spec(s@, width as nat),
{
    let mut cs = chars_of(s);
    let ghost start = cs@;
    while cs.len() < width
        invariant
            start == s@,
            cs@.len() >= start.len(),
            cs@.len() <= (if start.len() < width { width as nat } else { start.len() }),
            cs@ == start + spaces((cs@.len() - start.len()) as nat),
        decreases width - cs.len(),
    {
        let ghost before = cs@;
        cs.push(' ');
        proof {
            assert(cs@ =~= start + spaces((cs@.len() - start.len()) as nat));
        }
    }
    proof {
        if s@.len() >= width {
            assert(spaces(0) =~= Seq::<char>::empty());
            assert(cs@ =~= s@);
        } else {
            assert(cs@.len() == width);
        }
    }
    string_of(&cs)
}

/// One line of a four-column table: the first three columns padded to
/// their widths, each followed by a space, then the last.
pub open spec fn row_spec(a: Seq<char>, wa: nat, b: Seq<char>, wb: nat, c: Seq<char>, wc: nat, d: Seq<char>) -> Seq<char> {
    pad_right_spec(a, wa) + " "@ + pad_right_spec(b, wb) + " "@ + pad_right_spec(c, wc) + " "@ + d
}

fn row(a: &str, wa: usize, b: &str, wb: usize, c: &str, wc: usize, d: &str) -> (r: String)
    ensures
        r@ == row_spec(a@, wa as nat, b@, wb as nat, c@, wc as nat, d@),
{
    let mut r = pad_right(a, wa);
    r.append(" ");
    r.append(pad_right(b, wb).as_str());
    r.append(" ");
    r.append(pad_right(c, wc).as_str());
    r.append(" ");
    r.append(d);
    r
}

/// A line of the sandbox list: id, status, address and creation time.
pub fn sandbox_row(id: &str, status: &str, ip: &str, created: &str) -> (r: String)
    ensures
        r@ == row_spec(id@, 20, status@, 10, ip@, 16, created@),
{
    row(id, 20, status, 10, ip, 16, created)
}

/// The heading of the sandbox list.
pub fn sandbox_header() -> (r: String)
    ensures
        r@ == row_spec("ID"@, 20, "STATUS"@, 10, "IP"@, 16, "CREATED"@),
{
    sandbox_row("ID", "STATUS", "IP", "CREATED")
}

/// A line of the snapshot list: id, source sandbox, status and creation
/// time.
pub fn snapshot_row(id: &str, source: &str, status: &str, created: &str) -> (r: String)
    ensures
        r@ == row_spec(id@, 20, source@, 20, status@, 10, created@),
{
    row(id, 20, source, 20, status, 10, created)
}

/// The heading of the snapshot list.
pub fn snapshot_header() -> (r: String)
    ensures
        r@ == row_spec("ID"@, 20, "SOURCE"@, 20, "STATUS"@, 10, "CREATED"@),
{
    snapshot_row("ID", "SOURCE", "STATUS", "CREATED")
}

/// A shell can only be opened in a running sandbox.
pub fn check_connectable(id: &str, status: &str) -> (r: Result<(), String>)
    ensures
        status@ == "running"@ ==> r is Ok,
        status@ != "running"@ ==> (r matches Err(m) && m@ == "Sandbox "@ + id@ + " is not running (status: "@ + status@ + ")"@),
{
    if crate::rpc::str_is(status, "running") {
        Ok(())
    } else {
        let mut m = String::from_str("Sandbox ");
        m.append(id);
        m.append(" is not running (status: ");
        m.append(status);
        m.append(")");
        Err(m)
    }
}

/// Where the prompt's part of an id ends: byte 12, or the end of a shorter
/// id.
pub open spec fn prompt_end(id: Seq<char>) -> int {
    let n = encode_utf8(id).len() as int;
    if n < 12 { n } else { 12 }
}

/// The prompt of the line shell: `zerobox:`, the id's bytes from the fifth
/// up to the twelfth (fewer for a shorter id), and `$ `.
pub open spec fn prompt_spec(id: Seq<char>) -> Seq<char> {
    "zerobox:"@ + decode_utf8(encode_utf8(id).subrange(4, prompt_end(id))) + "$ "@
}

/// A character boundary of a text is one of each prefix that reaches it.
proof fn lemma_boundary_in_prefix(b: Seq<u8>, e: int, i: int)
    requires
        valid_utf8(b),
        0 <= i <= e <= b.len(),
        is_char_boundary(b, e),
        is_char_boundary(b, i),
    ensures
        is_char_boundary(b.subrange(0, e), i),
{
    let p = b.subrange(0, e);
    valid_utf8_split(b, e);
    if i == e {
        is_char_boundary_start_end_of_seq(p);
    } else {
        is_char_boundary_iff_not_is_continuation_byte(b, i);
        is_char_boundary_iff_not_is_continuation_byte(p, i);
        assert(p[i] == b[i]);
    }
}

/// The prompt of the line shell for a sandbox id. The id's part is cut at
/// bytes 4 and 12 (or its end), so the id must be at least four bytes long
/// and both cuts must fall between characters, as for the ids the
/// supervisor makes (ASCII).
pub fn prompt(id: &str) -> (r: String)
    requires
        4 <= prompt_end(id@),
        is_char_boundary(encode_utf8(id@), 4),
        is_char_boundary(encode_utf8(id@), prompt_end(id@)),
    ensures
        r@ == prompt_spec(id@),
{
    let n = id.as_bytes().len();
    let end: usize = if n < 12 { n } else { 12 };
    let ghost b = encode_utf8(id@);
    proof {
        assert(id.spec_bytes() == b);
        assert(end == prompt_end(id@));
        encode_utf8_valid_utf8(id@);
        lemma_boundary_in_prefix(b, end as int, 4);
    }
    let (head, _rest) = id.split_at(end);
    let (_lead, part) = head.split_at(4);
    proof {
        assert(part.spec_bytes() =~= b.subrange(4, end as int));
        encode_utf8_decode_utf8(part@);
    }
    let mut r = String::from_str("zerobox:");
    r.append(part);
    r.append("$ ");
    r
}

/// The exit code a finished command passes on: its own when it is not 0
/// (as the low 32 bits); none when it is 0 or unknown.
pub fn passed_exit_code(exit_code: Option<i64>) -> (r: Option<i32>)
    ensures
        match exit_code {
            Some(c) => if c != 0 { r == Some(c as i32) } else { r is None },
            None => r is None,
        },
{
    match exit_code {
        Some(c) => if c != 0 { Some(c as i32) } else { None },
        None => None,
    }
}

/// The interface NAT goes out through: the configured one, or none to
/// detect when the configuration says `auto`.
pub fn configured_outbound_interface(configured: &str) -> (r: Option<String>)
    ensures
        configured@ == "auto"@ ==> r is None,
        configured@ != "auto"@ ==> (r matches Some(i) && i@ == configured@),
{
    if crate::rpc::str_is(configured, "auto") {
        None
    } else {
        Some(String::from_str(configured))
    }
}

} // verus!
