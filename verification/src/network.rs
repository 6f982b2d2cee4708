//! Host-side networking decisions: tap device names and host port
//! allocation from a configured range.
use vstd::prelude::*;
use vstd::string::StringExecFns;
use vstd::utf8::{
    decode_utf8, encode_utf8, encode_utf8_valid_utf8, is_char_boundary, length_of_first_scalar, pop_first_scalar, valid_utf8,
    valid_utf8_split,
};
use vstd::string::StringSliceAdditionalSpecFns;
use std::sync::atomic::AtomicU32;
use std::sync::atomic::Ordering;
use crate::config::NetworkingConfig;
use crate::text::{chars_of, char_vec_views, parse_u32, parse_u32_spec, split_chars, split_on, string_of};

verus! {

/// The sandbox id without its `sbx_` prefix, if it has one.
pub open spec fn tap_short(id: Seq<char>) -> Seq<char> {
    if id.len() >= 4 && id.take(4) == seq!['s', 'b', 'x', '_'] {
        id.skip(4)
    } else {
        id
    }
}

/// How many bytes of the short id a tap name keeps: at most eight.
pub open spec fn tap_cut(id: Seq<char>) -> int {
    let n = encode_utf8(tap_short(id)).len() as int;
    if n < 8 { n } else { 8 }
}

/// The tap device name for a sandbox: `tap-` and the first eight bytes of
/// the id after its `sbx_` prefix, which keeps the name within Linux's
/// fifteen-character interface names.
pub open spec fn tap_name_spec(id: Seq<char>) -> Seq<char> {
    seq!['t', 'a', 'p', '-'] + decode_utf8(encode_utf8(tap_short(id)).take(tap_cut(id)))
}

/// Decoding UTF-8 never gives more characters than there were bytes.
proof fn lemma_decode_len(bytes: Seq<u8>)
    requires
        valid_utf8(bytes),
    ensures
        decode_utf8(bytes).len() <= bytes.len(),
    decreases bytes.len(),
{
    if bytes.len() > 0 {
        assert(length_of_first_scalar(bytes) >= 1);
        let rest = pop_first_scalar(bytes);
        assert(rest.len() == bytes.len() - length_of_first_scalar(bytes));
        lemma_decode_len(rest);
    }
}

/// A tap name is at most twelve characters, `tap-` and at most eight more:
/// within Linux's fifteen-character limit on interface names.
pub proof fn lemma_tap_name_short(id: Seq<char>)
    requires
        is_char_boundary(encode_utf8(tap_short(id)), tap_cut(id)),
    ensures
        tap_name_spec(id).len() <= 12,
{
    let b = encode_utf8(tap_short(id));
    encode_utf8_valid_utf8(tap_short(id));
    valid_utf8_split(b, tap_cut(id));
    assert(b.take(tap_cut(id)) =~= b.subrange(0, tap_cut(id)));
    lemma_decode_len(b.take(tap_cut(id)));
}

/// Generates a tap device name from a sandbox ID.
pub fn tap_name(sandbox_id: &str) -> (r: String)
    requires
        is_char_boundary(encode_utf8(tap_short(sandbox_id@)), tap_cut(sandbox_id@)),
    ensures
        r@ == tap_name_spec(sandbox_id@),
{
    let cs = chars_of(sandbox_id);
    let strip = cs.len() >= 4 && cs[0] == 's' && cs[1] == 'b' && cs[2] == 'x' && cs[3] == '_';
    let mut rest: Vec<char> = Vec::new();
    let start: usize = if strip { 4 } else { 0 };
    let mut i: usize = start;
    while i < cs.len()
        invariant
            start <= i <= cs@.len(),
            rest@ =~= cs@.subrange(start as int, i as int),
        decreases cs.len() - i,
    {
        rest.push(cs[i]);
        i = i + 1;
    }
    proof {
        if strip {
            assert(cs@.take(4) =~= seq!['s', 'b', 'x', '_']);
            assert(rest@ =~= sandbox_id@.skip(4));
        } else {
            if sandbox_id@.len() >= 4 && sandbox_id@.take(4) == seq!['s', 'b', 'x', '_'] {
                assert(sandbox_id@.take(4)[0] == 's');
                assert(sandbox_id@.take(4)[1] == 'b');
                assert(sandbox_id@.take(4)[2] == 'x');
                assert(sandbox_id@.take(4)[3] == '_');
            }
            assert(rest@ =~= sandbox_id@);
        }
    }
    let short = string_of(&rest);
    let short_str = short.as_str();
    let n = short_str.as_bytes().len();
    let cut = if n < 8 { n } else { 8 };
    proof {
        assert(short_str@ == tap_short(sandbox_id@));
        assert(short_str.spec_bytes() == encode_utf8(tap_short(sandbox_id@)));
        assert(cut == tap_cut(sandbox_id@));
    }
    let (head, _tail) = short_str.split_at(cut);
    proof {
        vstd::utf8::encode_utf8_decode_utf8(head@);
        assert(encode_utf8(head@) =~= encode_utf8(tap_short(sandbox_id@)).take(cut as int));
    }
    let mut r = String::from_str("tap-");
    r.append(head);
    proof {
        reveal_strlit("tap-");
    }
    r
}

/// Why a host port could not be allocated.
#[derive(Debug, Clone, PartialEq, Eq)]
pub enum PortError {
    /// The range is not two `-`-separated parts.
    InvalidFormat,
    /// The start of the range is not a `u32`.
    InvalidStart,
    /// The end of the range is not a `u32`.
    InvalidEnd,
    /// The start lies after the end.
    StartAfterEnd,
    /// Every port of the range has been handed out.
    Exhausted,
}

/// The bounds a `start-end` range text stands for.
pub open spec fn port_range_spec(range: Seq<char>) -> Result<(u32, u32), PortError> {
    let parts = split_on(range, '-');
    if parts.len() != 2 {
        Err(PortError::InvalidFormat)
    } else {
        match parse_u32_spec(parts[0]) {
            None => Err(PortError::InvalidStart),
            Some(start) => match parse_u32_spec(parts[1]) {
                None => Err(PortError::InvalidEnd),
                Some(end) => if start > end {
                    Err(PortError::StartAfterEnd)
                } else {
                    Ok((start, end))
                },
            },
        }
    }
}

/// Parses a `start-end` port range.
pub fn parse_port_range(range: &str) -> (r: Result<(u32, u32), PortError>)
    ensures
        r == port_range_spec(range@),
{
    let cs = chars_of(range);
    let parts = split_chars(&cs, '-');
    let ghost pv = char_vec_views(parts@);
    if parts.len() != 2 {
        return Err(PortError::InvalidFormat);
    }
    proof {
        assert(pv[0] == parts@[0]@);
        assert(pv[1] == parts@[1]@);
    }
    let s0 = string_of(&parts[0]);
    let s1 = string_of(&parts[1]);
    let start = match parse_u32(s0.as_str()) {
        Some(v) => v,
        None => return Err(PortError::InvalidStart),
    };
    let end = match parse_u32(s1.as_str()) {
        Some(v) => v,
        None => return Err(PortError::InvalidEnd),
    };
    if start > end {
        return Err(PortError::StartAfterEnd);
    }
    Ok((start, end))
}

/// The port handed out for the `offset`-th allocation of a range: the start
/// plus the offset as a 16-bit port, while that stays within the range.
pub open spec fn port_at_spec(start: u32, end: u32, offset: u32) -> Result<u16, PortError> {
    if start + offset > end {
        Err(PortError::Exhausted)
    } else {
        Ok(((start + offset) % 65536) as u16)
    }
}

/// The port for the `offset`-th allocation of the range `start..=end`.
pub fn port_at(start: u32, end: u32, offset: u32) -> (r: Result<u16, PortError>)
    ensures
        r == port_at_spec(start, end, offset),
{
    if offset > end || start > end - offset {
        return Err(PortError::Exhausted);
    }
    let port = start + offset;
    Ok((port % 65536) as u16)
}

/// What an allocation from `range` can answer, whatever the shared counter
/// held: the range's parse error, or the answer for some offset.
pub open spec fn allocation_outcome(range: Seq<char>, r: Result<u16, PortError>) -> bool {
    match port_range_spec(range) {
        Err(e) => r == Err::<u16, PortError>(e),
        Ok((start, end)) => exists|offset: u32| r == port_at_spec(start, end, offset),
    }
}

/// Parses a port range (e.g. `30000-40000`) and hands out its next port,
/// taking the offset from a shared counter that every call advances.
pub fn allocate_host_port(range: &str, counter: &AtomicU32) -> (r: Result<u16, PortError>)
    ensures
        allocation_outcome(range@, r),
{
    let (start, end) = match parse_port_range(range) {
        Ok(bounds) => bounds,
        Err(e) => return Err(e),
    };
    let offset = counter.fetch_add(1, Ordering::Relaxed);
    let r = port_at(start, end, offset);
    proof {
        assert(r == port_at_spec(start, end, offset));
    }
    r
}

/// A port handed out lies in its range (for ranges within the 16-bit
/// ports).
pub proof fn lemma_allocated_port_in_range(range: Seq<char>, r: Result<u16, PortError>, start: u32, end: u32)
    requires
        allocation_outcome(range, r),
        port_range_spec(range) == Ok::<(u32, u32), PortError>((start, end)),
        end <= 65535,
        r is Ok,
    ensures
        start <= r->Ok_0 <= end,
{
    let offset = choose|offset: u32| r == port_at_spec(start, end, offset);
    assert(start + offset <= end);
}

/// The host networking state: its configuration and the shared counter
/// from which host ports are handed out.
pub struct NetworkManager {
    pub config: NetworkingConfig,
    pub port_counter: AtomicU32,
}

impl NetworkManager {
    /// A manager for `config` whose port counter starts at zero.
    pub fn new(config: NetworkingConfig) -> (r: Self)
        ensures
            r.config == config,
    {
        NetworkManager { config, port_counter: AtomicU32::new(0) }
    }

    /// Hands out the next host port from the configured range.
    pub fn next_host_port(&self) -> (r: Result<u16, PortError>)
        ensures
            allocation_outcome(self.config.host_port_range@, r),
    {
        allocate_host_port(self.config.host_port_range.as_str(), &self.port_counter)
    }
}

} // verus!
