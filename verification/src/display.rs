//! How snapshot results are shown: shortened command lines, change counts
//! and the terminal colours around them.
use vstd::prelude::*;
use vstd::string::StringExecFns;
use crate::snapshot_types::{Change, ChangeType};
use crate::text::{chars_of, decimal, join_strings, joined, string_of, string_views, u64_to_decimal};

verus! {

/// `s` between an ANSI start sequence and the reset sequence.
pub open spec fn painted(start: Seq<char>, s: Seq<char>) -> Seq<char> {
    start + s + "\x1b[0m"@
}

/// Wraps `s` in the dim style.
pub fn dim(s: &str) -> (r: String)
    ensures
        r@ == painted("\x1b[2m"@, s@),
{
    let mut out = String::from_str("\x1b[2m");
    out.append(s);
    out.append("\x1b[0m");
    out
}

/// Wraps `s` in green.
pub fn green(s: &str) -> (r: String)
    ensures
        r@ == painted("\x1b[32m"@, s@),
{
    let mut out = String::from_str("\x1b[32m");
    out.append(s);
    out.append("\x1b[0m");
    out
}

/// Wraps `s` in yellow.
pub fn yellow(s: &str) -> (r: String)
    ensures
        r@ == painted("\x1b[33m"@, s@),
{
    let mut out = String::from_str("\x1b[33m");
    out.append(s);
    out.append("\x1b[0m");
    out
}

/// Wraps `s` in red.
pub fn red(s: &str) -> (r: String)
    ensures
        r@ == painted("\x1b[31m"@, s@),
{
    let mut out = String::from_str("\x1b[31m");
    out.append(s);
    out.append("\x1b[0m");
    out
}

/// Whether text is an RFC 3339 timestamp.
pub uninterp spec fn rfc3339_parses(text: Seq<char>) -> bool;

/// The instant an RFC 3339 timestamp names, written `YYYY-MM-DD HH:MM` in
/// UTC (chrono's `format("%Y-%m-%d %H:%M")` of the parsed instant).
pub uninterp spec fn rfc3339_minute_text(text: Seq<char>) -> Seq<char>;

/// Reads an RFC 3339 timestamp and measures it against the clock: the whole
/// seconds elapsed since then, and the instant as `YYYY-MM-DD HH:MM` in UTC.
///
/// Trusted: wraps `chrono::DateTime::parse_from_rfc3339` (then
/// `with_timezone(&Utc)`), `Utc::now`, `signed_duration_since`,
/// `TimeDelta::num_seconds` and `format("%Y-%m-%d %H:%M")`; `DateTime` is a
/// generic outside type that stays inside this one call. Claims that it
/// answers exactly for the texts the parser accepts, with the UTC minute
/// text, which depends on the text alone. The elapsed seconds depend on the
/// clock and are not stated.
#[verifier::external_body]
fn elapsed_since_rfc3339(text: &str) -> (r: Option<(i64, String)>)
    ensures
        r is Some == rfc3339_parses(text@),
        r matches Some(p) ==> p.1@ == rfc3339_minute_text(text@),
{
    match chrono::DateTime::parse_from_rfc3339(text) {
        Ok(dt) => {
            let dt = dt.with_timezone(&chrono::Utc);
            let elapsed = chrono::Utc::now().signed_duration_since(dt).num_seconds();
            Some((elapsed, dt.format("%Y-%m-%d %H:%M").to_string()))
        },
        Err(_) => None,
    }
}

/// How long ago something happened, from the whole seconds elapsed: `just
/// now` within the minute, then minutes, hours and days (each rounded
/// down), and the absolute time for the future or from a week on.
pub open spec fn relative_label_spec(elapsed: int, absolute: Seq<char>) -> Seq<char> {
    if elapsed < 0 {
        absolute
    } else if elapsed / 60 < 1 {
        "just now"@
    } else if elapsed / 60 < 60 {
        decimal((elapsed / 60) as nat) + "m ago"@
    } else if elapsed / 3600 < 24 {
        decimal((elapsed / 3600) as nat) + "h ago"@
    } else if elapsed / 86400 < 7 {
        decimal((elapsed / 86400) as nat) + "d ago"@
    } else {
        absolute
    }
}

/// The relative label for `elapsed` seconds, or `absolute` when none fits.
pub fn relative_label(elapsed: i64, absolute: String) -> (r: String)
    ensures
        r@ == relative_label_spec(elapsed as int, absolute@),
{
    if elapsed < 0 {
        return absolute;
    }
    let minutes = elapsed / 60;
    if minutes < 1 {
        return String::from_str("just now");
    }
    if minutes < 60 {
        let mut s = u64_to_decimal(minutes as u64);
        s.append("m ago");
        return s;
    }
    let hours = elapsed / 3600;
    if hours < 24 {
        let mut s = u64_to_decimal(hours as u64);
        s.append("h ago");
        return s;
    }
    let days = elapsed / 86400;
    if days < 7 {
        let mut s = u64_to_decimal(days as u64);
        s.append("d ago");
        return s;
    }
    absolute
}

/// When a session started, relative to now; the text itself when it is not
/// an RFC 3339 timestamp.
pub fn format_relative_time(started: &str) -> (r: String)
    ensures
        !rfc3339_parses(started@) ==> r@ == started@,
        rfc3339_parses(started@) ==> exists|elapsed: int|
            r@ == relative_label_spec(elapsed, rfc3339_minute_text(started@)),
{
    let (elapsed, absolute) = match elapsed_since_rfc3339(started) {
        Some(p) => p,
        None => return String::from_str(started),
    };
    let ghost abs_view = absolute@;
    let r = relative_label(elapsed, absolute);
    proof {
        assert(r@ == relative_label_spec(elapsed as int, abs_view));
    }
    r
}

/// The UTF-8 length of a character sequence in bytes.
pub open spec fn utf8_len(s: Seq<char>) -> nat {
    vstd::utf8::encode_utf8(s).len()
}

/// A command line shortened to at most `max` bytes: the words joined by
/// spaces, or, when that is longer than `max`, its first `max - 3`
/// characters (0 when `max < 3`) followed by `...`.
pub open spec fn truncated_command(words: Seq<Seq<char>>, max: nat) -> Seq<char> {
    let full = joined(words, " "@);
    if utf8_len(full) <= max {
        full
    } else {
        let limit: int = if max >= 3 { max - 3 } else { 0 };
        let keep: int = if limit <= full.len() { limit } else { full.len() as int };
        full.take(keep) + "..."@
    }
}

/// Shortens a command line for display.
pub fn truncate_command(command: &[String], max: usize) -> (r: String)
    ensures
        r@ == truncated_command(string_views(command@), max as nat),
{
    let full = join_strings(command, " ");
    if full.as_str().as_bytes().len() <= max {
        return full;
    }
    let limit = max.saturating_sub(3);
    let cs = chars_of(full.as_str());
    let mut kept: Vec<char> = Vec::new();
    let mut i: usize = 0;
    while i < limit && i < cs.len()
        invariant
            i <= cs@.len(),
            i <= limit,
            kept@ == cs@.take(i as int),
        decreases cs.len() - i,
    {
        kept.push(cs[i]);
        i = i + 1;
    }
    proof {
        assert(limit as int == if max >= 3 { max - 3 } else { 0 });
    }
    let mut out = string_of(&kept);
    out.append("...");
    out
}

/// How many of the kinds are creations.
pub open spec fn count_created(s: Seq<ChangeType>) -> nat
    decreases s.len(),
{
    if s.len() == 0 {
        0
    } else {
        count_created(s.drop_last()) + if s.last() == ChangeType::Created { 1nat } else { 0nat }
    }
}

/// How many of the kinds are modifications; a permissions change counts as
/// one.
pub open spec fn count_modified(s: Seq<ChangeType>) -> nat
    decreases s.len(),
{
    if s.len() == 0 {
        0
    } else {
        count_modified(s.drop_last()) + if s.last() == ChangeType::Modified || s.last()
            == ChangeType::PermissionsChanged { 1nat } else { 0nat }
    }
}

/// How many of the kinds are deletions.
pub open spec fn count_deleted(s: Seq<ChangeType>) -> nat
    decreases s.len(),
{
    if s.len() == 0 {
        0
    } else {
        count_deleted(s.drop_last()) + if s.last() == ChangeType::Deleted { 1nat } else { 0nat }
    }
}

/// The kinds of a list of changes.
pub open spec fn kinds(changes: Seq<Change>) -> Seq<ChangeType> {
    changes.map_values(|c: Change| c.change_type)
}

/// One counter: its marker and number, coloured when asked.
pub open spec fn count_part(marker: char, n: nat, color: bool, start: Seq<char>) -> Seq<char> {
    let s = seq![marker] + decimal(n);
    if color { painted(start, s) } else { s }
}

/// The non-zero counters, in the order created, modified, deleted.
pub open spec fn count_parts(created: nat, modified: nat, deleted: nat, color: bool) -> Seq<Seq<char>> {
    (if created > 0 { seq![count_part('+', created, color, "\x1b[32m"@)] } else { Seq::empty() })
        + (if modified > 0 { seq![count_part('~', modified, color, "\x1b[33m"@)] } else { Seq::empty() })
        + (if deleted > 0 { seq![count_part('-', deleted, color, "\x1b[31m"@)] } else { Seq::empty() })
}

/// The summary line of a list of changes: `(no changes)` when it is empty,
/// else `+created ~modified -deleted` with the zero counters left out.
pub open spec fn change_counts_text(changes: Seq<Change>, color: bool) -> Seq<char> {
    if changes.len() == 0 {
        if color { painted("\x1b[2m"@, "(no changes)"@) } else { "(no changes)"@ }
    } else {
        let k = kinds(changes);
        joined(count_parts(count_created(k), count_modified(k), count_deleted(k), color), " "@)
    }
}

/// Summarises changes as counts per kind, without colour.
pub fn format_change_counts(changes: &[Change]) -> (r: String)
    ensures
        r@ == change_counts_text(changes@, false),
{
    format_change_counts_inner(changes, false)
}

/// Summarises changes as counts per kind, in colour.
pub fn format_change_counts_colored(changes: &[Change]) -> (r: String)
    ensures
        r@ == change_counts_text(changes@, true),
{
    format_change_counts_inner(changes, true)
}

/// One counter as text.
fn counter_text(marker: &str, n: usize, color: bool, start: &str) -> (r: String)
    requires
        marker@.len() == 1,
    ensures
        r@ == count_part(marker@[0], n as nat, color, start@),
{
    let mut s = String::from_str(marker);
    s.append(u64_to_decimal(n as u64).as_str());
    proof {
        assert(marker@ =~= seq![marker@[0]]);
    }
    if color {
        let mut out = String::from_str(start);
        out.append(s.as_str());
        out.append("\x1b[0m");
        out
    } else {
        s
    }
}

fn format_change_counts_inner(changes: &[Change], color: bool) -> (r: String)
    ensures
        r@ == change_counts_text(changes@, color),
{
    if changes.len() == 0 {
        return if color {
            dim("(no changes)")
        } else {
            String::from_str("(no changes)")
        };
    }
    let mut created: usize = 0;
    let mut modified: usize = 0;
    let mut deleted: usize = 0;
    let mut i: usize = 0;
    while i < changes.len()
        invariant
            i <= changes@.len(),
            created == count_created(kinds(changes@).take(i as int)),
            modified == count_modified(kinds(changes@).take(i as int)),
            deleted == count_deleted(kinds(changes@).take(i as int)),
            created + modified + deleted <= i,
        decreases changes.len() - i,
    {
        proof {
            let k = kinds(changes@);
            assert(k.take(i + 1).drop_last() =~= k.take(i as int));
            assert(k.take(i + 1).last() == changes@[i as int].change_type);
        }
        match changes[i].change_type {
            ChangeType::Created => created = created + 1,
            ChangeType::Modified | ChangeType::PermissionsChanged => modified = modified + 1,
            ChangeType::Deleted => deleted = deleted + 1,
        }
        i = i + 1;
    }
    proof {
        assert(kinds(changes@).take(changes@.len() as int) =~= kinds(changes@));
    }
    let mut parts: Vec<String> = Vec::new();
    proof {
        reveal_strlit("+");
        reveal_strlit("~");
        reveal_strlit("-");
    }
    if created > 0 {
        parts.push(counter_text("+", created, color, "\x1b[32m"));
    }
    if modified > 0 {
        parts.push(counter_text("~", modified, color, "\x1b[33m"));
    }
    if deleted > 0 {
        parts.push(counter_text("-", deleted, color, "\x1b[31m"));
    }
    proof {
        assert(string_views(parts@) =~= count_parts(created as nat, modified as nat, deleted as nat, color));
    }
    join_strings(parts.as_slice(), " ")
}

/// An empty list of changes reads `(no changes)`, and a non-empty one never
/// does: each change is counted under exactly one kind.
pub proof fn lemma_counts_cover_all(s: Seq<ChangeType>)
    ensures
        count_created(s) + count_modified(s) + count_deleted(s) == s.len(),
    decreases s.len(),
{
    if s.len() > 0 {
        lemma_counts_cover_all(s.drop_last());
    }
}

} // verus!
