//! Sandbox bookkeeping that the supervisor decides on its own: the error
//! kinds it answers with, the pool of guest addresses, and the timeout rule.
use vstd::prelude::*;
use vstd::string::StringExecFns;
use crate::text::u64_to_decimal;
use crate::lifecycle::{allocate_ip, ip_text, ip_to_counter, ip_to_counter_spec, lemma_ip_roundtrip};

verus! {

/// Why a sandbox operation failed.
#[derive(Debug, Clone, PartialEq, Eq)]
pub enum SandboxError {
    /// No sandbox has this id.
    NotFound(String),
    /// The sandbox is not in a state that allows the operation.
    InvalidState(String),
    /// Anything else, with its message.
    Internal(String),
}

/// Why a snapshot operation failed.
#[derive(Debug, Clone, PartialEq, Eq)]
pub enum SnapshotError {
    /// No snapshot has this id.
    NotFound(String),
    /// Anything else, with its message.
    Internal(String),
}

/// The error an HTTP handler answers with.
#[derive(Debug, Clone, PartialEq, Eq)]
pub enum ApiError {
    NotFound(String),
    BadRequest(String),
    Internal(String),
}

impl ApiError {
    /// The HTTP status of this error.
    pub open spec fn status_spec(&self) -> u16 {
        match self {
            ApiError::NotFound(_) => 404,
            ApiError::BadRequest(_) => 400,
            ApiError::Internal(_) => 500,
        }
    }

    /// The HTTP status code this error is answered with.
    pub fn status_code(&self) -> (r: u16)
        ensures
            r == self.status_spec(),
    {
        match self {
            ApiError::NotFound(_) => 404,
            ApiError::BadRequest(_) => 400,
            ApiError::Internal(_) => 500,
        }
    }

    /// The message carried by this error.
    pub fn message(&self) -> (r: &String)
        ensures
            match self {
                ApiError::NotFound(m) => r == m,
                ApiError::BadRequest(m) => r == m,
                ApiError::Internal(m) => r == m,
            },
    {
        match self {
            ApiError::NotFound(m) => m,
            ApiError::BadRequest(m) => m,
            ApiError::Internal(m) => m,
        }
    }

    /// A sandbox error as the API reports it: a missing sandbox is 404, a
    /// wrong state is 400, anything else is 500; the message is kept.
    pub fn from_sandbox_error(err: SandboxError) -> (r: ApiError)
        ensures
            r == match err {
                SandboxError::NotFound(m) => ApiError::NotFound(m),
                SandboxError::InvalidState(m) => ApiError::BadRequest(m),
                SandboxError::Internal(m) => ApiError::Internal(m),
            },
    {
        match err {
            SandboxError::NotFound(m) => ApiError::NotFound(m),
            SandboxError::InvalidState(m) => ApiError::BadRequest(m),
            SandboxError::Internal(m) => ApiError::Internal(m),
        }
    }

    /// A snapshot error as the API reports it: a missing snapshot is 404,
    /// anything else is 500; the message is kept.
    pub fn from_snapshot_error(err: SnapshotError) -> (r: ApiError)
        ensures
            r == match err {
                SnapshotError::NotFound(m) => ApiError::NotFound(m),
                SnapshotError::Internal(m) => ApiError::Internal(m),
            },
    {
        match err {
            SnapshotError::NotFound(m) => ApiError::NotFound(m),
            SnapshotError::Internal(m) => ApiError::Internal(m),
        }
    }
}

/// The query of a file read.
#[derive(Debug, Clone)]
pub struct ReadFileQuery {
    pub path: String,
}

/// The answer when a file to read does not exist.
pub fn file_not_found(path: &str) -> (r: ApiError)
    ensures
        r matches ApiError::NotFound(m) && m@ == "File not found: "@ + path@,
{
    let mut m = String::from_str("File not found: ");
    m.append(path);
    ApiError::NotFound(m)
}

/// The highest counter the pool hands out fresh.
pub open spec fn max_fresh_counter() -> u32 {
    65534
}

/// One allocation on the pool's counters `(next, free)`: the counters
/// afterwards and the counter handed out, or `None` when the fresh counters
/// are used up and nothing was released.
pub open spec fn pool_allocate(next: u32, free: Seq<u32>) -> (u32, Seq<u32>, Option<u32>) {
    if free.len() > 0 {
        (next, free.drop_last(), Some(free.last()))
    } else if next > max_fresh_counter() {
        (next, free, None)
    } else {
        ((next + 1) as u32, free, Some(next))
    }
}

/// The pool of guest addresses in 10.20.0.0/16. Fresh counters start at 2
/// (skipping the network and gateway addresses); released addresses are
/// handed out again, most recently released first.
pub struct IpPool {
    next_counter: u32,
    free_list: Vec<u32>,
}

impl IpPool {
    /// The next counter that would be handed out fresh.
    pub closed spec fn next(&self) -> u32 {
        self.next_counter
    }

    /// The released counters, the next to be reused last.
    pub closed spec fn free(&self) -> Seq<u32> {
        self.free_list@
    }

    /// An empty pool: nothing released, the first fresh counter is 2.
    pub fn new() -> (r: Self)
        ensures
            r.next() == 2,
            r.free() == Seq::<u32>::empty(),
    {
        IpPool { next_counter: 2, free_list: Vec::new() }
    }

    /// Hands out an address: the most recently released one if any, else
    /// the next fresh counter, unless the fresh counters are used up.
    pub fn allocate(&mut self) -> (r: Result<String, SandboxError>)
        ensures
            old(self).free().len() > 0 ==> {
                &&& r is Ok
                &&& r->Ok_0@ == ip_text(old(self).free().last())
                &&& final(self).free() == old(self).free().drop_last()
                &&& final(self).next() == old(self).next()
            },
            old(self).free().len() == 0 && old(self).next() > max_fresh_counter() ==> {
                &&& r matches Err(SandboxError::Internal(_))
                &&& final(self).free() == old(self).free()
                &&& final(self).next() == old(self).next()
            },
            old(self).free().len() == 0 && old(self).next() <= max_fresh_counter() ==> {
                &&& r is Ok
                &&& r->Ok_0@ == ip_text(old(self).next())
                &&& final(self).free() == old(self).free()
                &&& final(self).next() == old(self).next() + 1
            },
            ({
                let (n, f, c) = pool_allocate(old(self).next(), old(self).free());
                &&& final(self).next() == n
                &&& final(self).free() == f
                &&& match c {
                    Some(k) => r is Ok && r->Ok_0@ == ip_text(k),
                    None => r matches Err(SandboxError::Internal(_)),
                }
            }),
    {
        let counter = match self.free_list.pop() {
            Some(recycled) => recycled,
            None => {
                if self.next_counter > 65534 {
                    let msg = String::from_str(
                        "IP address pool exhausted (10.20.0.0/16 supports max ~65k sandboxes)",
                    );
                    return Err(SandboxError::Internal(msg));
                }
                let c = self.next_counter;
                self.next_counter = self.next_counter + 1;
                c
            },
        };
        Ok(allocate_ip(counter))
    }

    /// Takes an address back into the pool when it reads as a 10.20.x.y
    /// address; anything else is ignored.
    pub fn release(&mut self, ip: &str)
        ensures
            final(self).next() == old(self).next(),
            match ip_to_counter_spec(ip@) {
                Some(c) => final(self).free() == old(self).free().push(c),
                None => final(self).free() == old(self).free(),
            },
    {
        if let Some(counter) = ip_to_counter(ip) {
            self.free_list.push(counter);
        }
    }
}

/// An address given back to the pool is the next one handed out again:
/// releasing the text of any counter in the network and then allocating
/// yields the same text, and leaves the pool as it was.
pub proof fn lemma_release_then_allocate(before: IpPool, released: IpPool, after: IpPool,
    counter: u32, ip: Seq<char>, got: Seq<char>)
    requires
        counter < 65536,
        ip == ip_text(counter),
        released.next() == before.next(),
        released.free() == before.free().push(counter),
        after.free() == released.free().drop_last(),
        after.next() == released.next(),
        got == ip_text(released.free().last()),
    ensures
        ip_to_counter_spec(ip) == Some(counter),
        got == ip,
        after.free() == before.free(),
        after.next() == before.next(),
{
    lemma_ip_roundtrip(counter);
    assert(before.free().push(counter).drop_last() =~= before.free());
}

/// Fresh allocations never repeat: two distinct counters in the network
/// give two distinct addresses.
pub proof fn lemma_distinct_counters_distinct_ips(a: u32, b: u32)
    requires
        a < 65536,
        b < 65536,
        a != b,
    ensures
        ip_text(a) != ip_text(b),
{
    lemma_ip_roundtrip(a);
    lemma_ip_roundtrip(b);
}

/// `k` allocations in a row on the counters `(next, free)`, with nothing
/// released in between: what each of them hands out.
pub open spec fn allocate_run(next: u32, free: Seq<u32>, k: nat) -> Seq<Option<u32>>
    decreases k,
{
    if k == 0 {
        Seq::empty()
    } else {
        let (n, f, c) = pool_allocate(next, free);
        seq![c] + allocate_run(n, f, (k - 1) as nat)
    }
}

proof fn lemma_run_len(next: u32, free: Seq<u32>, k: nat)
    ensures
        allocate_run(next, free, k).len() == k,
    decreases k,
{
    if k > 0 {
        let (n, f, c) = pool_allocate(next, free);
        lemma_run_len(n, f, (k - 1) as nat);
    }
}

proof fn lemma_fresh_run_from(next: u32, k: nat, i: int)
    requires
        2 <= next,
        0 <= i < k,
    ensures
        allocate_run(next, Seq::empty(), k)[i] == (if next + i <= max_fresh_counter() {
            Some((next + i) as u32)
        } else {
            None
        }),
    decreases k,
{
    let (n, f, c) = pool_allocate(next, Seq::empty());
    assert(f =~= Seq::<u32>::empty());
    let rest = allocate_run(n, f, (k - 1) as nat);
    assert(allocate_run(next, Seq::empty(), k) == seq![c] + rest);
    lemma_run_len(n, f, (k - 1) as nat);
    if i > 0 {
        lemma_fresh_run_from(n, (k - 1) as nat, i - 1);
        assert((seq![c] + rest)[i] == rest[i - 1]);
    }
}

/// A new pool hands out the fresh counters in order: with no address
/// released, the `i`-th allocation (from 0) gives the address of counter
/// `2 + i` while that is at most 65534 (`10.20.0.2`, `10.20.0.3`, ...,
/// `10.20.255.254`), and every later one fails.
pub proof fn lemma_new_pool_allocates_in_order(k: nat, i: int)
    requires
        0 <= i < k,
    ensures
        allocate_run(2, Seq::empty(), k)[i] == (if 2 + i <= 65534 {
            Some((2 + i) as u32)
        } else {
            None
        }),
{
    lemma_fresh_run_from(2, k, i);
}

/// What holds of the counters of every pool reached from a new one, given
/// the set `out` of counters handed out and not given back: every counter in
/// use or released lies in `2..next`, the released ones are distinct and
/// none of them is handed out.
pub open spec fn pool_consistent(next: u32, free: Seq<u32>, out: Set<u32>) -> bool {
    &&& 2 <= next <= 65535
    &&& forall|i: int| 0 <= i < free.len() ==> 2 <= #[trigger] free[i] < next && !out.contains(
        free[i],
    )
    &&& forall|i: int, j: int| 0 <= i < j < free.len() ==> free[i] != free[j]
    &&& forall|c: u32| #[trigger] out.contains(c) ==> 2 <= c < next
}

/// A new pool is consistent, with nothing handed out.
pub proof fn lemma_new_pool_consistent()
    ensures
        pool_consistent(2, Seq::empty(), Set::empty()),
{
}

/// An allocation on a consistent pool never hands out an address that is
/// still in use, nor the network or gateway address, and the pool stays
/// consistent with that address added to those in use.
pub proof fn lemma_allocate_keeps_addresses_distinct(next: u32, free: Seq<u32>, out: Set<u32>)
    requires
        pool_consistent(next, free, out),
    ensures
        ({
            let (n, f, c) = pool_allocate(next, free);
            match c {
                Some(k) => {
                    &&& !out.contains(k)
                    &&& 2 <= k < 65536
                    &&& forall|o: u32| #[trigger] out.contains(o) ==> ip_text(o) != ip_text(k)
                    &&& ip_text(k) != ip_text(0) && ip_text(k) != ip_text(1)
                    &&& pool_consistent(n, f, out.insert(k))
                },
                None => pool_consistent(n, f, out),
            }
        }),
{
    let (n, f, c) = pool_allocate(next, free);
    if let Some(k) = c {
        assert forall|o: u32| #[trigger] out.contains(o) implies ip_text(o) != ip_text(k) by {
            lemma_distinct_counters_distinct_ips(o, k);
        }
        lemma_distinct_counters_distinct_ips(k, 0);
        lemma_distinct_counters_distinct_ips(k, 1);
        if free.len() > 0 {
            assert(!out.contains(free[free.len() - 1]));
            assert forall|i: int, j: int| 0 <= i < j < f.len() implies f[i] != f[j] by {
                assert(f[i] == free[i] && f[j] == free[j]);
            }
            assert forall|i: int| 0 <= i < f.len() implies !out.insert(k).contains(
                #[trigger] f[i],
            ) by {
                assert(f[i] == free[i]);
                assert(free[i] != free[free.len() - 1]);
            }
        }
    }
}

/// Giving back an address that is in use keeps a consistent pool
/// consistent, with that address no longer in use.
pub proof fn lemma_release_keeps_addresses_distinct(
    next: u32,
    free: Seq<u32>,
    out: Set<u32>,
    c: u32,
)
    requires
        pool_consistent(next, free, out),
        out.contains(c),
    ensures
        ip_to_counter_spec(ip_text(c)) == Some(c),
        pool_consistent(next, free.push(c), out.remove(c)),
{
    lemma_ip_roundtrip(c);
    let f = free.push(c);
    assert forall|i: int, j: int| 0 <= i < j < f.len() implies f[i] != f[j] by {
        if j == free.len() {
            assert(f[i] == free[i]);
            assert(!out.contains(free[i]));
        } else {
            assert(f[i] == free[i] && f[j] == free[j]);
        }
    }
    assert forall|i: int| 0 <= i < f.len() implies 2 <= #[trigger] f[i] < next && !out.remove(
        c,
    ).contains(f[i]) by {
        if i < free.len() {
            assert(f[i] == free[i]);
        }
    }
}

/// The pool's counters after a run of calls on a new pool, with the
/// counters handed out and not yet given back: `None` stands for an
/// allocation, `Some(c)` for giving back the address of counter `c`.
pub open spec fn pool_after(events: Seq<Option<u32>>) -> (u32, Seq<u32>, Set<u32>)
    decreases events.len(),
{
    if events.len() == 0 {
        (2, Seq::empty(), Set::empty())
    } else {
        let (n, f, out) = pool_after(events.drop_last());
        match events.last() {
            None => {
                let (n2, f2, c) = pool_allocate(n, f);
                match c {
                    Some(k) => (n2, f2, out.insert(k)),
                    None => (n2, f2, out),
                }
            },
            Some(c) => (n, f.push(c), out.remove(c)),
        }
    }
}

/// Every address given back in the run is one in use at that moment.
pub open spec fn releases_in_use(events: Seq<Option<u32>>) -> bool {
    forall|i: int|
        0 <= i < events.len() && (#[trigger] events[i]) is Some ==> pool_after(events.take(i)).2.contains(
            events[i]->0,
        )
}

/// Across any run of calls on a new pool that gives back only addresses in
/// use, the addresses in use stay pairwise distinct, and the next
/// allocation hands out none of them, nor the network (`10.20.0.0`) or
/// gateway (`10.20.0.1`) address. (`IpPool::new` starts at `(2, [])`,
/// `allocate` moves as `pool_allocate`, and `release` of the address of a
/// counter in use pushes that counter, by `lemma_release_keeps_addresses_distinct`.)
pub proof fn lemma_pool_history_keeps_addresses_distinct(events: Seq<Option<u32>>)
    requires
        releases_in_use(events),
    ensures
        pool_consistent(pool_after(events).0, pool_after(events).1, pool_after(events).2),
        forall|o1: u32, o2: u32|
            #![trigger pool_after(events).2.contains(o1), pool_after(events).2.contains(o2)]
            pool_after(events).2.contains(o1) && pool_after(events).2.contains(o2) && o1 != o2
                ==> ip_text(o1) != ip_text(o2),
        ({
            let (n, f, out) = pool_after(events);
            pool_allocate(n, f).2 matches Some(k) ==> {
                &&& !out.contains(k)
                &&& forall|o: u32| #[trigger] out.contains(o) ==> ip_text(o) != ip_text(k)
                &&& ip_text(k) != ip_text(0) && ip_text(k) != ip_text(1)
            }
        }),
    decreases events.len(),
{
    if events.len() == 0 {
        lemma_new_pool_consistent();
    } else {
        let prefix = events.drop_last();
        assert forall|i: int| 0 <= i < prefix.len() && (#[trigger] prefix[i]) is Some implies pool_after(
            prefix.take(i),
        ).2.contains(prefix[i]->0) by {
            assert(prefix.take(i) =~= events.take(i));
            assert(prefix[i] == events[i]);
        }
        lemma_pool_history_keeps_addresses_distinct(prefix);
        let (n, f, out) = pool_after(prefix);
        match events.last() {
            None => {
                lemma_allocate_keeps_addresses_distinct(n, f, out);
            },
            Some(c) => {
                assert(events.take(events.len() - 1) =~= prefix);
                assert(events[events.len() - 1] == events.last());
                lemma_release_keeps_addresses_distinct(n, f, out, c);
            },
        }
    }
    let (n, f, out) = pool_after(events);
    lemma_allocate_keeps_addresses_distinct(n, f, out);
    assert forall|o1: u32, o2: u32|
        #![trigger out.contains(o1), out.contains(o2)]
        out.contains(o1) && out.contains(o2) && o1 != o2 implies ip_text(o1) != ip_text(o2) by {
        lemma_distinct_counters_distinct_ips(o1, o2);
    }
}

/// The timeout after an extension: the sum, unless it passes the maximum.
pub open spec fn extended_timeout_spec(current: u64, add: u64, max: u64) -> Option<u64> {
    if current + add > max {
        None
    } else {
        Some((current + add) as u64)
    }
}

/// Extends a sandbox timeout by `add` milliseconds, refusing to go past
/// `max`.
pub fn extended_timeout(current: u64, add: u64, max: u64) -> (r: Result<u64, SandboxError>)
    requires
        current + add <= u64::MAX,
    ensures
        match extended_timeout_spec(current, add, max) {
            Some(t) => r == Ok::<u64, SandboxError>(t),
            None => r matches Err(SandboxError::InvalidState(m)) && m@ == "Timeout would exceed maximum ("@
                + crate::text::decimal((current + add) as nat) + " ms > "@ + crate::text::decimal(max as nat) + " ms)"@,
        },
{
    let new_timeout = current + add;
    if new_timeout > max {
        let mut msg = String::from_str("Timeout would exceed maximum (");
        msg.append(u64_to_decimal(new_timeout).as_str());
        msg.append(" ms > ");
        msg.append(u64_to_decimal(max).as_str());
        msg.append(" ms)");
        return Err(SandboxError::InvalidState(msg));
    }
    Ok(new_timeout)
}

} // verus!
