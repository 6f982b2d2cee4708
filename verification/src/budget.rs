//! The walk budget: how many files and bytes a snapshot walk may visit
//! before it gives up, so that a huge directory is not captured by accident.
use vstd::prelude::*;
use vstd::string::StringExecFns;
use crate::text::{decimal, u64_to_decimal};

verus! {

/// Limits on one walk. A limit of 0 means no limit.
#[derive(Debug, Clone)]
pub struct WalkBudget {
    pub max_entries: usize,
    pub max_bytes: u64,
}

/// Which limit a walk went past, with the count reached and the limit.
#[derive(Debug, Clone, PartialEq, Eq)]
pub enum BudgetError {
    EntryLimit { entries: usize, max: usize },
    ByteLimit { bytes: u64, max: u64 },
}

/// The advice that ends every budget message.
pub open spec fn budget_advice() -> Seq<char> {
    " Add exclusion patterns with --rollback-exclude or disable with --no-rollback."@
}

impl BudgetError {
    /// The text of a budget error.
    pub open spec fn message_spec(&self) -> Seq<char> {
        match *self {
            BudgetError::EntryLimit { entries, max } =>
                "rollback walk exceeded entry limit ("@ + decimal(entries as nat) + " > "@
                    + decimal(max as nat) + ")."@ + budget_advice(),
            BudgetError::ByteLimit { bytes, max } =>
                "rollback walk exceeded byte limit ("@ + decimal(bytes as nat) + " > "@
                    + decimal(max as nat) + " bytes)."@ + budget_advice(),
        }
    }

    /// The message shown to the user, with the advice on how to proceed.
    pub fn message(&self) -> (r: String)
        ensures
            r@ == self.message_spec(),
    {
        match *self {
            BudgetError::EntryLimit { entries, max } => {
                let mut msg = String::from_str("rollback walk exceeded entry limit (");
                msg.append(u64_to_decimal(entries as u64).as_str());
                msg.append(" > ");
                msg.append(u64_to_decimal(max as u64).as_str());
                msg.append(").");
                msg.append(" Add exclusion patterns with --rollback-exclude or disable with --no-rollback.");
                msg
            },
            BudgetError::ByteLimit { bytes, max } => {
                let mut msg = String::from_str("rollback walk exceeded byte limit (");
                msg.append(u64_to_decimal(bytes).as_str());
                msg.append(" > ");
                msg.append(u64_to_decimal(max).as_str());
                msg.append(" bytes).");
                msg.append(" Add exclusion patterns with --rollback-exclude or disable with --no-rollback.");
                msg
            },
        }
    }
}

/// What a walk that has visited `entries` files of `bytes` bytes in all is
/// told: the entry limit is tested first, then the byte limit.
pub open spec fn check_spec(max_entries: usize, max_bytes: u64, entries: usize, bytes: u64) -> Result<(), BudgetError> {
    if max_entries > 0 && entries > max_entries {
        Err(BudgetError::EntryLimit { entries, max: max_entries })
    } else if max_bytes > 0 && bytes > max_bytes {
        Err(BudgetError::ByteLimit { bytes, max: max_bytes })
    } else {
        Ok(())
    }
}

impl WalkBudget {
    /// 300 000 entries and 2 GiB.
    pub fn default() -> (r: Self)
        ensures
            r.max_entries == 300_000,
            r.max_bytes == 2 * 1024 * 1024 * 1024,
    {
        WalkBudget { max_entries: 300_000, max_bytes: 2 * 1024 * 1024 * 1024 }
    }

    /// Fails when a set limit is exceeded.
    pub fn check(&self, entries: usize, bytes: u64) -> (r: Result<(), BudgetError>)
        ensures
            r == check_spec(self.max_entries, self.max_bytes, entries, bytes),
    {
        if self.max_entries > 0 && entries > self.max_entries {
            return Err(BudgetError::EntryLimit { entries, max: self.max_entries });
        }
        if self.max_bytes > 0 && bytes > self.max_bytes {
            return Err(BudgetError::ByteLimit { bytes, max: self.max_bytes });
        }
        Ok(())
    }
}

/// A budget with both limits at 0 lets every walk through.
pub proof fn lemma_unlimited_budget_allows_all(entries: usize, bytes: u64)
    ensures
        check_spec(0, 0, entries, bytes) == Ok::<(), BudgetError>(()),
{
}

/// Whether a walk passes grows only stricter as it goes on: once a tally
/// fails, every larger tally fails too.
pub proof fn lemma_check_monotone(max_entries: usize, max_bytes: u64, e1: usize, b1: u64, e2: usize, b2: u64)
    requires
        e1 <= e2,
        b1 <= b2,
        check_spec(max_entries, max_bytes, e1, b1) is Err,
    ensures
        check_spec(max_entries, max_bytes, e2, b2) is Err,
{
}


/// The two limits are applied each on its own: a walk passes exactly when
/// it is within every limit that is set (a limit of 0 is none), whatever
/// the other limit is. A walk past a set entry limit is told so; one within
/// the entry limit but past a set byte limit is told its bytes and the byte
/// limit.
pub proof fn lemma_limits_apply_independently(max_entries: usize, max_bytes: u64, entries: usize, bytes: u64)
    ensures
        check_spec(max_entries, max_bytes, entries, bytes) is Ok <==> ((max_entries == 0 || entries <= max_entries)
            && (max_bytes == 0 || bytes <= max_bytes)),
        max_entries > 0 && entries > max_entries ==> check_spec(max_entries, max_bytes, entries, bytes)
            == Err::<(), BudgetError>(BudgetError::EntryLimit { entries, max: max_entries }),
        (max_entries == 0 || entries <= max_entries) && max_bytes > 0 && bytes > max_bytes ==> check_spec(
            max_entries,
            max_bytes,
            entries,
            bytes,
        ) == Err::<(), BudgetError>(BudgetError::ByteLimit { bytes, max: max_bytes }),
{
}

} // verus!
