//! Reconciliation of an externally supplied transaction list against a
//! double-entry ledger: a date-indexed lookup structure over ledger entries,
//! a tolerance-expanding pairing algorithm, a discrepancy reporter, and an
//! interactive resolution protocol that turns confirmed unmatched records
//! into new balanced ledger transactions.
use vstd::prelude::*;

pub mod correlator;
pub mod dbmodifier;
pub mod index;
pub mod money;
pub mod numeric;
pub mod records;
pub mod resolution;

verus! {

/// A moment in time: a day number plus seconds since that day's midnight.
#[derive(Clone, Copy, PartialEq, Eq, Structural, Debug)]
pub struct Timestamp {
    pub day: i64,
    pub secs: u32,
}

/// Seconds from midnight to noon, the time of day given to ledger
/// transactions created from external records.
pub const NOON_SECS: u32 = 43200;

/// Days are counted as a signed day number in the proleptic calendar, so that
/// shifting a date by a day offset is plain integer arithmetic and date order
/// is integer order. Calendar dates stay within this bound.
pub const DAY_BOUND: i64 = 0x8000_0000;

/// A calendar day number within `DAY_BOUND`.
pub open spec fn valid_day(day: i64) -> bool {
    -DAY_BOUND <= day <= DAY_BOUND
}

} // verus!
