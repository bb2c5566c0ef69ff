//! External records: one row of the externally supplied transaction list,
//! with its candidate dates, its exact amount in minor units, and the match
//! flag that the matching engine sets.
use vstd::prelude::*;
use crate::valid_day;

verus! {

/// Which candidate date field of an external record is authoritative for
/// alignment. Fixed for a whole run; never mixed.
#[derive(Clone, Copy, PartialEq, Eq, Structural, Debug)]
pub enum MatchingMode {
    BySpending,
    ByBooking,
}

/// One row from the external source. Dates are day numbers; the amount is in
/// minor units (see `money::AMOUNT_DENOM`); any field that could not be
/// parsed is absent rather than invalid.
pub struct ExternalRecord {
    pub amount: Option<i64>,
    pub spending_day: Option<i64>,
    pub booking_day: Option<i64>,
    pub description: Option<String>,
    /// Set exactly once, from `false` to `true`, when the matching engine
    /// pairs this record with a ledger entry.
    pub matched: bool,
}

/// The authoritative date of a record under the active matching mode.
pub open spec fn sel_day(r: ExternalRecord, mode: MatchingMode) -> Option<i64> {
    match mode {
        MatchingMode::BySpending => r.spending_day,
        MatchingMode::ByBooking => r.booking_day,
    }
}

/// Both candidate dates, where present, are calendar days within bounds.
pub open spec fn record_days_valid(r: ExternalRecord) -> bool {
    &&& (r.spending_day matches Some(d) ==> valid_day(d))
    &&& (r.booking_day matches Some(d) ==> valid_day(d))
}

impl ExternalRecord {
    /// A freshly loaded, unmatched record.
    pub fn new(
        amount: Option<i64>,
        spending_day: Option<i64>,
        booking_day: Option<i64>,
        description: Option<String>,
    ) -> (r: ExternalRecord)
        ensures
            r == (ExternalRecord { amount, spending_day, booking_day, description, matched: false }),
    {
        ExternalRecord { amount, spending_day, booking_day, description, matched: false }
    }

    /// The date used for alignment under `mode`.
    pub fn get_matching_date(&self, mode: MatchingMode) -> (r: Option<i64>)
        ensures
            r == sel_day(*self, mode),
    {
        match mode {
            MatchingMode::BySpending => self.spending_day,
            MatchingMode::ByBooking => self.booking_day,
        }
    }

    /// The description, or the empty string where the source had none.
    pub fn get_description(&self) -> (r: String)
        ensures
            r@ == match self.description {
                Some(d) => d@,
                None => Seq::<char>::empty(),
            },
    {
        match &self.description {
            Some(d) => d.clone(),
            None => String::new(),
        }
    }
}

impl Clone for ExternalRecord {
    /// Cloning preserves the record exactly.
    fn clone(&self) -> (r: Self)
        ensures
            r == *self,
    {
        ExternalRecord {
            amount: self.amount,
            spending_day: self.spending_day,
            booking_day: self.booking_day,
            description: match &self.description {
                Some(d) => Some(d.clone()),
                None => None,
            },
            matched: self.matched,
        }
    }
}

/// The smallest and largest authoritative dates over the records, under the
/// given mode: `None` where no record carries a date. These two bounds
/// window the ledger-side discrepancy report.
#[verifier::loop_isolation(false)]
pub fn date_span(records: &Vec<ExternalRecord>, mode: MatchingMode) -> (r: (
    Option<i64>,
    Option<i64>,
))
    ensures
        r.0 is Some <==> exists|k: int|
            0 <= k < records@.len() && sel_day(#[trigger] records@[k], mode) is Some,
        r.1 is Some <==> r.0 is Some,
        r.0 matches Some(mn) ==> (exists|k: int|
            0 <= k < records@.len() && sel_day(#[trigger] records@[k], mode) == Some(mn)) && (
        forall|k: int|
            0 <= k < records@.len() ==> (sel_day(#[trigger] records@[k], mode) matches Some(d)
                ==> mn <= d)),
        r.1 matches Some(mx) ==> (exists|k: int|
            0 <= k < records@.len() && sel_day(#[trigger] records@[k], mode) == Some(mx)) && (
        forall|k: int|
            0 <= k < records@.len() ==> (sel_day(#[trigger] records@[k], mode) matches Some(d)
                ==> d <= mx)),
{
    let n = records.len();
    let mut min: Option<i64> = None;
    let mut max: Option<i64> = None;
    let mut k: usize = 0;
    while k < n
        invariant
            0 <= k <= n,
            min is Some <==> exists|j: int|
                0 <= j < k && sel_day(#[trigger] records@[j], mode) is Some,
            max is Some <==> min is Some,
            min matches Some(mn) ==> (exists|j: int|
                0 <= j < k && sel_day(#[trigger] records@[j], mode) == Some(mn)) && (forall|j: int|
                0 <= j < k ==> (sel_day(#[trigger] records@[j], mode) matches Some(d) ==> mn <= d)),
            max matches Some(mx) ==> (exists|j: int|
                0 <= j < k && sel_day(#[trigger] records@[j], mode) == Some(mx)) && (forall|j: int|
                0 <= j < k ==> (sel_day(#[trigger] records@[j], mode) matches Some(d) ==> d <= mx)),
        decreases n - k,
    {
        if let Some(d) = records[k].get_matching_date(mode) {
            min = match min {
                None => Some(d),
                Some(mn) => if d < mn {
                    Some(d)
                } else {
                    Some(mn)
                },
            };
            max = match max {
                None => Some(d),
                Some(mx) => if d > mx {
                    Some(d)
                } else {
                    Some(mx)
                },
            };
        }
        k += 1;
    }
    (min, max)
}

} // verus!
