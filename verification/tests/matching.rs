use reconcile::correlator::TransactionCorrelator;
use reconcile::index::LedgerRow;
use reconcile::records::{ExternalRecord, MatchingMode};

fn row(day: i64, num: i64, denom: i64, guid: &str) -> LedgerRow {
    LedgerRow {
        posting_day: Some(day),
        value_num: num,
        value_denom: denom,
        tx_guid: String::from(guid),
    }
}

fn record(amount_cents: Option<i64>, spending: Option<i64>, booking: Option<i64>) -> ExternalRecord {
    ExternalRecord::new(amount_cents, spending, booking, Some(String::from("lunch")))
}

#[test]
fn matches_at_minus_two_days() {
    // One ledger entry on day 1000 for 150.00; one external record dated two
    // days later with the same amount. Passes 0, +1, -1, +2 miss; -2 hits.
    let records = vec![record(Some(15000), Some(1002), None)];
    let rows = vec![row(1000, 15000, 100, "t1")];
    let mut c = TransactionCorrelator::new(
        records,
        Some(1000),
        Some(1002),
        String::from("acct"),
        MatchingMode::BySpending,
    );
    c.build_mapping(&rows);
    let unmatched = c.match_transactions();
    assert_eq!(unmatched.len(), 0);
    let ledger = c.get_unmatched();
    assert_eq!(ledger.len(), 0);
    assert_eq!(c.index.entries[0].ext_idx, Some(0));
    assert!(c.records[0].matched);
}

#[test]
fn first_fit_on_equal_amounts() {
    // Two ledger entries on one day with the same amount; one record. The
    // earliest-inserted entry wins, the other stays in the ledger report.
    let records = vec![record(Some(7500), Some(500), None)];
    let rows = vec![row(500, 7500, 100, "first"), row(500, 7500, 100, "second")];
    let mut c = TransactionCorrelator::new(
        records,
        Some(500),
        Some(500),
        String::from("acct"),
        MatchingMode::BySpending,
    );
    c.build_mapping(&rows);
    let unmatched = c.match_transactions();
    assert_eq!(unmatched.len(), 0);
    assert_eq!(c.index.entries[0].ext_idx, Some(0));
    assert_eq!(c.index.entries[0].tx_guid, "first");
    assert_eq!(c.index.entries[1].ext_idx, None);
    let ledger = c.get_unmatched();
    assert_eq!(ledger.len(), 1);
    assert_eq!(ledger[0].tx_guid, "second");
}

#[test]
fn injective_pairing_two_records_one_entry() {
    // Two records of equal amount, one eligible entry: exactly one record is
    // paired; no entry is linked twice.
    let records = vec![
        record(Some(1000), Some(10), None),
        record(Some(1000), Some(10), None),
    ];
    let rows = vec![row(10, 1000, 100, "only")];
    let mut c = TransactionCorrelator::new(
        records,
        Some(10),
        Some(10),
        String::from("acct"),
        MatchingMode::BySpending,
    );
    c.build_mapping(&rows);
    let unmatched = c.match_transactions();
    assert_eq!(unmatched.len(), 1);
    assert!(c.records[0].matched);
    assert!(!c.records[1].matched);
    assert_eq!(c.index.entries[0].ext_idx, Some(0));
}

#[test]
fn offset_zero_preferred_over_larger() {
    // Entries on day 20 and day 22; record dated 20. The exact-date entry is
    // taken in the very first pass even though day 22 is within reach.
    let records = vec![record(Some(999), Some(20), None)];
    let rows = vec![row(22, 999, 100, "far"), row(20, 999, 100, "exact")];
    let mut c = TransactionCorrelator::new(
        records,
        Some(20),
        Some(22),
        String::from("acct"),
        MatchingMode::BySpending,
    );
    c.build_mapping(&rows);
    c.match_transactions();
    let ledger = c.get_unmatched();
    assert_eq!(ledger.len(), 1);
    assert_eq!(ledger[0].tx_guid, "far");
}

#[test]
fn beyond_offset_bound_stays_unmatched() {
    // The only candidate is ten days away; the engine stops at nine.
    let records = vec![record(Some(500), Some(100), None)];
    let rows = vec![row(110, 500, 100, "tooFar")];
    let mut c = TransactionCorrelator::new(
        records,
        Some(100),
        Some(100),
        String::from("acct"),
        MatchingMode::BySpending,
    );
    c.build_mapping(&rows);
    let unmatched = c.match_transactions();
    assert_eq!(unmatched.len(), 1);
    assert!(!c.records[0].matched);
}

#[test]
fn nine_day_offset_still_matches() {
    let records = vec![record(Some(500), Some(100), None)];
    let rows = vec![row(109, 500, 100, "nine")];
    let mut c = TransactionCorrelator::new(
        records,
        Some(100),
        Some(109),
        String::from("acct"),
        MatchingMode::BySpending,
    );
    c.build_mapping(&rows);
    let unmatched = c.match_transactions();
    assert_eq!(unmatched.len(), 0);
}

#[test]
fn record_without_amount_or_date_is_unmatchable() {
    let records = vec![
        record(None, Some(50), None),
        record(Some(2000), None, None),
    ];
    let rows = vec![row(50, 2000, 100, "a"), row(50, 2000, 100, "b")];
    let mut c = TransactionCorrelator::new(
        records,
        Some(50),
        Some(50),
        String::from("acct"),
        MatchingMode::BySpending,
    );
    c.build_mapping(&rows);
    let unmatched = c.match_transactions();
    assert_eq!(unmatched.len(), 2);
}

#[test]
fn booking_mode_uses_booking_date() {
    let records = vec![record(Some(300), Some(999), Some(40))];
    let rows = vec![row(40, 300, 100, "b")];
    let mut c = TransactionCorrelator::new(
        records,
        Some(40),
        Some(40),
        String::from("acct"),
        MatchingMode::ByBooking,
    );
    c.build_mapping(&rows);
    let unmatched = c.match_transactions();
    assert_eq!(unmatched.len(), 0);
}

#[test]
fn exact_amount_equality_across_denominations() {
    // 25.50 as 2550/100 equals 51/2; 2549/100 does not.
    let records = vec![
        record(Some(2550), Some(7), None),
        record(Some(2549), Some(7), None),
    ];
    let rows = vec![row(7, 51, 2, "half")];
    let mut c = TransactionCorrelator::new(
        records,
        Some(7),
        Some(7),
        String::from("acct"),
        MatchingMode::BySpending,
    );
    c.build_mapping(&rows);
    let unmatched = c.match_transactions();
    assert_eq!(unmatched.len(), 1);
    assert_eq!(unmatched[0].amount, Some(2549));
    assert_eq!(c.index.entries[0].ext_idx, Some(0));
}

#[test]
fn undated_rows_are_dropped_from_index() {
    let rows = vec![
        LedgerRow { posting_day: None, value_num: 1, value_denom: 1, tx_guid: String::from("x") },
        row(3, 100, 100, "dated"),
    ];
    let mut c = TransactionCorrelator::new(
        Vec::new(),
        None,
        None,
        String::from("acct"),
        MatchingMode::BySpending,
    );
    c.build_mapping(&rows);
    assert_eq!(c.index.entries.len(), 1);
    assert_eq!(c.index.entries[0].tx_guid, "dated");
}

#[test]
fn index_is_kept_in_day_order() {
    let rows = vec![row(9, 1, 1, "c"), row(2, 1, 1, "a"), row(5, 1, 1, "b")];
    let mut c = TransactionCorrelator::new(
        Vec::new(),
        None,
        None,
        String::from("acct"),
        MatchingMode::BySpending,
    );
    c.build_mapping(&rows);
    let days: Vec<i64> = c.index.entries.iter().map(|e| e.day).collect();
    assert_eq!(days, vec![2, 5, 9]);
}
