use reconcile::correlator::TransactionCorrelator;
use reconcile::index::LedgerRow;
use reconcile::records::{date_span, ExternalRecord, MatchingMode};

fn row(day: i64, num: i64, guid: &str) -> LedgerRow {
    LedgerRow {
        posting_day: Some(day),
        value_num: num,
        value_denom: 100,
        tx_guid: String::from(guid),
    }
}

fn correlator(min: Option<i64>, max: Option<i64>, rows: &Vec<LedgerRow>) -> TransactionCorrelator {
    let mut c = TransactionCorrelator::new(
        Vec::new(),
        min,
        max,
        String::from("acct"),
        MatchingMode::BySpending,
    );
    c.build_mapping(rows);
    c
}

#[test]
fn entries_outside_window_never_reported() {
    let rows = vec![row(5, 1, "before"), row(10, 1, "in"), row(20, 1, "edge"), row(21, 1, "after")];
    let c = correlator(Some(10), Some(20), &rows);
    let report = c.get_unmatched();
    let names: Vec<&str> = report.iter().map(|e| e.tx_guid.as_str()).collect();
    assert_eq!(names, vec!["in", "edge"]);
}

#[test]
fn undefined_bound_reports_everything() {
    let rows = vec![row(5, 1, "a"), row(500, 1, "b")];
    let c = correlator(None, Some(10), &rows);
    assert_eq!(c.get_unmatched().len(), 2);
    let c2 = correlator(None, None, &rows);
    assert_eq!(c2.get_unmatched().len(), 2);
}

#[test]
fn reporting_twice_returns_identical_sets() {
    let rows = vec![row(3, 1, "a"), row(4, 1, "b")];
    let mut c = correlator(Some(1), Some(9), &rows);
    let first = c.get_unmatched();
    let second = c.get_unmatched();
    assert_eq!(first.len(), second.len());
    for (x, y) in first.iter().zip(second.iter()) {
        assert_eq!(x.tx_guid, y.tx_guid);
        assert_eq!(x.day, y.day);
        assert_eq!(x.ext_idx, y.ext_idx);
    }
    let unmatched_a = c.match_transactions();
    let unmatched_b: Vec<ExternalRecord> = Vec::new();
    assert_eq!(unmatched_a.len(), unmatched_b.len());
}

#[test]
fn matched_entries_leave_the_report() {
    let records = vec![ExternalRecord::new(Some(100), Some(3), None, None)];
    let rows = vec![row(3, 100, "hit"), row(4, 100, "miss")];
    let mut c = TransactionCorrelator::new(
        records,
        Some(3),
        Some(4),
        String::from("acct"),
        MatchingMode::BySpending,
    );
    c.build_mapping(&rows);
    c.match_transactions();
    let report = c.get_unmatched();
    assert_eq!(report.len(), 1);
    assert_eq!(report[0].tx_guid, "miss");
}

#[test]
fn min_max_dates_are_returned() {
    let c = correlator(Some(11), Some(17), &Vec::new());
    assert_eq!(c.get_min_date(), Some(11));
    assert_eq!(c.get_max_date(), Some(17));
}

#[test]
fn date_span_over_selected_dates() {
    let records = vec![
        ExternalRecord::new(Some(1), Some(9), Some(100), None),
        ExternalRecord::new(Some(1), None, Some(2), None),
        ExternalRecord::new(Some(1), Some(3), None, None),
    ];
    let (mn, mx) = date_span(&records, MatchingMode::BySpending);
    assert_eq!(mn, Some(3));
    assert_eq!(mx, Some(9));
    let (bn, bx) = date_span(&records, MatchingMode::ByBooking);
    assert_eq!(bn, Some(2));
    assert_eq!(bx, Some(100));
    let (en, ex) = date_span(&Vec::new(), MatchingMode::BySpending);
    assert_eq!(en, None);
    assert_eq!(ex, None);
}
