use reconcile::dbmodifier::{Account, Commodity, NewSplit};
use reconcile::records::ExternalRecord;
use reconcile::resolution::{
    answer_for_key, check_commodities, confirm_insert, Answer, RecordOutcome, ResolutionError,
    ResolutionSession, TermKey,
};
use reconcile::{Timestamp, NOON_SECS};

fn account(guid: &str, commodity: Option<&str>, scu: i64) -> Account {
    Account {
        guid: String::from(guid),
        name: String::from(guid),
        commodity_guid: commodity.map(String::from),
        commodity_scu: scu,
    }
}

fn eur() -> Commodity {
    Commodity { guid: String::from("EUR"), fraction: 100 }
}

fn rec(amount: Option<i64>, spending: Option<i64>, descr: &str) -> ExternalRecord {
    ExternalRecord::new(amount, spending, None, Some(String::from(descr)))
}

fn session(records: Vec<ExternalRecord>) -> ResolutionSession {
    ResolutionSession::new(
        records,
        account("bank", Some("EUR"), 100),
        account("expenses", Some("EUR"), 100),
        eur(),
    )
    .unwrap()
}

#[test]
fn key_mapping() {
    assert_eq!(answer_for_key(TermKey::Char('y')), Some(Answer::Yes));
    assert_eq!(answer_for_key(TermKey::Char('Y')), Some(Answer::Yes));
    assert_eq!(answer_for_key(TermKey::Enter), Some(Answer::Yes));
    assert_eq!(answer_for_key(TermKey::Char('n')), Some(Answer::No));
    assert_eq!(answer_for_key(TermKey::Char('N')), Some(Answer::No));
    assert_eq!(answer_for_key(TermKey::Char('a')), Some(Answer::Abort));
    assert_eq!(answer_for_key(TermKey::Char('A')), Some(Answer::Abort));
    assert_eq!(answer_for_key(TermKey::Escape), Some(Answer::Abort));
    assert_eq!(answer_for_key(TermKey::Char('x')), None);
    assert_eq!(answer_for_key(TermKey::OtherKey), None);
}

#[test]
fn commodity_mismatch_fails_immediately() {
    let r = ResolutionSession::new(
        vec![rec(Some(100), Some(1), "a")],
        account("bank", Some("EUR"), 100),
        account("expenses", Some("USD"), 100),
        eur(),
    );
    match r {
        Err(ResolutionError::CommodityMismatch) => {},
        _ => panic!("expected a commodity mismatch"),
    }
    assert!(!check_commodities(
        &account("bank", Some("EUR"), 100),
        &account("expenses", None, 100)
    ));
}

#[test]
fn confirmed_record_builds_balanced_transaction() {
    let mut s = session(vec![rec(Some(12345), Some(700), "groceries")]);
    let planned = s.step(Answer::Yes).expect("confirmation plans a transaction");
    assert_eq!(planned.transaction.guid.len(), 36);
    assert_eq!(planned.transaction.currency_guid, "EUR");
    assert_eq!(
        planned.transaction.post_date,
        Some(Timestamp { day: 700, secs: NOON_SECS })
    );
    assert!(planned.transaction.enter_date.secs < 86400);
    assert_eq!(planned.transaction.description, "groceries");
    assert_eq!(planned.transaction.num, "");
    assert_eq!(planned.reconciled_split.tx_guid, planned.transaction.guid);
    assert_eq!(planned.counter_split.tx_guid, planned.transaction.guid);
    assert_eq!(planned.reconciled_split.account_guid, "bank");
    assert_eq!(planned.counter_split.account_guid, "expenses");
    assert_eq!(planned.reconciled_split.value_num, 12345);
    assert_eq!(planned.reconciled_split.value_denom, 100);
    assert_eq!(planned.counter_split.value_num, -12345);
    assert_eq!(
        planned.reconciled_split.value_num + planned.counter_split.value_num,
        0
    );
    assert_ne!(planned.reconciled_split.guid, planned.counter_split.guid);
    match &s.outcomes[0] {
        RecordOutcome::Confirmed(guid) => assert_eq!(*guid, planned.transaction.guid),
        RecordOutcome::Skipped => panic!("expected a confirmation"),
    }
}

#[test]
fn abort_leaves_tail_untouched() {
    // Three records: the first confirmed, then abort. Exactly one outcome is
    // recorded; the later records never gain one.
    let mut s = session(vec![
        rec(Some(100), Some(1), "a"),
        rec(Some(200), Some(2), "b"),
        rec(Some(300), Some(3), "c"),
    ]);
    assert!(s.prompting());
    let first = s.step(Answer::Yes);
    assert!(first.is_some());
    assert!(s.prompting());
    let second = s.step(Answer::Abort);
    assert!(second.is_none());
    assert!(s.aborted);
    assert!(!s.prompting());
    assert_eq!(s.pos, 1);
    assert_eq!(s.outcomes.len(), 1);
    assert!(matches!(s.outcomes[0], RecordOutcome::Confirmed(_)));
}

#[test]
fn skip_moves_on_without_a_transaction() {
    let mut s = session(vec![rec(Some(100), Some(1), "a"), rec(Some(200), Some(2), "b")]);
    assert!(s.step(Answer::No).is_none());
    assert_eq!(s.pos, 1);
    assert!(matches!(s.outcomes[0], RecordOutcome::Skipped));
    assert!(s.prompting());
}

#[test]
fn confirming_amountless_record_degrades_to_skip() {
    let mut s = session(vec![rec(None, Some(1), "no amount")]);
    assert!(s.step(Answer::Yes).is_none());
    assert_eq!(s.pos, 1);
    assert!(matches!(s.outcomes[0], RecordOutcome::Skipped));
}

#[test]
fn insert_row_count_judgement() {
    assert!(confirm_insert(1).is_ok());
    assert_eq!(confirm_insert(0), Err(ResolutionError::PersistenceFailure));
    assert_eq!(confirm_insert(2), Err(ResolutionError::PersistenceFailure));
}

#[test]
fn split_rounding_to_nearest_ties_away() {
    let acct = account("bank", Some("EUR"), 1000);
    // 0.05 currency units against a fraction of 10: 0.5 rounds away to 1.
    let s = NewSplit::create_split(
        String::from("sg"),
        String::from("tg"),
        &acct,
        String::new(),
        &Commodity { guid: String::from("EUR"), fraction: 10 },
        5,
    );
    assert_eq!(s.value_num, 1);
    assert_eq!(s.value_denom, 10);
    assert_eq!(s.quantity_num, 50);
    assert_eq!(s.quantity_denom, 1000);
    let neg = NewSplit::create_split(
        String::from("sg2"),
        String::from("tg"),
        &acct,
        String::new(),
        &Commodity { guid: String::from("EUR"), fraction: 10 },
        -5,
    );
    assert_eq!(neg.value_num, -1);
    assert_eq!(neg.quantity_num, -50);
    assert_eq!(s.reconcile_state, "n");
    assert_eq!(s.action, "");
    assert_eq!(s.lot_guid, "");
}
