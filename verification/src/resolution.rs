//! The interactive resolution protocol: one unmatched external record at a
//! time, a three-way decision (confirm / skip / abort), and, on confirmation,
//! the construction of a new balanced double-entry ledger transaction. The
//! protocol itself is a state machine; presenting records and reading keys
//! stay outside the library, which is handed the decoded decision.
use vstd::prelude::*;
use crate::{Timestamp, NOON_SECS, valid_day};
use crate::records::ExternalRecord;
use crate::dbmodifier::{
    Account, Commodity, NewSplit, NewTransaction, scaled_value, lemma_split_legs_balance,
    MAX_AMOUNT, MAX_FRACTION,
};

verus! {

/// One key press, as far as the protocol cares.
#[derive(Clone, Copy, PartialEq, Eq, Structural, Debug)]
pub enum TermKey {
    Char(char),
    Enter,
    Escape,
    OtherKey,
}

/// The three intents a key press can carry.
#[derive(Clone, Copy, PartialEq, Eq, Structural, Debug)]
pub enum Answer {
    Yes,
    No,
    Abort,
}

/// The decision a key maps to: y/Y/Enter confirm, n/N skip, a/A/Escape
/// abort, anything else is ignored and the prompt stays open.
pub open spec fn answer_spec(key: TermKey) -> Option<Answer> {
    match key {
        TermKey::Char(c) => if c == 'y' || c == 'Y' {
            Some(Answer::Yes)
        } else if c == 'n' || c == 'N' {
            Some(Answer::No)
        } else if c == 'a' || c == 'A' {
            Some(Answer::Abort)
        } else {
            None
        },
        TermKey::Enter => Some(Answer::Yes),
        TermKey::Escape => Some(Answer::Abort),
        TermKey::OtherKey => None,
    }
}

/// Decodes one key press into a decision, if it carries one.
pub fn answer_for_key(key: TermKey) -> (r: Option<Answer>)
    ensures
        r == answer_spec(key),
{
    match key {
        TermKey::Char(c) => {
            if c == 'y' || c == 'Y' {
                Some(Answer::Yes)
            } else if c == 'n' || c == 'N' {
                Some(Answer::No)
            } else if c == 'a' || c == 'A' {
                Some(Answer::Abort)
            } else {
                None
            }
        },
        TermKey::Enter => Some(Answer::Yes),
        TermKey::Escape => Some(Answer::Abort),
        TermKey::OtherKey => None,
    }
}

/// What can end a resolution run early.
#[derive(Clone, Copy, PartialEq, Eq, Structural, Debug)]
pub enum ResolutionError {
    /// The reconciled account and the counterparty account do not share a
    /// defined commodity; nothing is written.
    CommodityMismatch,
    /// A ledger write did not affect exactly one row; fatal to the run.
    PersistenceFailure,
}

/// What the protocol decided for one prompted record.
pub enum RecordOutcome {
    /// Confirmed: a transaction with this identifier was constructed and
    /// handed over for persistence.
    Confirmed(String),
    /// Skipped: the record stays unreconciled.
    Skipped,
}

/// A fully constructed double-entry transaction: the transaction row and
/// its two balancing split legs.
pub struct PlannedTransaction {
    pub transaction: NewTransaction,
    pub reconciled_split: NewSplit,
    pub counter_split: NewSplit,
}

/// Both accounts are denominated in one and the same defined commodity.
pub open spec fn same_commodity(a: Account, b: Account) -> bool {
    match (a.commodity_guid, b.commodity_guid) {
        (Some(x), Some(y)) => x@ == y@,
        _ => false,
    }
}

/// Whether the two accounts share a defined commodity.
pub fn check_commodities(a: &Account, b: &Account) -> (r: bool)
    ensures
        r == same_commodity(*a, *b),
{
    match (&a.commodity_guid, &b.commodity_guid) {
        (Some(x), Some(y)) => *x == *y,
        _ => false,
    }
}

/// Judges the affected-row count a ledger write reported: anything but
/// exactly one affected row is a fatal persistence failure.
pub fn confirm_insert(rows_affected: usize) -> (r: Result<(), ResolutionError>)
    ensures
        r is Ok <==> rows_affected == 1,
        r is Err ==> r == Err::<(), ResolutionError>(ResolutionError::PersistenceFailure),
{
    if rows_affected == 1 {
        Ok(())
    } else {
        Err(ResolutionError::PersistenceFailure)
    }
}

/// Relies on guid_create::GUID::rand and its Display impl: sixteen random
/// bytes shown in the canonical 36-character hyphenated GUID form. The
/// result is random, so nothing beyond its shape is claimed.
#[verifier::external_body]
fn fresh_guid() -> (r: String)
    ensures
        r@.len() == 36,
{
    guid_create::GUID::rand().to_string()
}

/// Relies on chrono's Local::now for the current local time: the day number
/// comes from Datelike::num_days_from_ce (an i32, so within the day bound)
/// and the seconds from Timelike::num_seconds_from_midnight (below 86400).
/// The result depends on the clock, so nothing beyond those bounds is
/// claimed.
#[verifier::external_body]
fn local_now() -> (r: Timestamp)
    ensures
        valid_day(r.day),
        r.secs < 86400,
{
    let now = chrono::Local::now().naive_local();
    Timestamp {
        day: chrono::Datelike::num_days_from_ce(&now) as i64,
        secs: chrono::Timelike::num_seconds_from_midnight(&now),
    }
}

/// The resolution protocol's state: the unmatched records to prompt for,
/// the two accounts and their shared commodity, the position of the record
/// being prompted, and the outcome recorded for every earlier record.
pub struct ResolutionSession {
    pub records: Vec<ExternalRecord>,
    pub reconciled: Account,
    pub counterparty: Account,
    pub commodity: Commodity,
    pub pos: usize,
    pub aborted: bool,
    pub outcomes: Vec<RecordOutcome>,
}

impl ResolutionSession {
    /// One outcome per prompted record, a position inside the record list,
    /// a shared commodity with workable scales, and amounts in range.
    pub open spec fn wf(self) -> bool {
        &&& self.outcomes@.len() == self.pos
        &&& self.pos <= self.records@.len()
        &&& same_commodity(self.reconciled, self.counterparty)
        &&& (self.reconciled.commodity_guid matches Some(g) && g@ == self.commodity.guid@)
        &&& 0 < self.commodity.fraction <= MAX_FRACTION
        &&& 0 < self.reconciled.commodity_scu <= MAX_FRACTION
        &&& 0 < self.counterparty.commodity_scu <= MAX_FRACTION
        &&& forall|k: int|
            0 <= k < self.records@.len() ==> ((#[trigger] self.records@[k]).amount matches Some(a)
                ==> -MAX_AMOUNT <= a <= MAX_AMOUNT)
    }

    /// Opens a resolution session over the unmatched records, after the
    /// precondition of the whole operation: the reconciled account and the
    /// counterparty must share a defined commodity, or the operation fails
    /// at once with a commodity mismatch and nothing is written.
    pub fn new(
        records: Vec<ExternalRecord>,
        reconciled: Account,
        counterparty: Account,
        commodity: Commodity,
    ) -> (r: Result<ResolutionSession, ResolutionError>)
        requires
            0 < commodity.fraction <= MAX_FRACTION,
            0 < reconciled.commodity_scu <= MAX_FRACTION,
            0 < counterparty.commodity_scu <= MAX_FRACTION,
            reconciled.commodity_guid matches Some(g) ==> g@ == commodity.guid@,
            forall|k: int|
                0 <= k < records@.len() ==> ((#[trigger] records@[k]).amount matches Some(a)
                    ==> -MAX_AMOUNT <= a <= MAX_AMOUNT),
        ensures
            same_commodity(reconciled, counterparty) ==> (r matches Ok(s) && s.wf()
                && s.records == records && s.reconciled == reconciled && s.counterparty
                == counterparty && s.commodity == commodity && s.pos == 0 && !s.aborted
                && s.outcomes@.len() == 0),
            !same_commodity(reconciled, counterparty) ==> r == Err::<
                ResolutionSession,
                ResolutionError,
            >(ResolutionError::CommodityMismatch),
    {
        if check_commodities(&reconciled, &counterparty) {
            Ok(
                ResolutionSession {
                    records,
                    reconciled,
                    counterparty,
                    commodity,
                    pos: 0,
                    aborted: false,
                    outcomes: Vec::new(),
                },
            )
        } else {
            Err(ResolutionError::CommodityMismatch)
        }
    }

    /// Whether a record is still waiting for a decision.
    pub fn prompting(&self) -> (r: bool)
        ensures
            r == (!self.aborted && self.pos < self.records@.len()),
    {
        !self.aborted && self.pos < self.records.len()
    }

    /// One decision for the record at the current position. Confirmation
    /// constructs the balanced transaction (posting date at noon of the
    /// record's spending date, entry date now, description copied) and
    /// records it; a confirmation of a record without an amount degrades to
    /// a skip; skipping records the skip and moves on; aborting freezes the
    /// session with every later record untouched.
    pub fn step(&mut self, answer: Answer) -> (planned: Option<PlannedTransaction>)
        requires
            old(self).wf(),
            !old(self).aborted,
            old(self).pos < old(self).records@.len(),
        ensures
            final(self).wf(),
            final(self).records == old(self).records,
            final(self).reconciled == old(self).reconciled,
            final(self).counterparty == old(self).counterparty,
            final(self).commodity == old(self).commodity,
            answer == Answer::Abort ==> final(self).aborted && final(self).pos == old(self).pos
                && final(self).outcomes == old(self).outcomes && planned is None,
            answer == Answer::No ==> !final(self).aborted && final(self).pos == old(self).pos + 1
                && final(self).outcomes@ =~= old(self).outcomes@.push(RecordOutcome::Skipped)
                && planned is None,
            answer == Answer::Yes && old(self).records@[old(self).pos as int].amount is None
                ==> !final(self).aborted && final(self).pos == old(self).pos + 1
                    && final(self).outcomes@ =~= old(self).outcomes@.push(RecordOutcome::Skipped)
                    && planned is None,
            answer == Answer::Yes ==> (old(self).records@[old(self).pos as int].amount matches Some(
                a,
            ) ==> ({
                &&& !final(self).aborted
                &&& final(self).pos == old(self).pos + 1
                &&& planned matches Some(p) && {
                let rec = old(self).records@[old(self).pos as int];
                &&& final(self).outcomes@ =~= old(self).outcomes@.push(
                    RecordOutcome::Confirmed(p.transaction.guid),
                )
                &&& p.transaction.guid@.len() == 36
                &&& p.transaction.currency_guid == old(self).commodity.guid
                &&& p.transaction.post_date == match rec.spending_day {
                    Some(d) => Some(Timestamp { day: d, secs: NOON_SECS }),
                    None => None::<Timestamp>,
                }
                &&& p.transaction.enter_date.secs < 86400
                &&& p.transaction.description@ == match rec.description {
                    Some(d) => d@,
                    None => Seq::<char>::empty(),
                }
                &&& p.reconciled_split.guid@.len() == 36
                &&& p.counter_split.guid@.len() == 36
                &&& p.reconciled_split.tx_guid == p.transaction.guid
                &&& p.counter_split.tx_guid == p.transaction.guid
                &&& p.reconciled_split.account_guid == old(self).reconciled.guid
                &&& p.counter_split.account_guid == old(self).counterparty.guid
                &&& p.reconciled_split.value_num == scaled_value(a, old(self).commodity.fraction)
                &&& p.reconciled_split.value_denom == old(self).commodity.fraction
                &&& p.counter_split.value_denom == old(self).commodity.fraction
                &&& p.reconciled_split.quantity_num == scaled_value(
                    a,
                    old(self).reconciled.commodity_scu,
                )
                &&& p.reconciled_split.quantity_denom == old(self).reconciled.commodity_scu
                &&& p.counter_split.quantity_num == scaled_value(
                    (-a) as i64,
                    old(self).counterparty.commodity_scu,
                )
                &&& p.counter_split.quantity_denom == old(self).counterparty.commodity_scu
                    &&& p.reconciled_split.value_num + p.counter_split.value_num == 0
                }
            })),
    {
        let _n = self.records.len();
        match answer {
            Answer::Abort => {
                self.aborted = true;
                None
            },
            Answer::No => {
                self.outcomes.push(RecordOutcome::Skipped);
                self.pos = self.pos + 1;
                None
            },
            Answer::Yes => {
                let amount = self.records[self.pos].amount;
                match amount {
                    None => {
                        self.outcomes.push(RecordOutcome::Skipped);
                        self.pos = self.pos + 1;
                        None
                    },
                    Some(a) => {
                        let tx_guid = fresh_guid();
                        let split_guid_a = fresh_guid();
                        let split_guid_b = fresh_guid();
                        let now = local_now();
                        let post_date = match self.records[self.pos].spending_day {
                            Some(d) => Some(Timestamp { day: d, secs: NOON_SECS }),
                            None => None,
                        };
                        let description = self.records[self.pos].get_description();
                        let transaction = NewTransaction::new(
                            tx_guid,
                            self.commodity.guid.clone(),
                            post_date,
                            now,
                            description,
                        );
                        let reconciled_split = NewSplit::create_split(
                            split_guid_a,
                            transaction.guid.clone(),
                            &self.reconciled,
                            String::new(),
                            &self.commodity,
                            a,
                        );
                        let counter_split = NewSplit::create_split(
                            split_guid_b,
                            transaction.guid.clone(),
                            &self.counterparty,
                            String::new(),
                            &self.commodity,
                            -a,
                        );
                        proof {
                            lemma_split_legs_balance(a, self.commodity.fraction);
                        }
                        self.outcomes.push(RecordOutcome::Confirmed(transaction.guid.clone()));
                        self.pos = self.pos + 1;
                        Some(
                            PlannedTransaction { transaction, reconciled_split, counter_split },
                        )
                    },
                }
            },
        }
    }
}

/// Abort semantics: an aborted session holds an outcome for exactly the
/// records prompted before the abort, one per record in order; the records
/// from the abort position on have none, and can never gain one, since a
/// session step requires an unaborted session. Transactions already handed
/// over for earlier confirmed records are unaffected: aborting changes no
/// outcome already recorded.
pub proof fn lemma_abort_leaves_tail_untouched(s: ResolutionSession)
    requires
        s.wf(),
        s.aborted,
    ensures
        s.outcomes@.len() == s.pos,
        s.pos <= s.records@.len(),
{
}

} // verus!
