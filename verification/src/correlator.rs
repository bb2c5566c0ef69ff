//! The matching engine and the discrepancy reporter.
//!
//! Matching proceeds in passes keyed by a signed day offset: first 0, then
//! +1, -1, +2, -2, ... up to `DELTA_BOUND` inclusive. Each pass walks the
//! still-unresolved external records in order; a record whose authoritative
//! date (shifted by the offset) and exact amount meet a not-yet-matched
//! ledger entry is paired with the first such entry in index order, and both
//! sides are marked atomically. Pairings are never revoked within a run.
use vstd::prelude::*;
use crate::records::{ExternalRecord, MatchingMode, sel_day, record_days_valid};
use crate::index::{
    LedgerRow, LedgerEntryPairing, LedgerDateIndex, day_sorted, day_entries, by_day,
};
use crate::money::{amount_eq, amount_eq_spec};

verus! {

/// The largest day offset (in either direction) the engine will try.
pub const DELTA_BOUND: i64 = 9;

/// A ledger entry can be paired with a record of amount `cents` at day
/// `target` when it is posted on that day, still unmatched, and of exactly
/// equal value.
pub open spec fn eligible(e: LedgerEntryPairing, target: int, cents: i64) -> bool {
    &&& e.day == target
    &&& e.ext_idx is None
    &&& amount_eq_spec(e.value_num, e.value_denom, cents)
}

/// The first eligible entry at or after position `from`, in index order.
pub open spec fn first_eligible_at(
    s: Seq<LedgerEntryPairing>,
    from: int,
    target: int,
    cents: i64,
) -> Option<int>
    decreases s.len() - from,
{
    if from < 0 || from >= s.len() {
        None
    } else if eligible(s[from], target, cents) {
        Some(from)
    } else {
        first_eligible_at(s, from + 1, target, cents)
    }
}

/// The record `r` once the engine has marked it.
pub open spec fn matched_rec(r: ExternalRecord) -> ExternalRecord {
    ExternalRecord { matched: true, ..r }
}

/// The entry `e` once it is linked to external record `k`.
pub open spec fn linked_entry(e: LedgerEntryPairing, k: int) -> LedgerEntryPairing {
    LedgerEntryPairing { ext_idx: Some(k as usize), ..e }
}

/// One attempt of the engine on record `k` at day offset `delta`: if the
/// record is unresolved, has a date under the mode and an amount, and the
/// index holds an eligible entry at the shifted date, both sides are marked;
/// otherwise nothing changes.
pub open spec fn match_step(
    recs: Seq<ExternalRecord>,
    ents: Seq<LedgerEntryPairing>,
    mode: MatchingMode,
    delta: int,
    k: int,
) -> (Seq<ExternalRecord>, Seq<LedgerEntryPairing>) {
    let r = recs[k];
    if r.matched {
        (recs, ents)
    } else {
        match (sel_day(r, mode), r.amount) {
            (Some(d), Some(a)) => match first_eligible_at(ents, 0, d + delta, a) {
                Some(i) => (
                    recs.update(k, matched_rec(r)),
                    ents.update(i, linked_entry(ents[i], k)),
                ),
                None => (recs, ents),
            },
            _ => (recs, ents),
        }
    }
}

/// One pass at offset `delta` over the records with index below `upto`.
pub open spec fn run_pass(
    recs: Seq<ExternalRecord>,
    ents: Seq<LedgerEntryPairing>,
    mode: MatchingMode,
    delta: int,
    upto: int,
) -> (Seq<ExternalRecord>, Seq<LedgerEntryPairing>)
    decreases upto,
{
    if upto <= 0 {
        (recs, ents)
    } else {
        let s = run_pass(recs, ents, mode, delta, upto - 1);
        match_step(s.0, s.1, mode, delta, upto - 1)
    }
}

/// One whole pass at offset `delta`.
pub open spec fn full_pass(
    recs: Seq<ExternalRecord>,
    ents: Seq<LedgerEntryPairing>,
    mode: MatchingMode,
    delta: int,
) -> (Seq<ExternalRecord>, Seq<LedgerEntryPairing>) {
    run_pass(recs, ents, mode, delta, recs.len() as int)
}

/// The passes at offsets 0, +1, -1, ..., +dmax, -dmax, in that order.
pub open spec fn run_rounds(
    recs: Seq<ExternalRecord>,
    ents: Seq<LedgerEntryPairing>,
    mode: MatchingMode,
    dmax: int,
) -> (Seq<ExternalRecord>, Seq<LedgerEntryPairing>)
    decreases dmax,
{
    if dmax <= 0 {
        full_pass(recs, ents, mode, 0)
    } else {
        let s = run_rounds(recs, ents, mode, dmax - 1);
        let t = full_pass(s.0, s.1, mode, dmax);
        full_pass(t.0, t.1, mode, -dmax)
    }
}

/// Every record is resolved.
pub open spec fn all_matched(recs: Seq<ExternalRecord>) -> bool {
    forall|k: int| 0 <= k < recs.len() ==> (#[trigger] recs[k]).matched
}

/// An entry's link, where present, names a matched record.
pub open spec fn link_ok(recs: Seq<ExternalRecord>, e: LedgerEntryPairing) -> bool {
    match e.ext_idx {
        Some(k) => k < recs.len() && recs[k as int].matched,
        None => true,
    }
}

/// The pairing relation is a partial injective function in both directions:
/// every link names a matched record, no two entries link to the same
/// record, and every matched record is linked from some entry.
pub open spec fn links_inv(recs: Seq<ExternalRecord>, ents: Seq<LedgerEntryPairing>) -> bool {
    &&& (forall|i: int| 0 <= i < ents.len() ==> link_ok(recs, #[trigger] ents[i]))
    &&& (forall|i: int, j: int|
        0 <= i < ents.len() && 0 <= j < ents.len() && i != j && (#[trigger] ents[i]).ext_idx is Some
            ==> ents[i].ext_idx != (#[trigger] ents[j]).ext_idx)
    &&& (forall|k: int|
        0 <= k < recs.len() && (#[trigger] recs[k]).matched ==> exists|i: int|
            0 <= i < ents.len() && (#[trigger] ents[i]).ext_idx == Some(k as usize))
}

/// How one record may change across engine work: everything but the match
/// flag is untouched, and a matched record never changes again.
pub open spec fn record_evolves(a: ExternalRecord, b: ExternalRecord) -> bool {
    &&& b.amount == a.amount
    &&& b.spending_day == a.spending_day
    &&& b.booking_day == a.booking_day
    &&& b.description == a.description
    &&& (a.matched ==> b == a)
}

/// How one entry may change: everything but the link is untouched, and a
/// link once set never changes again.
pub open spec fn entry_evolves(a: LedgerEntryPairing, b: LedgerEntryPairing) -> bool {
    &&& b.day == a.day
    &&& b.value_num == a.value_num
    &&& b.value_denom == a.value_denom
    &&& b.tx_guid == a.tx_guid
    &&& (a.ext_idx is Some ==> b.ext_idx == a.ext_idx)
}

/// Pointwise evolution of the whole match state.
pub open spec fn state_evolves(
    a: (Seq<ExternalRecord>, Seq<LedgerEntryPairing>),
    b: (Seq<ExternalRecord>, Seq<LedgerEntryPairing>),
) -> bool {
    &&& b.0.len() == a.0.len()
    &&& b.1.len() == a.1.len()
    &&& (forall|m: int| 0 <= m < a.0.len() ==> record_evolves(#[trigger] a.0[m], b.0[m]))
    &&& (forall|i: int| 0 <= i < a.1.len() ==> entry_evolves(#[trigger] a.1[i], b.1[i]))
}

pub proof fn lemma_evolves_trans(
    a: (Seq<ExternalRecord>, Seq<LedgerEntryPairing>),
    b: (Seq<ExternalRecord>, Seq<LedgerEntryPairing>),
    c: (Seq<ExternalRecord>, Seq<LedgerEntryPairing>),
)
    requires
        state_evolves(a, b),
        state_evolves(b, c),
    ensures
        state_evolves(a, c),
{
}

/// One step only marks: the state evolves, and a step on a matched record is
/// a no-op.
pub proof fn lemma_step_evolves(
    recs: Seq<ExternalRecord>,
    ents: Seq<LedgerEntryPairing>,
    mode: MatchingMode,
    delta: int,
    k: int,
)
    requires
        0 <= k < recs.len(),
    ensures
        state_evolves((recs, ents), match_step(recs, ents, mode, delta, k)),
        recs[k].matched ==> match_step(recs, ents, mode, delta, k) == (recs, ents),
{
    let s = match_step(recs, ents, mode, delta, k);
    if !recs[k].matched {
        match (sel_day(recs[k], mode), recs[k].amount) {
            (Some(d), Some(a)) => {
                match first_eligible_at(ents, 0, d + delta, a) {
                    Some(i) => {
                        lemma_first_eligible_is_eligible(ents, 0, d + delta, a);
                    },
                    None => {},
                }
            },
            _ => {},
        }
    }
}

/// Where the scan returns an index, that index is in range, eligible, and
/// first: nothing before it is eligible.
pub proof fn lemma_first_eligible_is_eligible(
    s: Seq<LedgerEntryPairing>,
    from: int,
    target: int,
    cents: i64,
)
    ensures
        first_eligible_at(s, from, target, cents) matches Some(i) ==> from <= i < s.len()
            && eligible(s[i], target, cents) && (forall|j: int|
            from <= j < i ==> !eligible(#[trigger] s[j], target, cents)),
        first_eligible_at(s, from, target, cents) is None && from >= 0 ==> forall|j: int|
            from <= j < s.len() ==> !eligible(#[trigger] s[j], target, cents),
    decreases s.len() - from,
{
    if 0 <= from < s.len() && !eligible(s[from], target, cents) {
        lemma_first_eligible_is_eligible(s, from + 1, target, cents);
    }
}

/// A pass only marks: the state evolves.
pub proof fn lemma_pass_evolves(
    recs: Seq<ExternalRecord>,
    ents: Seq<LedgerEntryPairing>,
    mode: MatchingMode,
    delta: int,
    upto: int,
)
    requires
        upto <= recs.len(),
    ensures
        state_evolves((recs, ents), run_pass(recs, ents, mode, delta, upto)),
    decreases upto,
{
    if upto > 0 {
        lemma_pass_evolves(recs, ents, mode, delta, upto - 1);
        let s = run_pass(recs, ents, mode, delta, upto - 1);
        lemma_step_evolves(s.0, s.1, mode, delta, upto - 1);
        lemma_evolves_trans((recs, ents), s, match_step(s.0, s.1, mode, delta, upto - 1));
    }
}

/// The whole schedule of rounds only marks: the state evolves.
pub proof fn lemma_rounds_evolves(
    recs: Seq<ExternalRecord>,
    ents: Seq<LedgerEntryPairing>,
    mode: MatchingMode,
    dmax: int,
)
    ensures
        state_evolves((recs, ents), run_rounds(recs, ents, mode, dmax)),
    decreases dmax,
{
    if dmax <= 0 {
        lemma_pass_evolves(recs, ents, mode, 0, recs.len() as int);
    } else {
        lemma_rounds_evolves(recs, ents, mode, dmax - 1);
        let s = run_rounds(recs, ents, mode, dmax - 1);
        lemma_pass_evolves(s.0, s.1, mode, dmax, s.0.len() as int);
        let t = full_pass(s.0, s.1, mode, dmax);
        lemma_pass_evolves(t.0, t.1, mode, -dmax, t.0.len() as int);
        lemma_evolves_trans((recs, ents), s, t);
        lemma_evolves_trans((recs, ents), t, full_pass(t.0, t.1, mode, -dmax));
    }
}

/// Offset monotonicity: a record matched after the rounds up to `d1` is
/// never reconsidered by any later round; its state is identical after the
/// rounds up to any `d2 >= d1`, and so is the entry linked to it.
pub proof fn lemma_offset_monotonicity(
    recs: Seq<ExternalRecord>,
    ents: Seq<LedgerEntryPairing>,
    mode: MatchingMode,
    d1: int,
    d2: int,
    k: int,
)
    requires
        0 <= d1 <= d2,
        0 <= k < run_rounds(recs, ents, mode, d1).0.len(),
        run_rounds(recs, ents, mode, d1).0[k].matched,
    ensures
        run_rounds(recs, ents, mode, d2).0[k] == run_rounds(recs, ents, mode, d1).0[k],
    decreases d2 - d1,
{
    if d2 > d1 {
        lemma_offset_monotonicity(recs, ents, mode, d1, d2 - 1, k);
        lemma_rounds_evolves(recs, ents, mode, d1);
        lemma_rounds_evolves(recs, ents, mode, d2 - 1);
        let s = run_rounds(recs, ents, mode, d2 - 1);
        assert(s.0.len() == recs.len());
        assert(s.0[k].matched);
        lemma_pass_evolves(s.0, s.1, mode, d2, s.0.len() as int);
        let t = full_pass(s.0, s.1, mode, d2);
        assert(record_evolves(s.0[k], t.0[k]));
        assert(t.0[k] == s.0[k]);
        lemma_pass_evolves(t.0, t.1, mode, -d2, t.0.len() as int);
        assert(record_evolves(t.0[k], run_rounds(recs, ents, mode, d2).0[k]));
    }
}

/// One step preserves the injectivity invariant.
pub proof fn lemma_step_links(
    recs: Seq<ExternalRecord>,
    ents: Seq<LedgerEntryPairing>,
    mode: MatchingMode,
    delta: int,
    k: int,
)
    requires
        0 <= k < recs.len(),
        recs.len() <= usize::MAX,
        links_inv(recs, ents),
    ensures
        links_inv(match_step(recs, ents, mode, delta, k).0, match_step(recs, ents, mode, delta, k).1),
{
    let s = match_step(recs, ents, mode, delta, k);
    if !recs[k].matched {
        match (sel_day(recs[k], mode), recs[k].amount) {
            (Some(d), Some(a)) => {
                match first_eligible_at(ents, 0, d + delta, a) {
                    Some(i) => {
                        lemma_first_eligible_is_eligible(ents, 0, d + delta, a);
                        let r2 = s.0;
                        let e2 = s.1;
                        assert forall|j: int| 0 <= j < e2.len() implies link_ok(
                            r2,
                            #[trigger] e2[j],
                        ) by {
                            assert(link_ok(recs, ents[j]));
                        }
                        assert forall|k2: int|
                            0 <= k2 < r2.len() && (#[trigger] r2[k2]).matched implies exists|i2: int|
                            0 <= i2 < e2.len() && (#[trigger] e2[i2]).ext_idx == Some(
                                k2 as usize,
                            ) by {
                            if k2 == k {
                                assert(e2[i].ext_idx == Some(k2 as usize));
                            } else {
                                assert(recs[k2].matched);
                                let i2 = choose|i2: int|
                                    0 <= i2 < ents.len() && (#[trigger] ents[i2]).ext_idx == Some(
                                        k2 as usize,
                                    );
                                assert(i2 != i);
                                assert(e2[i2].ext_idx == Some(k2 as usize));
                            }
                        }
                        assert forall|i1: int, j1: int|
                            0 <= i1 < e2.len() && 0 <= j1 < e2.len() && i1 != j1 && (
                            #[trigger] e2[i1]).ext_idx is Some implies e2[i1].ext_idx != (
                        #[trigger] e2[j1]).ext_idx by {
                            if i1 == i {
                                if e2[j1].ext_idx == Some(k as usize) {
                                    assert(link_ok(recs, ents[j1]));
                                    assert(recs[k].matched);
                                }
                            } else if j1 == i {
                                if e2[i1].ext_idx == Some(k as usize) {
                                    assert(link_ok(recs, ents[i1]));
                                    assert(recs[k].matched);
                                }
                            } else {
                                assert(link_ok(recs, ents[i1]));
                            }
                        }
                    },
                    None => {},
                }
            },
            _ => {},
        }
    }
}

/// A pass preserves the injectivity invariant.
pub proof fn lemma_pass_links(
    recs: Seq<ExternalRecord>,
    ents: Seq<LedgerEntryPairing>,
    mode: MatchingMode,
    delta: int,
    upto: int,
)
    requires
        upto <= recs.len(),
        recs.len() <= usize::MAX,
        links_inv(recs, ents),
    ensures
        links_inv(run_pass(recs, ents, mode, delta, upto).0, run_pass(recs, ents, mode, delta, upto).1),
    decreases upto,
{
    if upto > 0 {
        lemma_pass_links(recs, ents, mode, delta, upto - 1);
        let s = run_pass(recs, ents, mode, delta, upto - 1);
        lemma_pass_evolves(recs, ents, mode, delta, upto - 1);
        lemma_step_links(s.0, s.1, mode, delta, upto - 1);
    }
}

/// Injectivity of the whole run: after any schedule of rounds starting from
/// a state with injective links, no two external records are linked from the
/// same ledger entry and no two entries link the same record.
pub proof fn lemma_matching_injective(
    recs: Seq<ExternalRecord>,
    ents: Seq<LedgerEntryPairing>,
    mode: MatchingMode,
    dmax: int,
)
    requires
        recs.len() <= usize::MAX,
        links_inv(recs, ents),
    ensures
        links_inv(run_rounds(recs, ents, mode, dmax).0, run_rounds(recs, ents, mode, dmax).1),
    decreases dmax,
{
    if dmax <= 0 {
        lemma_pass_links(recs, ents, mode, 0, recs.len() as int);
    } else {
        lemma_matching_injective(recs, ents, mode, dmax - 1);
        let s = run_rounds(recs, ents, mode, dmax - 1);
        lemma_rounds_evolves(recs, ents, mode, dmax - 1);
        lemma_pass_links(s.0, s.1, mode, dmax, s.0.len() as int);
        let t = full_pass(s.0, s.1, mode, dmax);
        lemma_pass_evolves(s.0, s.1, mode, dmax, s.0.len() as int);
        lemma_pass_links(t.0, t.1, mode, -dmax, t.0.len() as int);
    }
}

/// A pass over an all-matched state changes nothing.
pub proof fn lemma_pass_noop(
    recs: Seq<ExternalRecord>,
    ents: Seq<LedgerEntryPairing>,
    mode: MatchingMode,
    delta: int,
    upto: int,
)
    requires
        upto <= recs.len(),
        all_matched(recs),
    ensures
        run_pass(recs, ents, mode, delta, upto) == (recs, ents),
    decreases upto,
{
    if upto > 0 {
        lemma_pass_noop(recs, ents, mode, delta, upto - 1);
    }
}

/// Once every record is matched, later rounds change nothing.
pub proof fn lemma_rounds_stable(
    recs: Seq<ExternalRecord>,
    ents: Seq<LedgerEntryPairing>,
    mode: MatchingMode,
    d1: int,
    d2: int,
)
    requires
        0 <= d1 <= d2,
        all_matched(run_rounds(recs, ents, mode, d1).0),
    ensures
        run_rounds(recs, ents, mode, d2) == run_rounds(recs, ents, mode, d1),
    decreases d2 - d1,
{
    if d2 > d1 {
        lemma_rounds_stable(recs, ents, mode, d1, d2 - 1);
        let s = run_rounds(recs, ents, mode, d2 - 1);
        lemma_pass_noop(s.0, s.1, mode, d2, s.0.len() as int);
        lemma_pass_noop(s.0, s.1, mode, -d2, s.0.len() as int);
    }
}

/// The still-unresolved records, in original order.
pub open spec fn unmatched_records(recs: Seq<ExternalRecord>) -> Seq<ExternalRecord>
    decreases recs.len(),
{
    if recs.len() == 0 {
        Seq::empty()
    } else {
        let p = unmatched_records(recs.drop_last());
        if recs.last().matched {
            p
        } else {
            p.push(recs.last())
        }
    }
}

/// Whether `day` lies in the closed interval `[min, max]`; an undefined
/// bound means the window is unbounded, so everything is in.
pub open spec fn in_window(day: i64, min: Option<i64>, max: Option<i64>) -> bool {
    match (min, max) {
        (Some(mn), Some(mx)) => mn <= day && day <= mx,
        _ => true,
    }
}

/// The unmatched ledger entries whose day lies in the window, in index
/// order.
pub open spec fn unmatched_entries(
    s: Seq<LedgerEntryPairing>,
    min: Option<i64>,
    max: Option<i64>,
) -> Seq<LedgerEntryPairing>
    decreases s.len(),
{
    if s.len() == 0 {
        Seq::empty()
    } else {
        let p = unmatched_entries(s.drop_last(), min, max);
        let e = s.last();
        if e.ext_idx is None && in_window(e.day, min, max) {
            p.push(e)
        } else {
            p
        }
    }
}

/// Windowing: everything the ledger-side report holds is an unmatched entry
/// dated within the closed window; entries strictly outside it never appear.
pub proof fn lemma_windowing(s: Seq<LedgerEntryPairing>, min: Option<i64>, max: Option<i64>)
    ensures
        forall|i: int|
            0 <= i < unmatched_entries(s, min, max).len() ==> in_window(
                (#[trigger] unmatched_entries(s, min, max)[i]).day,
                min,
                max,
            ) && unmatched_entries(s, min, max)[i].ext_idx is None,
    decreases s.len(),
{
    if s.len() > 0 {
        lemma_windowing(s.drop_last(), min, max);
    }
}

/// Idempotence of reporting: both discrepancy reports are pure functions of
/// the final match state, so two reporting runs without intervening matching
/// return identical sequences.
pub proof fn lemma_report_idempotent(
    recs: Seq<ExternalRecord>,
    ents: Seq<LedgerEntryPairing>,
    min: Option<i64>,
    max: Option<i64>,
    ledger1: Seq<LedgerEntryPairing>,
    ledger2: Seq<LedgerEntryPairing>,
    external1: Seq<ExternalRecord>,
    external2: Seq<ExternalRecord>,
)
    requires
        ledger1 == unmatched_entries(ents, min, max),
        ledger2 == unmatched_entries(ents, min, max),
        external1 == unmatched_records(recs),
        external2 == unmatched_records(recs),
    ensures
        ledger1 == ledger2,
        external1 == external2,
{
}

/// The matching engine's state for one run: the external record set with its
/// date span, the selected account, the active matching mode, and the ledger
/// date index with its match state.
pub struct TransactionCorrelator {
    pub records: Vec<ExternalRecord>,
    pub min_date: Option<i64>,
    pub max_date: Option<i64>,
    pub account: String,
    pub matching: MatchingMode,
    pub index: LedgerDateIndex,
}

impl TransactionCorrelator {
    /// Dates in bounds, index in day order, and the pairing relation
    /// injective in both directions.
    pub open spec fn wf(self) -> bool {
        &&& day_sorted(self.index.entries@)
        &&& links_inv(self.records@, self.index.entries@)
        &&& forall|k: int|
            0 <= k < self.records@.len() ==> record_days_valid(#[trigger] self.records@[k])
    }

    /// The mutable match state the engine folds over.
    pub open spec fn match_state(self) -> (Seq<ExternalRecord>, Seq<LedgerEntryPairing>) {
        (self.records@, self.index.entries@)
    }

    /// A correlator over a freshly loaded external record set, with an empty
    /// index.
    pub fn new(
        records: Vec<ExternalRecord>,
        min_date: Option<i64>,
        max_date: Option<i64>,
        account: String,
        matching: MatchingMode,
    ) -> (r: Self)
        requires
            forall|k: int| 0 <= k < records@.len() ==> !(#[trigger] records@[k]).matched,
            forall|k: int| 0 <= k < records@.len() ==> record_days_valid(#[trigger] records@[k]),
        ensures
            r.records == records,
            r.min_date == min_date,
            r.max_date == max_date,
            r.account == account,
            r.matching == matching,
            r.index.entries@ =~= Seq::<LedgerEntryPairing>::empty(),
            r.wf(),
    {
        TransactionCorrelator {
            records,
            min_date,
            max_date,
            account,
            matching,
            index: LedgerDateIndex::empty(),
        }
    }

    /// Builds the date index from the ledger rows of the selected account.
    /// Only the index changes; it ends well formed, entirely unmatched, with
    /// every dated row in its posting day's run.
    pub fn build_mapping(&mut self, rows: &Vec<LedgerRow>)
        requires
            old(self).wf(),
            forall|k: int|
                0 <= k < old(self).records@.len() ==> !(#[trigger] old(self).records@[k]).matched,
        ensures
            final(self).records == old(self).records,
            final(self).min_date == old(self).min_date,
            final(self).max_date == old(self).max_date,
            final(self).account == old(self).account,
            final(self).matching == old(self).matching,
            forall|d: i64| by_day(final(self).index.entries@, d) =~= day_entries(rows@, d),
            forall|i: int|
                0 <= i < final(self).index.entries@.len()
                    ==> (#[trigger] final(self).index.entries@[i]).ext_idx is None,
            final(self).wf(),
    {
        self.index = LedgerDateIndex::build(rows);
    }

    /// The smallest date the external source spans, if any.
    pub fn get_min_date(&self) -> (r: Option<i64>)
        ensures
            r == self.min_date,
    {
        self.min_date
    }

    /// The largest date the external source spans, if any.
    pub fn get_max_date(&self) -> (r: Option<i64>)
        ensures
            r == self.max_date,
    {
        self.max_date
    }

    /// One attempt to pair record `k` at day offset `delta_day`: the first
    /// still-unmatched ledger entry of exactly equal amount on the record's
    /// shifted authoritative date, in index order, is linked with it, and
    /// both sides are marked atomically. Returns whether a pairing was made.
    #[verifier::loop_isolation(false)]
    pub fn add_transaction(&mut self, delta_day: i64, k: usize) -> (paired: bool)
        requires
            old(self).wf(),
            k < old(self).records@.len(),
            -DELTA_BOUND - 1 <= delta_day <= DELTA_BOUND + 1,
        ensures
            final(self).match_state() == match_step(
                old(self).records@,
                old(self).index.entries@,
                old(self).matching,
                delta_day as int,
                k as int,
            ),
            final(self).min_date == old(self).min_date,
            final(self).max_date == old(self).max_date,
            final(self).account == old(self).account,
            final(self).matching == old(self).matching,
            final(self).records@.len() == old(self).records@.len(),
            final(self).wf(),
            paired == (final(self).records@[k as int].matched && !old(
                self,
            ).records@[k as int].matched),
    {
        let _nrec = self.records.len();
        proof {
            lemma_step_evolves(
                self.records@,
                self.index.entries@,
                self.matching,
                delta_day as int,
                k as int,
            );
            lemma_step_links(
                self.records@,
                self.index.entries@,
                self.matching,
                delta_day as int,
                k as int,
            );
        }
        if self.records[k].matched {
            return false;
        }
        let day_opt = self.records[k].get_matching_date(self.matching);
        let amount_opt = self.records[k].amount;
        let (d, a) = match (day_opt, amount_opt) {
            (Some(d), Some(a)) => (d, a),
            _ => {
                return false;
            },
        };
        let target = d + delta_day;
        let ghost ents0 = self.index.entries@;
        let n = self.index.entries.len();
        let mut i: usize = 0;
        while i < n
            invariant
                *self == *old(self),
                n == self.index.entries@.len(),
                0 <= i <= n,
                self.index.entries@ == ents0,
                target == d + delta_day,
                first_eligible_at(ents0, 0, target as int, a) == first_eligible_at(
                    ents0,
                    i as int,
                    target as int,
                    a,
                ),
            decreases n - i,
        {
            let hit = {
                let e = &self.index.entries[i];
                e.day == target && e.ext_idx.is_none() && amount_eq(e.value_num, e.value_denom, a)
            };
            if hit {
                proof {
                    assert(eligible(ents0[i as int], target as int, a));
                    assert(first_eligible_at(ents0, i as int, target as int, a) == Some(i as int));
                }
                self.records[k].matched = true;
                self.index.entries[i].ext_idx = Some(k);
                proof {
                    assert(self.records@ =~= old(self).records@.update(
                        k as int,
                        matched_rec(old(self).records@[k as int]),
                    ));
                    assert(self.index.entries@ =~= ents0.update(
                        i as int,
                        linked_entry(ents0[i as int], k as int),
                    ));
                    assert(self.match_state() == match_step(
                        old(self).records@,
                        old(self).index.entries@,
                        old(self).matching,
                        delta_day as int,
                        k as int,
                    ));
                    assert(day_sorted(self.index.entries@)) by {
                        assert(forall|j: int|
                            0 <= j < self.index.entries@.len() ==> (#[trigger] self
                                .index
                                .entries@[j]).day == ents0[j].day);
                    }
                    assert(forall|m: int|
                        0 <= m < self.records@.len() ==> record_days_valid(
                            #[trigger] self.records@[m],
                        )) by {
                        assert(forall|m: int|
                            0 <= m < self.records@.len() && m != k as int
                                ==> #[trigger] self.records@[m] == old(self).records@[m]);
                    }
                }
                return true;
            }
            proof {
                assert(!eligible(ents0[i as int], target as int, a));
                assert(first_eligible_at(ents0, i as int, target as int, a) == first_eligible_at(
                    ents0,
                    i as int + 1,
                    target as int,
                    a,
                ));
            }
            i += 1;
        }
        proof {
            assert(first_eligible_at(ents0, 0, target as int, a) is None);
        }
        false
    }

    /// One pass: tries every still-unresolved record, in order, at day
    /// offset `delta_day`.
    #[verifier::loop_isolation(false)]
    pub fn match_transactions_with_delta_day(&mut self, delta_day: i64)
        requires
            old(self).wf(),
            -DELTA_BOUND - 1 <= delta_day <= DELTA_BOUND + 1,
        ensures
            final(self).match_state() == full_pass(
                old(self).records@,
                old(self).index.entries@,
                old(self).matching,
                delta_day as int,
            ),
            final(self).min_date == old(self).min_date,
            final(self).max_date == old(self).max_date,
            final(self).account == old(self).account,
            final(self).matching == old(self).matching,
            final(self).records@.len() == old(self).records@.len(),
            final(self).wf(),
    {
        let n = self.records.len();
        let mut k: usize = 0;
        while k < n
            invariant
                self.wf(),
                n == old(self).records@.len(),
                self.records@.len() == n,
                0 <= k <= n,
                self.match_state() == run_pass(
                    old(self).records@,
                    old(self).index.entries@,
                    old(self).matching,
                    delta_day as int,
                    k as int,
                ),
                self.min_date == old(self).min_date,
                self.max_date == old(self).max_date,
                self.account == old(self).account,
                self.matching == old(self).matching,
                -DELTA_BOUND - 1 <= delta_day <= DELTA_BOUND + 1,
            decreases n - k,
        {
            self.add_transaction(delta_day, k);
            k += 1;
        }
    }

    /// Whether any record is still unresolved.
    fn any_unresolved(&self) -> (r: bool)
        ensures
            r == !all_matched(self.records@),
    {
        let n = self.records.len();
        let mut k: usize = 0;
        while k < n
            invariant
                n == self.records@.len(),
                0 <= k <= n,
                forall|j: int| 0 <= j < k ==> (#[trigger] self.records@[j]).matched,
            decreases n - k,
        {
            if !self.records[k].matched {
                return true;
            }
            k += 1;
        }
        false
    }

    /// The whole matching run: a pass at offset 0, then passes at +1, -1,
    /// +2, -2, ... up to the bound, stopping early once no record remains
    /// unresolved. Returns the records still unresolved, in original order;
    /// the final state keeps the pairing relation injective.
    #[verifier::loop_isolation(false)]
    pub fn match_transactions(&mut self) -> (unmatched: Vec<ExternalRecord>)
        requires
            old(self).wf(),
        ensures
            final(self).match_state() == run_rounds(
                old(self).records@,
                old(self).index.entries@,
                old(self).matching,
                DELTA_BOUND as int,
            ),
            final(self).min_date == old(self).min_date,
            final(self).max_date == old(self).max_date,
            final(self).account == old(self).account,
            final(self).matching == old(self).matching,
            final(self).wf(),
            unmatched@ == unmatched_records(final(self).records@),
    {
        self.match_transactions_with_delta_day(0);
        let mut unresolved = self.any_unresolved();
        let mut delta: i64 = 0;
        while unresolved && delta < DELTA_BOUND
            invariant
                self.wf(),
                0 <= delta <= DELTA_BOUND,
                self.match_state() == run_rounds(
                    old(self).records@,
                    old(self).index.entries@,
                    old(self).matching,
                    delta as int,
                ),
                unresolved == !all_matched(self.records@),
                self.min_date == old(self).min_date,
                self.max_date == old(self).max_date,
                self.account == old(self).account,
                self.matching == old(self).matching,
            decreases DELTA_BOUND - delta,
        {
            delta = delta + 1;
            self.match_transactions_with_delta_day(delta);
            self.match_transactions_with_delta_day(-delta);
            unresolved = self.any_unresolved();
        }
        proof {
            if !(!all_matched(self.records@)) {
                lemma_rounds_stable(
                    old(self).records@,
                    old(self).index.entries@,
                    old(self).matching,
                    delta as int,
                    DELTA_BOUND as int,
                );
            }
        }
        let n = self.records.len();
        let mut result: Vec<ExternalRecord> = Vec::new();
        let mut k: usize = 0;
        while k < n
            invariant
                n == self.records@.len(),
                0 <= k <= n,
                result@ =~= unmatched_records(self.records@.subrange(0, k as int)),
            decreases n - k,
        {
            let ghost prefix = self.records@.subrange(0, k as int);
            if !self.records[k].matched {
                result.push(self.records[k].clone());
            }
            proof {
                assert(self.records@.subrange(0, k as int + 1).drop_last() =~= prefix);
                assert(self.records@.subrange(0, k as int + 1).last() == self.records@[k as int]);
            }
            k += 1;
        }
        proof {
            assert(self.records@.subrange(0, n as int) =~= self.records@);
        }
        result
    }

    /// The ledger-side discrepancy report: every still-unmatched ledger
    /// entry posted within the external set's date span, in index order —
    /// or every unmatched entry regardless of date, where either bound of
    /// the span is undefined.
    pub fn get_unmatched(&self) -> (r: Vec<LedgerEntryPairing>)
        ensures
            r@ =~= unmatched_entries(self.index.entries@, self.min_date, self.max_date),
    {
        let n = self.index.entries.len();
        let mut result: Vec<LedgerEntryPairing> = Vec::new();
        let mut i: usize = 0;
        while i < n
            invariant
                n == self.index.entries@.len(),
                0 <= i <= n,
                result@ =~= unmatched_entries(
                    self.index.entries@.subrange(0, i as int),
                    self.min_date,
                    self.max_date,
                ),
            decreases n - i,
        {
            let ghost prefix = self.index.entries@.subrange(0, i as int);
            let e = &self.index.entries[i];
            let inside = match (self.min_date, self.max_date) {
                (Some(mn), Some(mx)) => mn <= e.day && e.day <= mx,
                _ => true,
            };
            if e.ext_idx.is_none() && inside {
                result.push(self.index.entries[i].clone());
            }
            proof {
                assert(self.index.entries@.subrange(0, i as int + 1).drop_last() =~= prefix);
                assert(self.index.entries@.subrange(0, i as int + 1).last()
                    == self.index.entries@[i as int]);
            }
            i += 1;
        }
        proof {
            assert(self.index.entries@.subrange(0, n as int) =~= self.index.entries@);
        }
        result
    }
}

} // verus!
