//! The ledger date index: every ledger row of the selected account that has a
//! posting date, as a `LedgerEntryPairing`, kept in ascending day order with
//! the arrival order preserved inside each day. Rows without a posting date
//! are dropped — they cannot take part in date-based matching.
use vstd::prelude::*;

verus! {

/// One ledger row as delivered by the ledger query: an exact value
/// `value_num / value_denom`, an optional posting day, and the identifying
/// reference of the transaction it belongs to.
pub struct LedgerRow {
    pub posting_day: Option<i64>,
    pub value_num: i64,
    pub value_denom: i64,
    pub tx_guid: String,
}

/// One ledger entry wrapped with its match state: `ext_idx` is the index of
/// the external record it was paired with, if any. It is set at most once and
/// never revoked within a run.
pub struct LedgerEntryPairing {
    pub day: i64,
    pub value_num: i64,
    pub value_denom: i64,
    pub tx_guid: String,
    pub ext_idx: Option<usize>,
}

impl LedgerEntryPairing {
    /// Whether this entry is still unmatched.
    pub fn is_not_matched(&self) -> (r: bool)
        ensures
            r == (self.ext_idx is None),
    {
        self.ext_idx.is_none()
    }
}

impl Clone for LedgerEntryPairing {
    /// Cloning preserves the entry exactly.
    fn clone(&self) -> (r: Self)
        ensures
            r == *self,
    {
        LedgerEntryPairing {
            day: self.day,
            value_num: self.value_num,
            value_denom: self.value_denom,
            tx_guid: self.tx_guid.clone(),
            ext_idx: self.ext_idx,
        }
    }
}

/// The pairing a dated row turns into when the index is built.
pub open spec fn pairing_of(row: LedgerRow) -> LedgerEntryPairing {
    LedgerEntryPairing {
        day: row.posting_day->Some_0,
        value_num: row.value_num,
        value_denom: row.value_denom,
        tx_guid: row.tx_guid,
        ext_idx: None,
    }
}

/// The entries the rows contribute to day `day`, in arrival order.
pub open spec fn day_entries(rows: Seq<LedgerRow>, day: i64) -> Seq<LedgerEntryPairing>
    decreases rows.len(),
{
    if rows.len() == 0 {
        Seq::empty()
    } else {
        let prefix = day_entries(rows.drop_last(), day);
        if rows.last().posting_day == Some(day) {
            prefix.push(pairing_of(rows.last()))
        } else {
            prefix
        }
    }
}

/// Entries in ascending day order.
pub open spec fn day_sorted(s: Seq<LedgerEntryPairing>) -> bool {
    forall|i: int, j: int| 0 <= i < j < s.len() ==> #[trigger] s[i].day <= #[trigger] s[j].day
}

/// The entries of `s` on day `day`, in index order.
pub open spec fn by_day(s: Seq<LedgerEntryPairing>, day: i64) -> Seq<LedgerEntryPairing>
    decreases s.len(),
{
    if s.len() == 0 {
        Seq::empty()
    } else {
        let prefix = by_day(s.drop_last(), day);
        if s.last().day == day {
            prefix.push(s.last())
        } else {
            prefix
        }
    }
}

/// Inserting an entry between everything on its day or earlier and
/// everything strictly later extends exactly its own day's run and leaves
/// every other day's run unchanged.
proof fn lemma_by_day_insert(s: Seq<LedgerEntryPairing>, p: int, e: LedgerEntryPairing, d: i64)
    requires
        0 <= p <= s.len(),
        forall|j: int| 0 <= j < p ==> #[trigger] s[j].day <= e.day,
        forall|j: int| p <= j < s.len() ==> #[trigger] s[j].day > e.day,
    ensures
        by_day(s.insert(p, e), d) == if d == e.day {
            by_day(s, d).push(e)
        } else {
            by_day(s, d)
        },
    decreases s.len(),
{
    if p == s.len() {
        assert(s.insert(p, e) =~= s.push(e));
        assert(by_day(s.push(e), d) == if d == e.day {
            by_day(s, d).push(e)
        } else {
            by_day(s, d)
        }) by {
            assert(s.push(e).drop_last() =~= s);
        }
    } else {
        let t = s.insert(p, e);
        assert(t.last() == s.last());
        assert(t.drop_last() =~= s.drop_last().insert(p, e));
        lemma_by_day_insert(s.drop_last(), p, e, d);
        assert(s[s.len() - 1].day > e.day);
        assert(s.last().day != e.day);
    }
}

/// The date index itself: a flat vector of pairings in ascending day order.
pub struct LedgerDateIndex {
    pub entries: Vec<LedgerEntryPairing>,
}

impl LedgerDateIndex {
    /// The index is well formed when its entries are in ascending day order.
    pub open spec fn wf(self) -> bool {
        day_sorted(self.entries@)
    }

    /// An empty index.
    pub fn empty() -> (r: LedgerDateIndex)
        ensures
            r.wf(),
            r.entries@ =~= Seq::<LedgerEntryPairing>::empty(),
    {
        LedgerDateIndex { entries: Vec::new() }
    }

    /// Builds the index from the ledger rows of one account: every dated row
    /// appears in exactly its posting day's run, in arrival order, unmatched;
    /// undated rows are dropped.
    pub fn build(rows: &Vec<LedgerRow>) -> (r: LedgerDateIndex)
        ensures
            r.wf(),
            forall|d: i64| by_day(r.entries@, d) =~= day_entries(rows@, d),
            forall|i: int|
                0 <= i < r.entries@.len() ==> #[trigger] r.entries@[i].ext_idx is None,
    {
        let mut idx = LedgerDateIndex { entries: Vec::new() };
        let n = rows.len();
        let mut k: usize = 0;
        while k < n
            invariant
                n == rows@.len(),
                0 <= k <= n,
                idx.wf(),
                forall|d: i64| by_day(idx.entries@, d) =~= day_entries(rows@.subrange(0, k as int), d),
                forall|i: int|
                    0 <= i < idx.entries@.len() ==> #[trigger] idx.entries@[i].ext_idx is None,
            decreases n - k,
        {
            let ghost prev = idx.entries@;
            let row = &rows[k];
            if let Some(day) = row.posting_day {
                let pairing = LedgerEntryPairing {
                    day,
                    value_num: row.value_num,
                    value_denom: row.value_denom,
                    tx_guid: row.tx_guid.clone(),
                    ext_idx: None,
                };
                // Position after the last entry on `day` or earlier.
                let mut p: usize = 0;
                while p < idx.entries.len() && idx.entries[p].day <= day
                    invariant
                        0 <= p <= idx.entries@.len(),
                        forall|j: int| 0 <= j < p ==> #[trigger] idx.entries@[j].day <= day,
                    decreases idx.entries@.len() - p,
                {
                    p += 1;
                }
                proof {
                    assert(forall|j: int|
                        p <= j < prev.len() ==> #[trigger] prev[j].day > day) by {
                        assert(p < prev.len() ==> prev[p as int].day > day);
                    }
                }
                idx.entries.insert(p, pairing);
                proof {
                    assert(day_sorted(idx.entries@)) by {
                        assert(idx.entries@ == prev.insert(p as int, pairing));
                        assert(forall|i: int|
                            0 <= i < idx.entries@.len() ==> #[trigger] idx.entries@[i] == if i
                                < p {
                                prev[i]
                            } else if i == p {
                                pairing
                            } else {
                                prev[i - 1]
                            });
                    }
                    assert(rows@.subrange(0, k as int + 1).drop_last() =~= rows@.subrange(
                        0,
                        k as int,
                    ));
                    assert(rows@.subrange(0, k as int + 1).last() == rows@[k as int]);
                    assert(pairing_of(rows@[k as int]) == pairing);
                    assert forall|d: i64|
                        by_day(idx.entries@, d) =~= day_entries(
                            rows@.subrange(0, k as int + 1),
                            d,
                        ) by {
                        lemma_by_day_insert(prev, p as int, pairing, d);
                        assert(idx.entries@ == prev.insert(p as int, pairing));
                        if d == day {
                            assert(day_entries(rows@.subrange(0, k as int + 1), d) == day_entries(
                                rows@.subrange(0, k as int),
                                d,
                            ).push(pairing));
                        } else {
                            assert(rows@[k as int].posting_day != Some(d));
                            assert(day_entries(rows@.subrange(0, k as int + 1), d) == day_entries(
                                rows@.subrange(0, k as int),
                                d,
                            ));
                        }
                    }
                }
            } else {
                proof {
                    assert(rows@.subrange(0, k as int + 1).drop_last() =~= rows@.subrange(
                        0,
                        k as int,
                    ));
                    assert(rows@.subrange(0, k as int + 1).last() == rows@[k as int]);
                    assert forall|d: i64|
                        by_day(idx.entries@, d) =~= day_entries(
                            rows@.subrange(0, k as int + 1),
                            d,
                        ) by {
                        assert(rows@[k as int].posting_day != Some(d));
                        assert(day_entries(rows@.subrange(0, k as int + 1), d) == day_entries(
                            rows@.subrange(0, k as int),
                            d,
                        ));
                    }
                }
            }
            k += 1;
        }
        proof {
            assert(rows@.subrange(0, n as int) =~= rows@);
        }
        idx
    }
}

} // verus!
