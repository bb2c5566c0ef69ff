//! Rows bound for the ledger store: a transaction row and its split legs.
//! Amounts are converted from the external record's minor units to each
//! denomination exactly, with rounding to the nearest unit, so the two legs
//! of a double-entry transaction balance exactly.
use vstd::prelude::*;
use crate::Timestamp;
use crate::money::{AMOUNT_DENOM, round_half_away, round_scaled};

verus! {

/// A ledger account: its identifier, the commodity it is denominated in,
/// and the smallest-currency-unit factor of that denomination.
pub struct Account {
    pub guid: String,
    pub name: String,
    pub commodity_guid: Option<String>,
    pub commodity_scu: i64,
}

/// A commodity (currency): its identifier and its minor-unit fraction.
pub struct Commodity {
    pub guid: String,
    pub fraction: i64,
}

/// Inclusive bound on external amounts (in minor units) that the conversion
/// to split values accepts.
pub const MAX_AMOUNT: i64 = 0x100_0000_0000;

/// Inclusive bound on a commodity's fraction and an account's
/// smallest-currency-unit factor.
pub const MAX_FRACTION: i64 = 0x10_0000;

/// One split row to be written: one leg of a double-entry transaction,
/// attributing an exact value `value_num / value_denom` (and a quantity in
/// the account's own precision) to one account.
pub struct NewSplit {
    pub guid: String,
    pub tx_guid: String,
    pub account_guid: String,
    pub memo: String,
    pub action: String,
    pub reconcile_state: String,
    pub reconcile_date: String,
    pub value_num: i64,
    pub value_denom: i64,
    pub quantity_num: i64,
    pub quantity_denom: i64,
    pub lot_guid: String,
}

/// One transaction row to be written. The posting date, where present, is
/// kept as a timestamp; the entry date is the moment of creation.
pub struct NewTransaction {
    pub guid: String,
    pub currency_guid: String,
    pub num: String,
    pub post_date: Option<Timestamp>,
    pub enter_date: Timestamp,
    pub description: String,
}

/// The external amount `cents` converted to a denomination of `scale` units
/// per currency unit, rounded to the nearest unit, ties away from zero.
pub open spec fn scaled_value(cents: i64, scale: i64) -> int {
    round_half_away(cents * scale, AMOUNT_DENOM as int)
}

/// The conversion bounds keep every scaled value well inside `i64`.
pub proof fn lemma_scaled_value_bounded(cents: i64, scale: i64)
    requires
        -MAX_AMOUNT <= cents <= MAX_AMOUNT,
        0 < scale <= MAX_FRACTION,
    ensures
        -0x1000_0000_0000_0064 <= scaled_value(cents, scale) <= 0x1000_0000_0000_0064,
        -0x1000_0000_0000_0000 <= (cents as int) * (scale as int) <= 0x1000_0000_0000_0000,
{
    let n = (cents as int) * (scale as int);
    assert(-0x1000_0000_0000_0000 <= (cents as int) * (scale as int) <= 0x1000_0000_0000_0000)
        by (nonlinear_arith)
        requires
            -0x100_0000_0000 <= cents as int <= 0x100_0000_0000,
            0 < scale as int <= 0x10_0000,
    ;
    if n >= 0 {
        assert(scaled_value(cents, scale) == (n + 50) / 100);
        assert(0 <= (n + 50) / 100 <= n + 50) by (nonlinear_arith)
            requires
                n >= 0,
        ;
    } else {
        assert(scaled_value(cents, scale) == -(((-n) + 50) / 100));
        assert(0 <= ((-n) + 50) / 100 <= (-n) + 50) by (nonlinear_arith)
            requires
                -n > 0,
        ;
    }
}

impl NewSplit {
    /// A split with the bookkeeping fields every new split shares: no
    /// action, not reconciled, no lot.
    pub fn new_with_defaults(
        guid: String,
        tx_guid: String,
        account_guid: String,
        memo: String,
        value_num: i64,
        value_denom: i64,
        quantity_num: i64,
        quantity_denom: i64,
    ) -> (s: NewSplit)
        ensures
            s.guid == guid,
            s.tx_guid == tx_guid,
            s.account_guid == account_guid,
            s.memo == memo,
            s.action@ == Seq::<char>::empty(),
            s.reconcile_state@ == "n"@,
            s.reconcile_date@ == Seq::<char>::empty(),
            s.value_num == value_num,
            s.value_denom == value_denom,
            s.quantity_num == quantity_num,
            s.quantity_denom == quantity_denom,
            s.lot_guid@ == Seq::<char>::empty(),
    {
        NewSplit {
            guid,
            tx_guid,
            account_guid,
            memo,
            action: String::new(),
            reconcile_state: String::from_str("n"),
            reconcile_date: String::new(),
            value_num,
            value_denom,
            quantity_num,
            quantity_denom,
            lot_guid: String::new(),
        }
    }

    /// One leg of amount `amount` (external minor units) against `account`:
    /// the value in the commodity's fraction and the quantity in the
    /// account's own smallest-unit factor, both rounded to the nearest unit.
    pub fn create_split(
        split_guid: String,
        tx_guid: String,
        account: &Account,
        memo: String,
        currency: &Commodity,
        amount: i64,
    ) -> (s: NewSplit)
        requires
            -MAX_AMOUNT <= amount <= MAX_AMOUNT,
            0 < currency.fraction <= MAX_FRACTION,
            0 < account.commodity_scu <= MAX_FRACTION,
        ensures
            s.guid == split_guid,
            s.tx_guid == tx_guid,
            s.account_guid == account.guid,
            s.memo == memo,
            s.value_num == scaled_value(amount, currency.fraction),
            s.value_denom == currency.fraction,
            s.quantity_num == scaled_value(amount, account.commodity_scu),
            s.quantity_denom == account.commodity_scu,
    {
        proof {
            lemma_scaled_value_bounded(amount, currency.fraction);
            lemma_scaled_value_bounded(amount, account.commodity_scu);
        }
        let value_wide: i128 = (amount as i128) * (currency.fraction as i128);
        let value_num = round_scaled(value_wide, AMOUNT_DENOM as i128) as i64;
        let quantity_wide: i128 = (amount as i128) * (account.commodity_scu as i128);
        let quantity_num = round_scaled(quantity_wide, AMOUNT_DENOM as i128) as i64;
        NewSplit::new_with_defaults(
            split_guid,
            tx_guid,
            account.guid.clone(),
            memo,
            value_num,
            currency.fraction,
            quantity_num,
            account.commodity_scu,
        )
    }
}

/// The two legs of one transaction balance exactly: converting `amount` and
/// `-amount` to the same denomination gives values that sum to zero.
pub proof fn lemma_split_legs_balance(amount: i64, scale: i64)
    requires
        -MAX_AMOUNT <= amount <= MAX_AMOUNT,
        0 < scale <= MAX_FRACTION,
    ensures
        scaled_value(amount, scale) + scaled_value((-amount) as i64, scale) == 0,
{
    assert((-amount) * scale == -(amount * scale)) by (nonlinear_arith);
    crate::money::lemma_round_negate(amount * scale, AMOUNT_DENOM as int);
}

impl NewTransaction {
    /// A transaction row with the given identity, denomination, dates and
    /// description; the `num` field is always left empty.
    pub fn new(
        guid: String,
        currency_guid: String,
        post_date: Option<Timestamp>,
        enter_date: Timestamp,
        description: String,
    ) -> (t: NewTransaction)
        ensures
            t.guid == guid,
            t.currency_guid == currency_guid,
            t.num@ == Seq::<char>::empty(),
            t.post_date == post_date,
            t.enter_date == enter_date,
            t.description == description,
    {
        NewTransaction { guid, currency_guid, num: String::new(), post_date, enter_date, description }
    }
}

} // verus!
