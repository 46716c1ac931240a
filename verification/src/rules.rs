//! The rules of the ledger, as mathematics: what an opened ledger holds,
//! which settings a configuration gives, when an expense is admissible, and
//! what recording an income or an expense makes of a ledger.

use vstd::prelude::*;
use crate::amount::{
    amount_of, exceeds, is_positive, rounded, typed_hundredths, well_typed, Typed,
};
use crate::entry::Entry;
use crate::error::{failure_of, Failure, LedgerError};
use crate::store::{appended, fits, total};

verus! {

/// The configuration key of the description of the recurring income.
pub const CONF_INCOME_DESCRIPTION: &'static str = "income_description";

/// The configuration key of the amount of the recurring income.
pub const CONF_INCOME_AMOUNT: &'static str = "income_amount";

/// The configuration key of the overdraft limit.
pub const CONF_OVERDRAFT: &'static str = "overdraft";

/// The settings that the engine reads from the configuration when it opens
/// a store.
pub struct Settings {
    pub income_description: Seq<char>,
    pub income_amount: int,
    pub overdraft: int,
}

/// What an opened ledger holds.
pub struct LedgerState {
    /// The entries, oldest write first.
    pub entries: Seq<Entry>,
    /// The configuration.
    pub config: Map<Seq<char>, Seq<char>>,
    /// The settings read from the configuration.
    pub settings: Settings,
}

/// The settings that a configuration gives, or why it gives none: the
/// first of the three keys that is missing, in the order description,
/// amount, overdraft; else an amount that is no decimal number.
pub open spec fn settings_of(config: Map<Seq<char>, Seq<char>>) -> Result<Settings, Failure> {
    if !config.contains_key(CONF_INCOME_DESCRIPTION@) {
        Err(Failure::ConfigMissing(CONF_INCOME_DESCRIPTION@))
    } else if !config.contains_key(CONF_INCOME_AMOUNT@) {
        Err(Failure::ConfigMissing(CONF_INCOME_AMOUNT@))
    } else if !config.contains_key(CONF_OVERDRAFT@) {
        Err(Failure::ConfigMissing(CONF_OVERDRAFT@))
    } else {
        match (amount_of(config[CONF_INCOME_AMOUNT@]), amount_of(config[CONF_OVERDRAFT@])) {
            (Some(income_amount), Some(overdraft)) => Ok(
                Settings {
                    income_description: config[CONF_INCOME_DESCRIPTION@],
                    income_amount,
                    overdraft,
                },
            ),
            _ => Err(Failure::InvalidAmount),
        }
    }
}

/// Whether an expense is admissible: the balance after it stays at or
/// above the overdraft limit.
pub open spec fn admits(balance: int, overdraft: int, expense: int) -> bool {
    balance + overdraft - expense >= 0
}

/// Whether `after` and `r` are what recording an income or an expense of
/// `amount` makes of the ledger `before`. An amount that is not positive is
/// refused; so is an expense that the overdraft limit does not admit, and
/// an income for which the balance has no room. Otherwise one entry is
/// written, with the amount of an expense negated.
pub open spec fn booked(
    before: LedgerState,
    after: Seq<Entry>,
    income: bool,
    description: Seq<char>,
    amount: int,
    r: Result<(), LedgerError>,
) -> bool {
    if amount <= 0 {
        after == before.entries && failure_of(r) == Some(Failure::InvalidAmount)
    } else if !income && !admits(total(before.entries), before.settings.overdraft, amount) {
        after == before.entries && failure_of(r) == Some(Failure::OverLimit)
    } else if income && !fits(total(before.entries) + amount) {
        after == before.entries && failure_of(r) == Some(Failure::StorageFault)
    } else {
        r is Ok && appended(before.entries, after, description, if income {
            amount
        } else {
            -amount
        }, false)
    }
}

/// Recording changes the balance by the signed amount of what was written,
/// and by nothing where nothing was written: the balance is at all times
/// the sum of the signed amounts of all that was recorded.
pub proof fn lemma_booked_balance(
    before: LedgerState,
    after: Seq<Entry>,
    income: bool,
    description: Seq<char>,
    amount: int,
    r: Result<(), LedgerError>,
)
    requires
        booked(before, after, income, description, amount, r),
    ensures
        total(after) == total(before.entries) + (if r is Err {
            0
        } else if income {
            amount
        } else {
            -amount
        }),
{
}

/// An expense greater than the balance and the overdraft limit together is
/// refused: no entry is written, and the balance stays as it is.
pub proof fn lemma_expense_over_limit(
    before: LedgerState,
    after: Seq<Entry>,
    description: Seq<char>,
    amount: int,
    r: Result<(), LedgerError>,
)
    requires
        amount > total(before.entries) + before.settings.overdraft,
        booked(before, after, false, description, amount, r),
    ensures
        r is Err,
        after == before.entries,
        total(after) == total(before.entries),
{
}

/// An income or an expense of an amount that is not positive is refused: no
/// entry is written.
pub proof fn lemma_amount_not_positive(
    before: LedgerState,
    after: Seq<Entry>,
    income: bool,
    description: Seq<char>,
    amount: int,
    r: Result<(), LedgerError>,
)
    requires
        amount <= 0,
        booked(before, after, income, description, amount, r),
    ensures
        failure_of(r) == Some(Failure::InvalidAmount),
        after == before.entries,
{
}

/// Whether `after` and `r` are what recording an income or an expense makes
/// of the ledger `before`, where the amount is given as it was typed. The
/// rules are held against the number as typed, and what is written is its
/// hundredths, rounded:
/// - text that is no number, and a number that is not greater than zero, is
///   refused as an invalid amount;
/// - an expense greater than the balance and the overdraft limit together
///   is refused as over the limit;
/// - an amount whose hundredths an entry cannot hold, or for which the
///   balance has no room, is a fault of the store;
/// - otherwise one entry is written, with the amount of an expense negated.
pub open spec fn booked_as_typed(
    before: LedgerState,
    after: Seq<Entry>,
    income: bool,
    description: Seq<char>,
    typed: Option<Typed>,
    r: Result<(), LedgerError>,
) -> bool {
    match typed {
        None => after == before.entries && failure_of(r) == Some(Failure::InvalidAmount),
        Some(number) => {
            let signed = if income {
                rounded(number)
            } else {
                -rounded(number)
            };
            if !is_positive(number) {
                after == before.entries && failure_of(r) == Some(Failure::InvalidAmount)
            } else if !income && exceeds(
                number,
                total(before.entries) + before.settings.overdraft,
            ) {
                after == before.entries && failure_of(r) == Some(Failure::OverLimit)
            } else if !fits(rounded(number)) || !fits(total(before.entries) + signed) {
                after == before.entries && failure_of(r) == Some(Failure::StorageFault)
            } else {
                r is Ok && appended(before.entries, after, description, signed, false)
            }
        },
    }
}

/// An amount typed in whole hundredths is recorded as the same amount given
/// in hundredths.
pub proof fn lemma_typed_whole_hundredths(
    before: LedgerState,
    after: Seq<Entry>,
    income: bool,
    description: Seq<char>,
    amount: int,
    r: Result<(), LedgerError>,
)
    requires
        fits(amount),
        fits(total(before.entries)),
        fits(before.settings.overdraft),
    ensures
        booked_as_typed(before, after, income, description, Some(typed_hundredths(amount)), r)
            == booked(before, after, income, description, amount, r),
{
}

/// Recording a typed amount changes the balance by what was written, the
/// rounded amount with its sign, and by nothing where nothing was written.
pub proof fn lemma_typed_balance(
    before: LedgerState,
    after: Seq<Entry>,
    income: bool,
    description: Seq<char>,
    number: Typed,
    r: Result<(), LedgerError>,
)
    requires
        booked_as_typed(before, after, income, description, Some(number), r),
    ensures
        total(after) == total(before.entries) + (if r is Err {
            0
        } else if income {
            rounded(number)
        } else {
            -rounded(number)
        }),
        r is Err ==> after == before.entries,
        r is Ok ==> after.len() == before.entries.len() + 1,
{
}

/// A typed amount greater than zero that no rule refuses is written as
/// exactly one entry, however small it is.
pub proof fn lemma_typed_admitted(
    before: LedgerState,
    after: Seq<Entry>,
    income: bool,
    description: Seq<char>,
    number: Typed,
    r: Result<(), LedgerError>,
)
    requires
        is_positive(number),
        income || !exceeds(number, total(before.entries) + before.settings.overdraft),
        fits(rounded(number)),
        fits(total(before.entries) + rounded(number)),
        fits(total(before.entries) - rounded(number)),
        booked_as_typed(before, after, income, description, Some(number), r),
    ensures
        r is Ok,
        after.len() == before.entries.len() + 1,
        after.drop_last() == before.entries,
        after.last().amount == (if income {
            rounded(number)
        } else {
            -rounded(number)
        }),
{
}

/// A typed expense greater than the balance and the overdraft limit
/// together is refused, also where its hundredths, cut off or rounded, are
/// within the limit: no entry is written, and the balance stays as it is.
pub proof fn lemma_typed_expense_over_limit(
    before: LedgerState,
    after: Seq<Entry>,
    description: Seq<char>,
    number: Typed,
    r: Result<(), LedgerError>,
)
    requires
        exceeds(number, total(before.entries) + before.settings.overdraft),
        booked_as_typed(before, after, false, description, Some(number), r),
    ensures
        r is Err,
        after == before.entries,
        total(after) == total(before.entries),
        is_positive(number) ==> failure_of(r) == Some(Failure::OverLimit),
{
}

/// An expense that was recorded leaves the balance at or above the
/// overdraft limit, rounded as it was at the write.
pub proof fn lemma_typed_expense_within_overdraft(
    before: LedgerState,
    after: Seq<Entry>,
    description: Seq<char>,
    number: Typed,
    r: Result<(), LedgerError>,
)
    requires
        well_typed(number),
        r is Ok,
        booked_as_typed(before, after, false, description, Some(number), r),
    ensures
        total(after) + before.settings.overdraft >= 0,
{
}

/// Text that is no number, and a typed amount that is not greater than
/// zero, is refused: no entry is written.
pub proof fn lemma_typed_not_positive(
    before: LedgerState,
    after: Seq<Entry>,
    income: bool,
    description: Seq<char>,
    typed: Option<Typed>,
    r: Result<(), LedgerError>,
)
    requires
        typed matches Some(number) ==> !is_positive(number),
        booked_as_typed(before, after, income, description, typed, r),
    ensures
        failure_of(r) == Some(Failure::InvalidAmount),
        after == before.entries,
{
}

} // verus!
