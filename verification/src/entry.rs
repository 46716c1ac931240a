//! One recorded movement of money.

use vstd::prelude::*;
use vstd::string::*;

verus! {

/// What a ledger entry says, as mathematics sees it.
pub struct Entry {
    pub description: Seq<char>,
    pub amount: int,
    pub is_auto_income: bool,
    pub created_at: int,
    pub modified_at: Option<int>,
}

/// One recorded movement of money. A positive amount is income, a negative
/// one an expense; amounts are hundredths of the currency unit.
#[derive(Debug, PartialEq, Eq)]
pub struct LedgerEntry {
    /// Free text; for a recurring income it ends in the month it is for.
    pub description: String,
    /// Signed amount in hundredths.
    pub amount: i64,
    /// Set on the entries that the monthly fill-in creates, and on no other.
    pub is_auto_income: bool,
    /// When the entry was written, in seconds since the Unix epoch.
    pub created_at: i64,
    /// When somebody edited the entry by hand; the engine never sets it.
    pub modified_at: Option<i64>,
}

impl View for LedgerEntry {
    type V = Entry;

    open spec fn view(&self) -> Entry {
        Entry {
            description: self.description@,
            amount: self.amount as int,
            is_auto_income: self.is_auto_income,
            created_at: self.created_at as int,
            modified_at: match self.modified_at {
                Some(t) => Some(t as int),
                None => None,
            },
        }
    }
}

/// The entry that the engine writes for `description` and `amount` at the
/// time `created_at`.
pub open spec fn fresh_entry(
    description: Seq<char>,
    amount: int,
    is_auto_income: bool,
    created_at: int,
) -> Entry {
    Entry { description, amount, is_auto_income, created_at, modified_at: None }
}

/// Whether `entry` is what the engine writes for `description` and `amount`,
/// at whatever time.
pub open spec fn is_fresh_entry(
    entry: Entry,
    description: Seq<char>,
    amount: int,
    is_auto_income: bool,
) -> bool {
    entry == fresh_entry(description, amount, is_auto_income, entry.created_at)
}

/// The views of a sequence of entries.
pub open spec fn views(entries: Seq<LedgerEntry>) -> Seq<Entry> {
    entries.map_values(|e: LedgerEntry| e@)
}

impl Clone for LedgerEntry {
    fn clone(&self) -> (copy: LedgerEntry)
        ensures
            copy@ == self@,
    {
        LedgerEntry {
            description: self.description.clone(),
            amount: self.amount,
            is_auto_income: self.is_auto_income,
            created_at: self.created_at,
            modified_at: self.modified_at,
        }
    }
}

impl LedgerEntry {
    /// The entry that the engine writes at the time `created_at`.
    pub fn new(description: String, amount: i64, is_auto_income: bool, created_at: i64) -> (entry:
        LedgerEntry)
        ensures
            entry@ == fresh_entry(description@, amount as int, is_auto_income, created_at as int),
    {
        LedgerEntry { description, amount, is_auto_income, created_at, modified_at: None }
    }
}

} // verus!
