//! The list of transactions as text: one row for each entry, with the time
//! of writing, the amount and the description.

use vstd::prelude::*;
use vstd::string::*;
use crate::amount::{amount_text, format_amount};
use crate::clock::{format_timestamp, timestamp_text, TIME_PATTERN};
use crate::entry::{views, Entry, LedgerEntry};
use crate::text::{decimal, push_decimal, text_of};

verus! {

/// A time of writing as text: date and time of day in UTC, in the pattern
/// `TIME_PATTERN`, or the number of seconds where the calendar does not
/// reach the moment.
pub open spec fn time_text(created_at: int) -> Seq<char> {
    match timestamp_text(created_at as i64, TIME_PATTERN@) {
        Some(written) => written,
        None => decimal(created_at),
    }
}

/// The row of a transaction: a tabulator before each of the time of
/// writing, the amount with two digits behind the point, and the
/// description.
pub open spec fn row_text(time: Seq<char>, amount: int, description: Seq<char>) -> Seq<char> {
    seq!['\t'] + time + seq!['\t'] + amount_text(amount) + seq!['\t'] + description
}

/// The row of an entry.
pub open spec fn entry_row(entry: Entry) -> Seq<char> {
    row_text(time_text(entry.created_at), entry.amount, entry.description)
}

/// The rows of `entries`, each closed by a line feed.
pub open spec fn rows_text(entries: Seq<Entry>) -> Seq<char>
    decreases entries.len(),
{
    if entries.len() == 0 {
        Seq::empty()
    } else {
        rows_text(entries.drop_last()) + entry_row(entries.last()) + seq!['\n']
    }
}

/// The list of `entries` as text: their rows, or one line feed where there
/// is no entry.
pub open spec fn list_text(entries: Seq<Entry>) -> Seq<char> {
    if entries.len() == 0 {
        seq!['\n']
    } else {
        rows_text(entries)
    }
}

/// Writes a time of writing.
pub fn format_time(created_at: i64) -> (text: String)
    ensures
        text@ == time_text(created_at as int),
{
    match format_timestamp(created_at, TIME_PATTERN) {
        Some(written) => written,
        None => {
            let mut out: Vec<char> = Vec::new();
            push_decimal(&mut out, created_at);
            text_of(&out)
        },
    }
}

/// Writes the row of a transaction.
pub fn transaction_row(time: &str, amount: i64, description: &str) -> (row: String)
    ensures
        row@ == row_text(time@, amount as int, description@),
{
    proof {
        reveal_strlit("\t");
        assert("\t"@ =~= seq!['\t']);
    }
    let mut row = String::from_str("\t");
    row.append(time);
    row.append("\t");
    let amount_text = format_amount(amount);
    row.append(amount_text.as_str());
    row.append("\t");
    row.append(description);
    row
}

/// Writes the list of `entries`, in the order given.
pub fn format_transactions(entries: &Vec<LedgerEntry>) -> (text: String)
    ensures
        text@ == list_text(views(entries@)),
{
    proof {
        reveal_strlit("\n");
        assert("\n"@ =~= seq!['\n']);
    }
    if entries.len() == 0 {
        return String::from_str("\n");
    }
    let ghost all = views(entries@);
    let mut text = String::new();
    let mut i: usize = 0;
    while i < entries.len()
        invariant
            i <= entries.len(),
            all == views(entries@),
            text@ == rows_text(all.take(i as int)),
            "\n"@ == seq!['\n'],
        decreases entries.len() - i,
    {
        let time = format_time(entries[i].created_at);
        let row = transaction_row(
            time.as_str(),
            entries[i].amount,
            entries[i].description.as_str(),
        );
        text.append(row.as_str());
        text.append("\n");
        proof {
            assert(all.take(i + 1).drop_last() =~= all.take(i as int));
            assert(all.take(i + 1).last() == entries@[i as int]@);
        }
        i = i + 1;
    }
    proof {
        assert(all.take(i as int) =~= all);
    }
    text
}

} // verus!
