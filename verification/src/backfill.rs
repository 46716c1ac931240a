//! The monthly fill-in of recurring income, as mathematics: which months
//! lack their income, and what a ledger looks like once they have it.

use vstd::prelude::*;
use crate::entry::{is_fresh_entry, Entry};
use crate::error::{Failure, LedgerError};
use crate::rules::LedgerState;
use crate::period::{
    auto_income_description, lemma_month_number_inverse, lemma_token_unique, month_number,
    month_of, month_token, year_of,
};
use crate::store::{fits, has_auto_income_for, is_auto_income_for, total};
use crate::text::ends_with;

verus! {

/// The place of the earliest month that the engine can stand at: January of
/// the least year of an `i32`.
pub open spec fn first_month() -> int {
    month_number(1, i32::MIN as int)
}

/// Whether the month at place `k` has its recurring income.
pub open spec fn covered(entries: Seq<Entry>, k: int) -> bool {
    has_auto_income_for(entries, month_of(k) as nat, year_of(k))
}

/// Whether the entry at place `i` is a recurring income of the month at
/// place `k`.
pub open spec fn is_income_of(entries: Seq<Entry>, i: int, k: int) -> bool {
    0 <= i < entries.len() && is_auto_income_for(entries[i], month_of(k) as nat, year_of(k))
}

/// Whether the month at place `k`, or a month before it that the engine
/// can stand at, has its recurring income: a walk back from `k` then ends.
pub open spec fn anchored(entries: Seq<Entry>, k: int) -> bool {
    exists|a: int| first_month() <= a <= k && #[trigger] covered(entries, a)
}

/// Whether exactly the last `n` months up to and including the one at place
/// `k` lack their recurring income: the month before them has it.
pub open spec fn is_gap(entries: Seq<Entry>, k: int, n: nat) -> bool {
    &&& covered(entries, k - n)
    &&& forall|j: int| k - n < j <= k ==> !#[trigger] covered(entries, j)
}

/// How many months up to and including the one at place `k` lack their
/// recurring income.
pub open spec fn months_due(entries: Seq<Entry>, k: int) -> nat {
    choose|n: nat| is_gap(entries, k, n)
}

/// Whether `entry` is the recurring income that the engine writes for the
/// month at place `k`.
pub open spec fn is_auto_entry(entry: Entry, description: Seq<char>, amount: int, k: int) -> bool {
    is_fresh_entry(
        entry,
        auto_income_description(description, month_of(k) as nat, year_of(k)),
        amount,
        true,
    )
}

/// Whether `after` is `before` with the recurring incomes of `n` months in a
/// row behind it, the earliest first, beginning with the month at place
/// `first`.
pub open spec fn filled(
    before: Seq<Entry>,
    after: Seq<Entry>,
    description: Seq<char>,
    amount: int,
    first: int,
    n: nat,
) -> bool {
    &&& after.len() == before.len() + n
    &&& after.take(before.len() as int) == before
    &&& forall|j: int|
        0 <= j < n ==> is_auto_entry(
            #[trigger] after[before.len() + j],
            description,
            amount,
            first + j,
        )
}

/// Whether `after` holds what the fill-in leaves of the ledger `before`
/// when it is run in the month at place `k`, of which a month at or before
/// `k` has its income. Where it completes, every month that lacked its
/// income has it, the earliest written first. It completes unless the
/// balance would leave the range that the store can hold; then it has
/// written the incomes of the earliest months, as many as fit.
pub open spec fn filled_in(before: LedgerState, after: Seq<Entry>, k: int, complete: bool) -> bool {
    let n = months_due(before.entries, k);
    let description = before.settings.income_description;
    let amount = before.settings.income_amount;
    let written = after.len() - before.entries.len();
    &&& is_gap(before.entries, k, n)
    &&& complete == fits(total(before.entries) + n * amount)
    &&& 0 <= written <= n
    &&& filled(before.entries, after, description, amount, k - n + 1, written as nat)
    &&& if complete {
        written == n
    } else {
        written < n && !fits(total(before.entries) + (written + 1) * amount)
    }
}

/// Whether `after` and `r` are what a run of the fill-in in the month at
/// place `k` makes of the ledger `before`.
pub open spec fn backfilled(
    before: LedgerState,
    after: Seq<Entry>,
    k: int,
    r: Result<(), LedgerError>,
) -> bool {
    if !anchored(before.entries, k) {
        &&& after == before.entries
        &&& r matches Err(e)
        &&& e@ == Failure::SetupIncomplete
    } else {
        &&& filled_in(before, after, k, r is Ok)
        &&& r matches Err(e) ==> e@ == Failure::StorageFault
    }
}

/// The months that lack their income are counted in one way only.
pub proof fn lemma_gap_unique(entries: Seq<Entry>, k: int, n: nat, m: nat)
    requires
        is_gap(entries, k, n),
        is_gap(entries, k, m),
    ensures
        n == m,
{
    if n < m {
        assert(!covered(entries, k - n));
    } else if m < n {
        assert(!covered(entries, k - m));
    }
}

/// Where `n` months lack their income, `n` months are due.
pub proof fn lemma_months_due(entries: Seq<Entry>, k: int, n: nat)
    requires
        is_gap(entries, k, n),
    ensures
        months_due(entries, k) == n,
{
    lemma_gap_unique(entries, k, n, months_due(entries, k));
}

/// The description of a month's recurring income ends in the month's
/// token.
pub proof fn lemma_description_ends_in_token(description: Seq<char>, month: nat, year: int)
    ensures
        ends_with(auto_income_description(description, month, year), month_token(month, year)),
{
    let token = month_token(month, year);
    let whole = auto_income_description(description, month, year);
    assert(whole.subrange(whole.len() - token.len(), whole.len() as int) =~= token);
}

/// A month that has its income keeps it when entries are written.
pub proof fn lemma_covered_stays(before: Seq<Entry>, after: Seq<Entry>, k: int)
    requires
        before.len() <= after.len(),
        after.take(before.len() as int) == before,
        covered(before, k),
    ensures
        covered(after, k),
{
    let i = choose|i: int|
        0 <= i < before.len() && is_auto_income_for(
            #[trigger] before[i],
            month_of(k) as nat,
            year_of(k),
        );
    assert(after.take(before.len() as int)[i] == after[i]);
    assert(is_auto_income_for(after[i], month_of(k) as nat, year_of(k)));
}

/// Filling in `n` months adds `n` times the amount to the balance.
pub proof fn lemma_filled_total(
    before: Seq<Entry>,
    after: Seq<Entry>,
    description: Seq<char>,
    amount: int,
    first: int,
    n: nat,
)
    requires
        filled(before, after, description, amount, first, n),
    ensures
        total(after) == total(before) + n * amount,
    decreases n,
{
    if n == 0 {
        assert(after =~= before);
    } else {
        let shorter = after.drop_last();
        assert(shorter.take(before.len() as int) =~= after.take(before.len() as int));
        assert forall|j: int| 0 <= j < n - 1 implies is_auto_entry(
            #[trigger] shorter[before.len() + j],
            description,
            amount,
            first + j,
        ) by {
            assert(shorter[before.len() + j] == after[before.len() + j]);
        }
        lemma_filled_total(before, shorter, description, amount, first, (n - 1) as nat);
        assert(after.last() == after[before.len() + (n - 1)]);
        assert(n * amount == (n - 1) * amount + amount) by (nonlinear_arith);
    }
}

/// Once the months up to the one at place `k` are filled in, that month has
/// its income: filling in again, with no time passed, writes nothing.
pub proof fn lemma_fill_is_idempotent(
    before: Seq<Entry>,
    after: Seq<Entry>,
    description: Seq<char>,
    amount: int,
    k: int,
)
    requires
        is_gap(before, k, months_due(before, k)),
        filled(
            before,
            after,
            description,
            amount,
            k - months_due(before, k) + 1,
            months_due(before, k),
        ),
    ensures
        is_gap(after, k, 0),
        months_due(after, k) == 0,
{
    let n = months_due(before, k);
    if n == 0 {
        lemma_covered_stays(before, after, k);
    } else {
        let last = after[before.len() + (n - 1)];
        assert(is_auto_entry(last, description, amount, k - n + 1 + (n - 1)));
        lemma_description_ends_in_token(description, month_of(k) as nat, year_of(k));
        assert(is_auto_income_for(last, month_of(k) as nat, year_of(k)));
    }
    lemma_months_due(after, k, 0);
}

/// Running the fill-in twice with no time passed between the runs writes
/// nothing the second time.
pub proof fn lemma_backfill_twice(
    before: LedgerState,
    after: Seq<Entry>,
    again: Seq<Entry>,
    k: int,
    first_run: Result<(), LedgerError>,
    second_run: Result<(), LedgerError>,
)
    requires
        first_run is Ok,
        backfilled(before, after, k, first_run),
        backfilled(
            LedgerState { entries: after, config: before.config, settings: before.settings },
            again,
            k,
            second_run,
        ),
    ensures
        second_run is Ok,
        again == after,
{
    let n = months_due(before.entries, k);
    let description = before.settings.income_description;
    let amount = before.settings.income_amount;
    lemma_fill_is_idempotent(before.entries, after, description, amount, k);
    lemma_filled_total(before.entries, after, description, amount, k - n + 1, n);
    let anchor = choose|a: int| first_month() <= a <= k && #[trigger] covered(before.entries, a);
    assert(covered(after, k));
    assert(anchored(after, k));
    assert(0 * amount == 0);
    assert(again.take(after.len() as int) =~= again);
}

/// A run of the fill-in that completes has written one entry for each month
/// that lacked its income, behind the entries that were there, the earliest
/// month first and the month of the run last. Each is marked as recurring
/// income and carries the configured amount and the configured description
/// with the token of its month; the balance has grown by the amount for
/// each of them. A run completes unless the ledger was never set up or the
/// balance has no room.
pub proof fn lemma_backfill_complete(
    before: LedgerState,
    after: Seq<Entry>,
    k: int,
    r: Result<(), LedgerError>,
)
    requires
        backfilled(before, after, k, r),
    ensures
        r is Ok <==> anchored(before.entries, k) && fits(
            total(before.entries) + months_due(before.entries, k) * before.settings.income_amount,
        ),
        r is Ok ==> {
            let n = months_due(before.entries, k);
            &&& is_gap(before.entries, k, n)
            &&& after.len() == before.entries.len() + n
            &&& after.take(before.entries.len() as int) == before.entries
            &&& total(after) == total(before.entries) + n * before.settings.income_amount
            &&& forall|j: int|
                0 <= j < n ==> {
                    let entry = #[trigger] after[before.entries.len() + j];
                    let at = k - n + 1 + j;
                    &&& entry.amount == before.settings.income_amount
                    &&& entry.is_auto_income
                    &&& entry.modified_at is None
                    &&& entry.description == auto_income_description(
                        before.settings.income_description,
                        month_of(at) as nat,
                        year_of(at),
                    )
                }
        },
{
    if r is Ok {
        let n = months_due(before.entries, k);
        lemma_filled_total(
            before.entries,
            after,
            before.settings.income_description,
            before.settings.income_amount,
            k - n + 1,
            n,
        );
    }
}

/// Running the fill-in after `n` months without a run writes exactly `n`
/// entries, one for each month that was missed, the earliest first, each
/// marked as recurring income and with the configured amount, unless the
/// balance has no room for them.
pub proof fn lemma_backfill_after_a_gap(
    before: LedgerState,
    after: Seq<Entry>,
    k: int,
    n: nat,
    r: Result<(), LedgerError>,
)
    requires
        first_month() <= k - n,
        is_gap(before.entries, k, n),
        backfilled(before, after, k, r),
    ensures
        r is Ok <==> fits(total(before.entries) + n * before.settings.income_amount),
        r is Ok ==> {
            &&& after.len() == before.entries.len() + n
            &&& after.take(before.entries.len() as int) == before.entries
            &&& total(after) == total(before.entries) + n * before.settings.income_amount
            &&& forall|j: int|
                0 <= j < n ==> {
                    let entry = #[trigger] after[before.entries.len() + j];
                    let at = k - n + 1 + j;
                    &&& entry.amount == before.settings.income_amount
                    &&& entry.is_auto_income
                    &&& entry.description == auto_income_description(
                        before.settings.income_description,
                        month_of(at) as nat,
                        year_of(at),
                    )
                }
        },
{
    assert(covered(before.entries, k - n));
    assert(anchored(before.entries, k));
    lemma_months_due(before.entries, k, n);
    if r is Ok {
        lemma_filled_total(
            before.entries,
            after,
            before.settings.income_description,
            before.settings.income_amount,
            k - n + 1,
            n,
        );
    }
}

/// A ledger that holds the recurring income of a month can be filled in
/// from that month and from every month after it: the walk back ends.
pub proof fn lemma_anchored_from(entries: Seq<Entry>, month: nat, year: int, k: int)
    requires
        1 <= month <= 12,
        i32::MIN <= year <= i32::MAX,
        has_auto_income_for(entries, month, year),
        month_number(month as int, year) <= k,
    ensures
        anchored(entries, k),
{
    lemma_month_number_inverse(month as int, year);
    assert(covered(entries, month_number(month as int, year)));
}

/// A ledger that can be filled in from a month can still be filled in from
/// it once more entries are written.
pub proof fn lemma_anchored_stays(before: Seq<Entry>, after: Seq<Entry>, k: int)
    requires
        before.len() <= after.len(),
        after.take(before.len() as int) == before,
        anchored(before, k),
    ensures
        anchored(after, k),
{
    let a = choose|a: int| first_month() <= a <= k && #[trigger] covered(before, a);
    lemma_covered_stays(before, after, a);
}

/// Once the fill-in has completed, every month that lacked its recurring
/// income has it, and has it once.
pub proof fn lemma_one_income_a_month(
    before: LedgerState,
    after: Seq<Entry>,
    k: int,
    r: Result<(), LedgerError>,
)
    requires
        r is Ok,
        backfilled(before, after, k, r),
    ensures
        forall|j: int| k - months_due(before.entries, k) < j <= k ==> #[trigger] covered(after, j),
        forall|j: int, a: int, b: int|
            k - months_due(before.entries, k) < j <= k && #[trigger] is_income_of(after, a, j)
                && #[trigger] is_income_of(after, b, j) ==> a == b,
{
    let n = months_due(before.entries, k);
    let description = before.settings.income_description;
    let amount = before.settings.income_amount;
    let old = before.entries.len() as int;
    // Each entry that was written is the income of its own month and of no other.
    assert forall|i: int, j: int|
        old <= i < after.len() && is_auto_income_for(
            after[i],
            month_of(j) as nat,
            year_of(j),
        ) implies j == k - n + 1 + (i - old) by {
        let at = k - n + 1 + (i - old);
        assert(is_auto_entry(after[old + (i - old)], description, amount, at));
        lemma_description_ends_in_token(description, month_of(at) as nat, year_of(at));
        lemma_token_unique(
            after[i].description,
            month_of(at) as nat,
            year_of(at),
            month_of(j) as nat,
            year_of(j),
        );
        lemma_month_number_inverse(month_of(at), year_of(at));
        lemma_month_number_inverse(month_of(j), year_of(j));
        assert(month_number(month_of(j), year_of(j)) == j);
        assert(month_number(month_of(at), year_of(at)) == at);
    }
    assert forall|j: int| k - n < j <= k implies #[trigger] covered(after, j) by {
        let i = old + (j - (k - n + 1));
        assert(is_auto_entry(after[old + (j - (k - n + 1))], description, amount, j));
        lemma_description_ends_in_token(description, month_of(j) as nat, year_of(j));
        assert(is_auto_income_for(after[i], month_of(j) as nat, year_of(j)));
    }
    assert forall|j: int, a: int, b: int|
        k - n < j <= k && #[trigger] is_income_of(after, a, j) && #[trigger] is_income_of(
            after,
            b,
            j,
        ) implies a == b by {
        // None of the entries that were there is the income of a month that lacked it.
        if a < old {
            assert(after.take(old)[a] == after[a]);
            assert(covered(before.entries, j));
        }
        if b < old {
            assert(after.take(old)[b] == after[b]);
            assert(covered(before.entries, j));
        }
    }
}

} // verus!
