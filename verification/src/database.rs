//! The ledger engine: an opened store with its settings, the balance and the
//! overdraft rule, and the recording of incomes and expenses.

use vstd::prelude::*;
use vstd::string::*;
use crate::amount::{amount_of, lemma_capped, parse_amount, read_amount, typed_of};
use crate::entry::{is_fresh_entry, views, LedgerEntry};
use crate::error::{Failure, LedgerError};
use crate::listing::{is_listing, recent_entries, recent_places};
use crate::backfill::{
    anchored, backfilled, covered, filled, filled_in, first_month, is_auto_entry, is_gap,
    lemma_description_ends_in_token, lemma_filled_total, lemma_months_due, months_due,
};
use crate::clock::local_month;
use crate::period::{
    auto_income_description, lemma_month_number_inverse, month_number, previous_month, token_chars,
};
use crate::report::{format_transactions, list_text};
use crate::rules::{
    admits, booked, booked_as_typed, settings_of, LedgerState, Settings, CONF_INCOME_AMOUNT,
    CONF_INCOME_DESCRIPTION, CONF_OVERDRAFT,
};
use crate::store::{fits, has_auto_income_for, total, written, EntryStore, StoreState};
use crate::text::text_of;

verus! {

/// How many transactions a listing shows at most.
pub const RECENT_LIMIT: usize = 30;

/// A balance that has no room for `m` more incomes has none for `n`, where
/// `n` is at least `m`.
proof fn lemma_short_of_room(balance: int, amount: int, m: nat, n: nat)
    requires
        fits(balance),
        !fits(balance + m * amount),
        m <= n,
    ensures
        !fits(balance + n * amount),
{
    if amount > 0 {
        assert(0 <= m * amount <= n * amount) by (nonlinear_arith)
            requires
                m <= n,
                amount > 0,
        ;
    } else if amount < 0 {
        assert(0 >= m * amount >= n * amount) by (nonlinear_arith)
            requires
                m <= n,
                amount < 0,
        ;
    } else {
        assert(m * amount == 0) by (nonlinear_arith)
            requires
                amount == 0,
        ;
    }
}

/// Whether `r` is what starting the engine in the month at place `k` makes
/// of the store `before`: the failure of the configuration, if it gives no
/// settings; else the failure of the fill-in, if it does not complete;
/// else the opened ledger with every due income written, and its balance.
pub open spec fn started(before: StoreState, r: Result<(Database, i64), LedgerError>, k: int)
    -> bool {
    match settings_of(before.config) {
        Err(failure) => r matches Err(e) && e@ == failure,
        Ok(settings) => {
            let opened = LedgerState { entries: before.entries, config: before.config, settings };
            match r {
                Ok((database, balance)) => {
                    &&& database.wf()
                    &&& database@.config == before.config
                    &&& database@.settings == settings
                    &&& anchored(before.entries, k)
                    &&& filled_in(opened, database@.entries, k, true)
                    &&& balance == total(database@.entries)
                },
                Err(e) => if anchored(before.entries, k) {
                    e@ == Failure::StorageFault && !fits(
                        total(before.entries) + months_due(before.entries, k)
                            * settings.income_amount,
                    )
                } else {
                    e@ == Failure::SetupIncomplete
                },
            }
        },
    }
}

/// The configuration that setting up writes.
pub open spec fn first_config(
    income_description: Seq<char>,
    income_amount: Seq<char>,
    overdraft: Seq<char>,
) -> Map<Seq<char>, Seq<char>> {
    Map::<Seq<char>, Seq<char>>::empty().insert(
        CONF_INCOME_DESCRIPTION@,
        income_description,
    ).insert(CONF_INCOME_AMOUNT@, income_amount).insert(CONF_OVERDRAFT@, overdraft)
}

/// Whether `r` is what setting up in the given month makes of the three
/// settings: a ledger that holds them and one entry, the recurring income
/// of that month; or a refusal, where an amount is no decimal number.
pub open spec fn is_set_up(
    income_description: Seq<char>,
    income_amount: Seq<char>,
    overdraft: Seq<char>,
    month: nat,
    year: int,
    r: Result<Database, LedgerError>,
) -> bool {
    match r {
        Ok(database) => {
            &&& database.wf()
            &&& database@.config == first_config(income_description, income_amount, overdraft)
            &&& database@.settings.income_description == income_description
            &&& amount_of(income_amount) == Some(database@.settings.income_amount)
            &&& amount_of(overdraft) == Some(database@.settings.overdraft)
            &&& database@.entries.len() == 1
            &&& is_fresh_entry(
                database@.entries[0],
                auto_income_description(income_description, month, year),
                database@.settings.income_amount,
                true,
            )
            &&& has_auto_income_for(database@.entries, month, year)
        },
        Err(e) => e@ == Failure::InvalidAmount && (amount_of(income_amount) is None || amount_of(
            overdraft,
        ) is None),
    }
}

/// The three configuration keys are three different texts.
proof fn lemma_keys_differ()
    ensures
        CONF_INCOME_DESCRIPTION@ != CONF_INCOME_AMOUNT@,
        CONF_INCOME_DESCRIPTION@ != CONF_OVERDRAFT@,
        CONF_INCOME_AMOUNT@ != CONF_OVERDRAFT@,
{
    reveal_strlit("income_description");
    reveal_strlit("income_amount");
    reveal_strlit("overdraft");
    assert(CONF_INCOME_DESCRIPTION@.len() == 18);
    assert(CONF_INCOME_AMOUNT@.len() == 13);
    assert(CONF_OVERDRAFT@.len() == 9);
}

/// An opened ledger.
pub struct Database {
    store: EntryStore,
    income_description: String,
    income_amount: i64,
    overdraft: i64,
}

impl View for Database {
    type V = LedgerState;

    closed spec fn view(&self) -> LedgerState {
        LedgerState {
            entries: self.store@.entries,
            config: self.store@.config,
            settings: Settings {
                income_description: self.income_description@,
                income_amount: self.income_amount as int,
                overdraft: self.overdraft as int,
            },
        }
    }
}

impl Database {
    /// What every opened ledger keeps true of itself: its store is well
    /// formed, and its settings are those that its configuration gives.
    pub closed spec fn wf(&self) -> bool {
        &&& self.store.wf()
        &&& settings_of(self.store@.config) == Ok::<Settings, Failure>(self@.settings)
    }

    /// The settings of a ledger are those of its configuration, and they
    /// and its balance are amounts that fit in an `i64`.
    pub proof fn lemma_settings(&self)
        requires
            self.wf(),
        ensures
            settings_of(self@.config) == Ok::<Settings, Failure>(self@.settings),
            fits(total(self@.entries)),
            fits(self@.settings.income_amount),
            fits(self@.settings.overdraft),
    {
        self.store.lemma_balance_fits();
    }

    /// Opens a store: reads the settings from its configuration, once.
    pub fn open(store: EntryStore) -> (r: Result<Database, LedgerError>)
        requires
            store.wf(),
        ensures
            match r {
                Ok(database) => {
                    &&& database.wf()
                    &&& database@.entries == store@.entries
                    &&& database@.config == store@.config
                    &&& settings_of(store@.config) == Ok::<Settings, Failure>(database@.settings)
                },
                Err(e) => settings_of(store@.config) == Err::<Settings, Failure>(e@),
            },
    {
        let income_description = match store.get_config(CONF_INCOME_DESCRIPTION) {
            Ok(value) => value,
            Err(e) => {
                return Err(e);
            },
        };
        let amount_text = match store.get_config(CONF_INCOME_AMOUNT) {
            Ok(value) => value,
            Err(e) => {
                return Err(e);
            },
        };
        let overdraft_text = match store.get_config(CONF_OVERDRAFT) {
            Ok(value) => value,
            Err(e) => {
                return Err(e);
            },
        };
        let income_amount = match parse_amount(amount_text.as_str()) {
            Some(amount) => amount,
            None => {
                return Err(LedgerError::InvalidAmount);
            },
        };
        let overdraft = match parse_amount(overdraft_text.as_str()) {
            Some(amount) => amount,
            None => {
                return Err(LedgerError::InvalidAmount);
            },
        };
        Ok(Database { store, income_description, income_amount, overdraft })
    }

    /// Closes the ledger and hands its store back.
    pub fn shutdown(self) -> (store: EntryStore)
        requires
            self.wf(),
        ensures
            store.wf(),
            store@.entries == self@.entries,
            store@.config == self@.config,
    {
        self.store
    }

    /// All entries, in the order in which they were written.
    pub fn entries(&self) -> (all: &Vec<LedgerEntry>)
        ensures
            views(all@) == self@.entries,
    {
        self.store.entries()
    }

    /// The balance: the sum of the amounts of all entries.
    pub fn balance(&self) -> (balance: i64)
        requires
            self.wf(),
        ensures
            balance == total(self@.entries),
    {
        self.store.sum_amounts()
    }

    /// The overdraft limit.
    pub fn overdraft(&self) -> (limit: i64)
        ensures
            limit == self@.settings.overdraft,
    {
        self.overdraft
    }

    /// The amount of the recurring income.
    pub fn income_amount(&self) -> (amount: i64)
        ensures
            amount == self@.settings.income_amount,
    {
        self.income_amount
    }

    /// The description of the recurring income.
    pub fn income_description(&self) -> (description: String)
        ensures
            description@ == self@.settings.income_description,
    {
        self.income_description.clone()
    }

    /// Whether an expense of `expense` is admissible.
    pub fn is_expense_acceptable(&self, expense: i64) -> (acceptable: bool)
        requires
            self.wf(),
            expense > 0,
        ensures
            acceptable == admits(total(self@.entries), self@.settings.overdraft, expense as int),
    {
        let balance = self.store.sum_amounts();
        balance as i128 + self.overdraft as i128 - expense as i128 >= 0
    }

    /// Writes an entry that no rule is held against: a manual one, with the
    /// amount as it is given.
    pub fn insert_into_ledger(&mut self, description: &str, amount: i64) -> (r: Result<
        (),
        LedgerError,
    >)
        requires
            old(self).wf(),
        ensures
            final(self).wf(),
            final(self)@.config == old(self)@.config,
            final(self)@.settings == old(self)@.settings,
            written(
                old(self)@.entries,
                final(self)@.entries,
                description@,
                amount as int,
                false,
                r,
            ),
    {
        self.store.append(String::from_str(description), amount, false)
    }

    /// Writes the recurring income of a month: the configured amount, under
    /// the configured description followed by the month's token.
    pub fn insert_auto_income(&mut self, month: u32, year: i32) -> (r: Result<(), LedgerError>)
        requires
            old(self).wf(),
        ensures
            final(self).wf(),
            final(self)@.config == old(self)@.config,
            final(self)@.settings == old(self)@.settings,
            written(
                old(self)@.entries,
                final(self)@.entries,
                auto_income_description(
                    old(self)@.settings.income_description,
                    month as nat,
                    year as int,
                ),
                old(self)@.settings.income_amount,
                true,
                r,
            ),
    {
        let mut description = self.income_description.clone();
        description.append(" ");
        let token = text_of(&token_chars(month, year));
        description.append(token.as_str());
        proof {
            reveal_strlit(" ");
            assert(" "@ =~= seq![' ']);
        }
        self.store.append(description, self.income_amount, true)
    }

    /// Records an income. An amount that is not positive is refused, and
    /// nothing is written for it.
    pub fn record_income(&mut self, description: &str, amount: i64) -> (r: Result<(), LedgerError>)
        requires
            old(self).wf(),
        ensures
            final(self).wf(),
            final(self)@.config == old(self)@.config,
            final(self)@.settings == old(self)@.settings,
            booked(old(self)@, final(self)@.entries, true, description@, amount as int, r),
    {
        if amount <= 0 {
            return Err(LedgerError::InvalidAmount);
        }
        self.insert_into_ledger(description, amount)
    }

    /// Records an expense of `amount`, as an entry with the amount negated.
    /// An amount that is not positive is refused, and so is an expense that
    /// would take the balance below the overdraft limit; nothing is written
    /// for either, and the balance stays as it is.
    pub fn record_expense(&mut self, description: &str, amount: i64) -> (r: Result<
        (),
        LedgerError,
    >)
        requires
            old(self).wf(),
        ensures
            final(self).wf(),
            final(self)@.config == old(self)@.config,
            final(self)@.settings == old(self)@.settings,
            booked(old(self)@, final(self)@.entries, false, description@, amount as int, r),
    {
        if amount <= 0 {
            return Err(LedgerError::InvalidAmount);
        }
        if !self.is_expense_acceptable(amount) {
            return Err(LedgerError::OverLimit);
        }
        proof {
            self.lemma_settings();
        }
        self.insert_into_ledger(description, -amount)
    }

    /// Records what the user entered after `+` or `-`: an income or an
    /// expense, with the amount as it was typed. The rules are held against
    /// the number as typed; what is written is its hundredths, rounded half
    /// away from zero.
    pub fn add_to_ledger(&mut self, income: bool, description: &str, amount: &str) -> (r: Result<
        (),
        LedgerError,
    >)
        requires
            old(self).wf(),
        ensures
            final(self).wf(),
            final(self)@.config == old(self)@.config,
            final(self)@.settings == old(self)@.settings,
            booked_as_typed(
                old(self)@,
                final(self)@.entries,
                income,
                description@,
                typed_of(amount@),
                r,
            ),
    {
        let typed = match read_amount(amount) {
            Some(typed) => typed,
            None => {
                return Err(LedgerError::InvalidAmount);
            },
        };
        proof {
            self.lemma_settings();
            lemma_capped(
                typed_of(amount@).unwrap(),
                total(self@.entries) + self@.settings.overdraft,
            );
        }
        if !typed.is_positive() {
            return Err(LedgerError::InvalidAmount);
        }
        if !income {
            let limit: i128 = self.store.sum_amounts() as i128 + self.overdraft as i128;
            if typed.exceeds(limit) {
                return Err(LedgerError::OverLimit);
            }
        }
        let magnitude = match typed.rounded() {
            Some(magnitude) => magnitude,
            None => {
                return Err(LedgerError::StorageFault);
            },
        };
        let signed: i64 = if income {
            magnitude
        } else {
            -magnitude
        };
        self.insert_into_ledger(description, signed)
    }

    /// The most recent transactions, newest first, at most thirty: of each
    /// the time of writing, the signed amount and the description.
    pub fn recent_transactions(&self) -> (list: Vec<(i64, i64, String)>)
        ensures
            list.len() == recent_entries(self@.entries, RECENT_LIMIT as nat).len(),
            forall|i: int|
                0 <= i < list.len() ==> {
                    let entry = #[trigger] recent_entries(self@.entries, RECENT_LIMIT as nat)[i];
                    &&& list[i].0 == entry.created_at
                    &&& list[i].1 == entry.amount
                    &&& list[i].2@ == entry.description
                },
            is_listing(
                self@.entries,
                RECENT_LIMIT as nat,
                recent_places(self@.entries, RECENT_LIMIT as nat),
            ),
    {
        let recent = self.store.recent(RECENT_LIMIT);
        let mut list: Vec<(i64, i64, String)> = Vec::new();
        let mut i: usize = 0;
        while i < recent.len()
            invariant
                i <= recent.len(),
                list.len() == i,
                forall|j: int|
                    0 <= j < i ==> {
                        &&& (#[trigger] list[j]).0 == recent[j]@.created_at
                        &&& list[j].1 == recent[j]@.amount
                        &&& list[j].2@ == recent[j]@.description
                    },
            decreases recent.len() - i,
        {
            list.push((recent[i].created_at, recent[i].amount, recent[i].description.clone()));
            i = i + 1;
        }
        proof {
            let listing = recent_entries(self@.entries, RECENT_LIMIT as nat);
            assert(views(recent@) == listing);
            assert forall|j: int| 0 <= j < list.len() implies {
                let entry = #[trigger] listing[j];
                &&& list[j].0 == entry.created_at
                &&& list[j].1 == entry.amount
                &&& list[j].2@ == entry.description
            } by {
                assert(views(recent@)[j] == recent[j]@);
                assert(list[j].0 == recent[j]@.created_at);
            }
        }
        list
    }

    /// Walks back from the given month to the last month that has its
    /// recurring income, then writes the income of each month passed on the
    /// way, the earliest first.
    fn fill_gap(&mut self, month: u32, year: i32) -> (r: Result<(), LedgerError>)
        requires
            old(self).wf(),
            1 <= month <= 12,
            anchored(old(self)@.entries, month_number(month as int, year as int)),
        ensures
            final(self).wf(),
            final(self)@.config == old(self)@.config,
            final(self)@.settings == old(self)@.settings,
            filled_in(
                old(self)@,
                final(self)@.entries,
                month_number(month as int, year as int),
                r is Ok,
            ),
            r matches Err(e) ==> e@ == Failure::StorageFault,
    {
        let ghost k = month_number(month as int, year as int);
        let ghost before = self@.entries;
        let ghost description = self@.settings.income_description;
        let ghost amount = self@.settings.income_amount;
        let ghost anchor = choose|a: int| first_month() <= a <= k && #[trigger] covered(before, a);
        // The months that lack their income, the latest first.
        let mut due: Vec<(u32, i32)> = Vec::new();
        let mut m: u32 = month;
        let mut y: i32 = year;
        proof {
            lemma_month_number_inverse(m as int, y as int);
        }
        let mut found = self.store.exists_auto_income_for(m, y);
        while !found
            invariant
                1 <= m <= 12,
                before == self@.entries,
                first_month() <= anchor <= month_number(m as int, y as int),
                covered(before, anchor),
                month_number(m as int, y as int) == k - due.len(),
                found == covered(before, month_number(m as int, y as int)),
                forall|j: int| k - due.len() < j <= k ==> !#[trigger] covered(before, j),
                forall|t: int|
                    0 <= t < due.len() ==> 1 <= (#[trigger] due[t]).0 <= 12 && month_number(
                        due[t].0 as int,
                        due[t].1 as int,
                    ) == k - t,
            decreases month_number(m as int, y as int) - anchor,
        {
            due.push((m, y));
            let previous = previous_month(m, y);
            m = previous.0;
            y = previous.1;
            proof {
                lemma_month_number_inverse(m as int, y as int);
            }
            found = self.store.exists_auto_income_for(m, y);
        }
        let n: usize = due.len();
        proof {
            self.lemma_settings();
            assert(is_gap(before, k, n as nat));
            lemma_months_due(before, k, n as nat);
            assert(self@.entries.take(before.len() as int) =~= before);
        }
        // Their incomes, the earliest first.
        let mut t: usize = n;
        while t > 0
            invariant
                t <= n,
                n == due.len(),
                self.wf(),
                self@.config == old(self)@.config,
                self@.settings == old(self)@.settings,
                before == old(self)@.entries,
                description == old(self)@.settings.income_description,
                amount == old(self)@.settings.income_amount,
                k == month_number(month as int, year as int),
                months_due(before, k) == n,
                is_gap(before, k, n as nat),
                fits(total(before)),
                filled(before, self@.entries, description, amount, k - n + 1, (n - t) as nat),
                forall|t: int|
                    0 <= t < due.len() ==> 1 <= (#[trigger] due[t]).0 <= 12 && month_number(
                        due[t].0 as int,
                        due[t].1 as int,
                    ) == k - t,
            decreases t,
        {
            let ghost so_far = self@.entries;
            let ghost written = (n - t) as nat;
            proof {
                lemma_filled_total(before, so_far, description, amount, k - n + 1, written);
                self.lemma_settings();
            }
            t = t - 1;
            let (due_month, due_year) = due[t];
            match self.insert_auto_income(due_month, due_year) {
                Ok(_) => {
                    proof {
                        let now = self@.entries;
                        lemma_month_number_inverse(due_month as int, due_year as int);
                        assert(now.take(before.len() as int) =~= so_far.take(before.len() as int));
                        assert forall|j: int| 0 <= j < written + 1 implies is_auto_entry(
                            #[trigger] now[before.len() + j],
                            description,
                            amount,
                            k - n + 1 + j,
                        ) by {
                            if j < written {
                                assert(now.drop_last()[before.len() + j] == now[before.len() + j]);
                            }
                        }
                    }
                },
                Err(e) => {
                    proof {
                        assert((written + 1) * amount == written * amount + amount)
                            by (nonlinear_arith);
                        lemma_short_of_room(total(before), amount, written + 1, n as nat);
                    }
                    return Err(e);
                },
            }
        }
        proof {
            lemma_filled_total(before, self@.entries, description, amount, k - n + 1, n as nat);
            self.lemma_settings();
        }
        Ok(())
    }

    /// Fills in the recurring income of every month that lacks it, up to
    /// and including the given month, the earliest first. Nothing is
    /// written where neither that month nor a month before it has its
    /// income: the ledger was never set up.
    pub fn insert_due_incomes(&mut self, month: u32, year: i32) -> (r: Result<(), LedgerError>)
        requires
            old(self).wf(),
            1 <= month <= 12,
        ensures
            final(self).wf(),
            final(self)@.config == old(self)@.config,
            final(self)@.settings == old(self)@.settings,
            backfilled(
                old(self)@,
                final(self)@.entries,
                month_number(month as int, year as int),
                r,
            ),
    {
        if !self.store.has_auto_income_on_or_before(month, year) {
            return Err(LedgerError::SetupIncomplete);
        }
        self.fill_gap(month, year)
    }

    /// Fills in the recurring income of every month that lacks it, up to
    /// and including the current month by the local clock.
    pub fn insert_all_due_incomes(&mut self) -> (r: Result<(), LedgerError>)
        requires
            old(self).wf(),
        ensures
            final(self).wf(),
            final(self)@.config == old(self)@.config,
            final(self)@.settings == old(self)@.settings,
            exists|month: int, year: int|
                1 <= month <= 12 && i32::MIN <= year <= i32::MAX && #[trigger] backfilled(
                    old(self)@,
                    final(self)@.entries,
                    month_number(month, year),
                    r,
                ),
    {
        let today = local_month();
        let r = self.insert_due_incomes(today.0, today.1);
        proof {
            assert(backfilled(
                old(self)@,
                self@.entries,
                month_number(today.0 as int, today.1 as int),
                r,
            ));
        }
        r
    }

    /// The most recent transactions as text, newest first, at most thirty.
    pub fn transactions(&self) -> (text: String)
        ensures
            text@ == list_text(recent_entries(self@.entries, RECENT_LIMIT as nat)),
            is_listing(
                self@.entries,
                RECENT_LIMIT as nat,
                recent_places(self@.entries, RECENT_LIMIT as nat),
            ),
    {
        let recent = self.store.recent(RECENT_LIMIT);
        format_transactions(&recent)
    }

    /// Starts the engine in the given month: opens the store, fills in the
    /// recurring incomes that are due, and reports the balance.
    pub fn start_on(store: EntryStore, month: u32, year: i32) -> (r: Result<
        (Database, i64),
        LedgerError,
    >)
        requires
            store.wf(),
            1 <= month <= 12,
        ensures
            started(store@, r, month_number(month as int, year as int)),
    {
        let mut database = match Database::open(store) {
            Ok(database) => database,
            Err(e) => {
                return Err(e);
            },
        };
        proof {
            database.lemma_settings();
        }
        match database.insert_due_incomes(month, year) {
            Ok(_) => {
                let balance = database.balance();
                Ok((database, balance))
            },
            Err(e) => Err(e),
        }
    }

    /// Starts the engine in the current month by the local clock.
    pub fn start(store: EntryStore) -> (r: Result<(Database, i64), LedgerError>)
        requires
            store.wf(),
        ensures
            exists|month: int, year: int|
                1 <= month <= 12 && i32::MIN <= year <= i32::MAX && #[trigger] started(
                    store@,
                    r,
                    month_number(month, year),
                ),
    {
        let today = local_month();
        let r = Database::start_on(store, today.0, today.1);
        proof {
            assert(started(store@, r, month_number(today.0 as int, today.1 as int)));
        }
        r
    }

    /// Sets a ledger up in the given month: stores the three settings as
    /// they are given, and writes the recurring income of that month, from
    /// which every later fill-in starts.
    pub fn setup_on(
        income_description: &str,
        income_amount: &str,
        overdraft: &str,
        month: u32,
        year: i32,
    ) -> (r: Result<Database, LedgerError>)
        ensures
            is_set_up(income_description@, income_amount@, overdraft@, month as nat, year as int, r),
    {
        let mut store = EntryStore::new();
        store.set_config(CONF_INCOME_DESCRIPTION, income_description);
        store.set_config(CONF_INCOME_AMOUNT, income_amount);
        store.set_config(CONF_OVERDRAFT, overdraft);
        proof {
            lemma_keys_differ();
            assert(store@.config =~= first_config(income_description@, income_amount@, overdraft@));
        }
        let mut database = match Database::open(store) {
            Ok(database) => database,
            Err(e) => {
                return Err(e);
            },
        };
        proof {
            database.lemma_settings();
        }
        match database.insert_auto_income(month, year) {
            Ok(_) => {
                proof {
                    lemma_description_ends_in_token(
                        income_description@,
                        month as nat,
                        year as int,
                    );
                    assert(database@.entries.last() == database@.entries[0]);
                }
                Ok(database)
            },
            Err(e) => Err(e),
        }
    }

    /// Sets a ledger up in the current month by the local clock.
    pub fn setup(income_description: &str, income_amount: &str, overdraft: &str) -> (r: Result<
        Database,
        LedgerError,
    >)
        ensures
            exists|month: nat, year: int|
                1 <= month <= 12 && i32::MIN <= year <= i32::MAX && #[trigger] is_set_up(
                    income_description@,
                    income_amount@,
                    overdraft@,
                    month,
                    year,
                    r,
                ),
    {
        let today = local_month();
        let r = Database::setup_on(income_description, income_amount, overdraft, today.0, today.1);
        proof {
            assert(is_set_up(
                income_description@,
                income_amount@,
                overdraft@,
                today.0 as nat,
                today.1 as int,
                r,
            ));
        }
        r
    }
}

} // verus!
