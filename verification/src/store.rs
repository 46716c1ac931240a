//! The entry store: the ledger's entries in the order in which they were
//! written, and the configuration, a mapping from keys to values.

use vstd::prelude::*;
use vstd::string::*;
use crate::clock::unix_seconds;
use crate::entry::{fresh_entry, is_fresh_entry, views, Entry, LedgerEntry};
use crate::error::{failure_of, Failure, LedgerError};
use crate::listing::{
    copy_places, is_listing, lemma_listing_unique, newest_places, places_of, recent_entries,
    recent_places,
};
use crate::backfill::{anchored, covered, first_month};
use crate::period::{
    lemma_month_number_inverse, month_index, month_number, month_of, month_token, named_month,
    token_chars, year_of,
};
use crate::text::{chars_of, ends_with, has_suffix};

verus! {

/// What a store holds.
pub struct StoreState {
    /// The entries, oldest write first.
    pub entries: Seq<Entry>,
    /// The configuration.
    pub config: Map<Seq<char>, Seq<char>>,
}

/// The sum of the amounts of `entries`.
pub open spec fn total(entries: Seq<Entry>) -> int
    decreases entries.len(),
{
    if entries.len() == 0 {
        0
    } else {
        total(entries.drop_last()) + entries.last().amount
    }
}

/// Whether a balance is one that the store can hold.
pub open spec fn fits(balance: int) -> bool {
    i64::MIN <= balance <= i64::MAX
}

/// Whether `after` is `before` with one more entry behind it, written by the
/// engine for `description` and `amount` at whatever time.
pub open spec fn appended(
    before: Seq<Entry>,
    after: Seq<Entry>,
    description: Seq<char>,
    amount: int,
    is_auto_income: bool,
) -> bool {
    &&& after.len() == before.len() + 1
    &&& after.drop_last() == before
    &&& is_fresh_entry(after.last(), description, amount, is_auto_income)
}

/// Whether `after` and `r` are what writing an entry for `description` and
/// `amount` makes of the entries `before`: the entry is written unless the
/// balance would leave the range that the store can hold; then nothing is
/// written, and the store reports a fault.
pub open spec fn written(
    before: Seq<Entry>,
    after: Seq<Entry>,
    description: Seq<char>,
    amount: int,
    is_auto_income: bool,
    r: Result<(), LedgerError>,
) -> bool {
    if fits(total(before) + amount) {
        r is Ok && appended(before, after, description, amount, is_auto_income)
    } else {
        after == before && failure_of(r) == Some(Failure::StorageFault)
    }
}

/// Whether `entry` is a recurring income for the month: written by the
/// monthly fill-in, with a description that ends in the month's token.
pub open spec fn is_auto_income_for(entry: Entry, month: nat, year: int) -> bool {
    entry.is_auto_income && ends_with(entry.description, month_token(month, year))
}

/// Whether `entries` holds a recurring income for the month.
pub open spec fn has_auto_income_for(entries: Seq<Entry>, month: nat, year: int) -> bool {
    exists|i: int| 0 <= i < entries.len() && is_auto_income_for(#[trigger] entries[i], month, year)
}

/// Writing an entry adds its amount to the balance.
pub proof fn lemma_appended_total(
    before: Seq<Entry>,
    after: Seq<Entry>,
    description: Seq<char>,
    amount: int,
    is_auto_income: bool,
)
    requires
        appended(before, after, description, amount, is_auto_income),
    ensures
        total(after) == total(before) + amount,
{
}

/// The balance of two runs of entries, one behind the other, is the sum of
/// their balances: every entry counts, whoever wrote it and in whatever
/// order.
pub proof fn lemma_total_of_both(first: Seq<Entry>, second: Seq<Entry>)
    ensures
        total(first + second) == total(first) + total(second),
    decreases second.len(),
{
    if second.len() == 0 {
        assert(first + second =~= first);
    } else {
        lemma_total_of_both(first, second.drop_last());
        assert((first + second).drop_last() =~= first + second.drop_last());
    }
}

/// Storing a value under a key twice leaves what storing it once leaves.
pub proof fn lemma_set_config_twice(
    config: Map<Seq<char>, Seq<char>>,
    key: Seq<char>,
    value: Seq<char>,
)
    ensures
        config.insert(key, value).insert(key, value) == config.insert(key, value),
{
    assert(config.insert(key, value).insert(key, value) =~= config.insert(key, value));
}

/// Whether `key` stands at place `i` of `keys`.
pub open spec fn key_at(keys: Seq<String>, key: Seq<char>, i: int) -> bool {
    0 <= i < keys.len() && keys[i]@ == key
}

/// The mapping that a list of distinct keys and the list of their values
/// stand for.
pub open spec fn mapping(keys: Seq<String>, values: Seq<String>) -> Map<Seq<char>, Seq<char>> {
    Map::new(
        |key: Seq<char>| exists|i: int| key_at(keys, key, i),
        |key: Seq<char>| values[choose|i: int| key_at(keys, key, i)]@,
    )
}

/// Whether no key stands at two places.
pub open spec fn distinct(keys: Seq<String>) -> bool {
    forall|i: int, j: int| 0 <= i < j < keys.len() ==> keys[i]@ != keys[j]@
}

/// Replacing the value at the place of a key replaces what the key maps to.
proof fn lemma_mapping_update(keys: Seq<String>, values: Seq<String>, i: int, value: String)
    requires
        keys.len() == values.len(),
        distinct(keys),
        0 <= i < keys.len(),
    ensures
        mapping(keys, values.update(i, value)) == mapping(keys, values).insert(keys[i]@, value@),
{
    let before = mapping(keys, values);
    let after = mapping(keys, values.update(i, value));
    assert(key_at(keys, keys[i]@, i));
    assert forall|k: Seq<char>| #[trigger] after.contains_key(k) implies after[k] == before.insert(
        keys[i]@,
        value@,
    )[k] by {
        let j = choose|j: int| key_at(keys, k, j);
        if k == keys[i]@ {
            assert(j == i);
        } else {
            assert(j != i);
        }
    }
    assert(after =~= before.insert(keys[i]@, value@));
}

/// Adding a key that was not there, with its value, adds it to the mapping.
proof fn lemma_mapping_push(keys: Seq<String>, values: Seq<String>, key: String, value: String)
    requires
        keys.len() == values.len(),
        distinct(keys),
        !mapping(keys, values).contains_key(key@),
    ensures
        distinct(keys.push(key)),
        mapping(keys.push(key), values.push(value)) == mapping(keys, values).insert(key@, value@),
{
    let n = keys.len() as int;
    let more_keys = keys.push(key);
    let more_values = values.push(value);
    let before = mapping(keys, values);
    let after = mapping(more_keys, more_values);
    assert forall|i: int, j: int| 0 <= i < j < more_keys.len() implies more_keys[i]@
        != more_keys[j]@ by {
        if j == n && more_keys[i]@ == key@ {
            assert(key_at(keys, key@, i));
        }
    }
    assert(key_at(more_keys, key@, n));
    assert forall|k: Seq<char>| #[trigger] before.contains_key(k) implies after.contains_key(k) by {
        let i = choose|i: int| key_at(keys, k, i);
        assert(key_at(more_keys, k, i));
    }
    assert forall|k: Seq<char>| #[trigger] after.contains_key(k) implies before.insert(
        key@,
        value@,
    ).contains_key(k) && after[k] == before.insert(key@, value@)[k] by {
        let j = choose|j: int| key_at(more_keys, k, j);
        if k == key@ {
            assert(j == n);
        } else {
            assert(j != n);
            assert(key_at(keys, k, j));
            let i = choose|i: int| key_at(keys, k, i);
            assert(i == j);
        }
    }
    assert(after =~= before.insert(key@, value@));
}


/// The ledger's entries and configuration.
pub struct EntryStore {
    entries: Vec<LedgerEntry>,
    keys: Vec<String>,
    values: Vec<String>,
}

impl View for EntryStore {
    type V = StoreState;

    closed spec fn view(&self) -> StoreState {
        StoreState {
            entries: views(self.entries@),
            config: mapping(self.keys@, self.values@),
        }
    }
}

impl EntryStore {
    /// What every store keeps true of itself: each key is stored once, and
    /// the balance is one that the store can hold.
    pub closed spec fn wf(&self) -> bool {
        &&& self.keys.len() == self.values.len()
        &&& distinct(self.keys@)
        &&& fits(total(views(self.entries@)))
    }

    /// A store without entries and without configuration.
    pub fn new() -> (store: EntryStore)
        ensures
            store.wf(),
            store@.entries == Seq::<Entry>::empty(),
            store@.config == Map::<Seq<char>, Seq<char>>::empty(),
    {
        let store = EntryStore { entries: Vec::new(), keys: Vec::new(), values: Vec::new() };
        proof {
            assert(views(store.entries@) =~= Seq::<Entry>::empty());
            assert(store@.config =~= Map::<Seq<char>, Seq<char>>::empty());
        }
        store
    }

    /// The balance of a well-formed store is one that the store can hold.
    pub proof fn lemma_balance_fits(&self)
        requires
            self.wf(),
        ensures
            fits(total(self@.entries)),
    {
    }

    /// The place of `key` among the keys, if it has one.
    fn find(&self, key: &String) -> (place: Option<usize>)
        requires
            self.wf(),
        ensures
            match place {
                Some(i) => key_at(self.keys@, key@, i as int),
                None => !self@.config.contains_key(key@),
            },
    {
        let mut i: usize = 0;
        while i < self.keys.len()
            invariant
                i <= self.keys.len(),
                forall|j: int| 0 <= j < i ==> self.keys@[j]@ != key@,
            decreases self.keys.len() - i,
        {
            if self.keys[i] == *key {
                return Some(i);
            }
            i = i + 1;
        }
        None
    }

    /// The value stored under `key`.
    pub fn get_config(&self, key: &str) -> (r: Result<String, LedgerError>)
        requires
            self.wf(),
        ensures
            match r {
                Ok(value) => self@.config.contains_key(key@) && value@ == self@.config[key@],
                Err(e) => !self@.config.contains_key(key@) && e@ == Failure::ConfigMissing(key@),
            },
    {
        let wanted = String::from_str(key);
        match self.find(&wanted) {
            Some(i) => {
                assert(key_at(self.keys@, key@, i as int));
                Ok(self.values[i].clone())
            },
            None => Err(LedgerError::ConfigMissing(wanted)),
        }
    }

    /// Stores `value` under `key`, in place of what was stored there.
    pub fn set_config(&mut self, key: &str, value: &str)
        requires
            old(self).wf(),
        ensures
            final(self).wf(),
            final(self)@.config == old(self)@.config.insert(key@, value@),
            final(self)@.entries == old(self)@.entries,
    {
        let wanted = String::from_str(key);
        let fresh = String::from_str(value);
        match self.find(&wanted) {
            Some(i) => {
                self.values.set(i, fresh);
                proof {
                    lemma_mapping_update(old(self).keys@, old(self).values@, i as int, fresh);
                }
            },
            None => {
                self.keys.push(wanted);
                self.values.push(fresh);
                proof {
                    lemma_mapping_push(old(self).keys@, old(self).values@, wanted, fresh);
                }
            },
        }
    }

    /// The number of entries.
    pub fn len(&self) -> (n: usize)
        ensures
            n == self@.entries.len(),
    {
        self.entries.len()
    }

    /// The sum of the amounts of all entries; 0 for a store without entries.
    pub fn sum_amounts(&self) -> (sum: i64)
        requires
            self.wf(),
        ensures
            sum == total(self@.entries),
    {
        let ghost all = views(self.entries@);
        let mut sum: i128 = 0;
        let mut i: usize = 0;
        while i < self.entries.len()
            invariant
                i <= self.entries.len(),
                all == views(self.entries@),
                sum == total(all.take(i as int)),
                -(i as int) * 0x8000_0000_0000_0000 <= sum <= (i as int) * 0x8000_0000_0000_0000,
            decreases self.entries.len() - i,
        {
            proof {
                assert(all.take(i + 1).drop_last() =~= all.take(i as int));
            }
            sum = sum + self.entries[i].amount as i128;
            i = i + 1;
        }
        proof {
            assert(all.take(i as int) =~= all);
        }
        sum as i64
    }

    /// Writes `entry` behind the entries that are there, unless the balance
    /// would leave the range that the store can hold.
    pub fn restore(&mut self, entry: LedgerEntry) -> (r: Result<(), LedgerError>)
        requires
            old(self).wf(),
        ensures
            final(self).wf(),
            final(self)@.config == old(self)@.config,
            match r {
                Ok(_) => fits(total(old(self)@.entries) + entry.amount) && final(self)@.entries
                    == old(self)@.entries.push(entry@),
                Err(e) => !fits(total(old(self)@.entries) + entry.amount) && e@
                    == Failure::StorageFault && final(self)@.entries == old(self)@.entries,
            },
    {
        let balance = self.sum_amounts();
        let after: i128 = balance as i128 + entry.amount as i128;
        if after < i64::MIN as i128 || after > i64::MAX as i128 {
            return Err(LedgerError::StorageFault);
        }
        self.entries.push(entry);
        proof {
            let before = views(old(self).entries@);
            assert(views(self.entries@) =~= before.push(entry@));
            assert(before.push(entry@).drop_last() =~= before);
        }
        Ok(())
    }

    /// Writes a new entry with the given time of writing.
    pub fn append_at(
        &mut self,
        description: String,
        amount: i64,
        is_auto_income: bool,
        created_at: i64,
    ) -> (r: Result<(), LedgerError>)
        requires
            old(self).wf(),
        ensures
            final(self).wf(),
            final(self)@.config == old(self)@.config,
            match r {
                Ok(_) => fits(total(old(self)@.entries) + amount) && final(self)@.entries == old(
                    self,
                )@.entries.push(
                    fresh_entry(description@, amount as int, is_auto_income, created_at as int),
                ),
                Err(e) => !fits(total(old(self)@.entries) + amount) && e@ == Failure::StorageFault
                    && final(self)@.entries == old(self)@.entries,
            },
    {
        self.restore(LedgerEntry::new(description, amount, is_auto_income, created_at))
    }

    /// Writes a new entry; the time of writing is read off the clock.
    pub fn append(&mut self, description: String, amount: i64, is_auto_income: bool) -> (r: Result<
        (),
        LedgerError,
    >)
        requires
            old(self).wf(),
        ensures
            final(self).wf(),
            final(self)@.config == old(self)@.config,
            written(
                old(self)@.entries,
                final(self)@.entries,
                description@,
                amount as int,
                is_auto_income,
                r,
            ),
    {
        let now = unix_seconds();
        let r = self.append_at(description, amount, is_auto_income, now);
        proof {
            if r is Ok {
                let before = old(self)@.entries;
                assert(self@.entries.drop_last() =~= before);
            }
        }
        r
    }

    /// Whether a recurring income is recorded for the month: an entry that
    /// the monthly fill-in wrote and whose description ends in the month's
    /// token.
    pub fn exists_auto_income_for(&self, month: u32, year: i32) -> (found: bool)
        ensures
            found == has_auto_income_for(self@.entries, month as nat, year as int),
    {
        let token = token_chars(month, year);
        let ghost all = views(self.entries@);
        let mut i: usize = 0;
        while i < self.entries.len()
            invariant
                i <= self.entries.len(),
                all == views(self.entries@),
                token@ == month_token(month as nat, year as int),
                forall|j: int| 0 <= j < i ==> !is_auto_income_for(#[trigger] all[j], month as nat, year as int),
            decreases self.entries.len() - i,
        {
            if self.entries[i].is_auto_income {
                let description = chars_of(self.entries[i].description.as_str());
                if has_suffix(&description, &token) {
                    assert(is_auto_income_for(all[i as int], month as nat, year as int));
                    return true;
                }
            }
            i = i + 1;
        }
        false
    }

    /// The most recently written entries, newest first, at most `limit` of
    /// them; of two written at the same time the one inserted later comes
    /// first.
    pub fn recent(&self, limit: usize) -> (list: Vec<LedgerEntry>)
        ensures
            views(list@) == recent_entries(self@.entries, limit as nat),
            is_listing(self@.entries, limit as nat, recent_places(self@.entries, limit as nat)),
    {
        let places = newest_places(&self.entries, limit);
        proof {
            lemma_listing_unique(
                self@.entries,
                limit as nat,
                places_of(places@),
                recent_places(self@.entries, limit as nat),
            );
            assert forall|k: int| 0 <= k < places.len() implies #[trigger] places[k]
                < self.entries.len() by {
                assert(places_of(places@)[k] == places[k]);
            }
        }
        copy_places(&self.entries, &places)
    }

    /// All entries, in the order in which they were written.
    pub fn entries(&self) -> (all: &Vec<LedgerEntry>)
        ensures
            views(all@) == self@.entries,
    {
        &self.entries
    }

    /// Whether a recurring income is recorded for the given month or for a
    /// month before it, back to January of the least year of an `i32`.
    pub fn has_auto_income_on_or_before(&self, month: u32, year: i32) -> (found: bool)
        requires
            1 <= month <= 12,
        ensures
            found == anchored(self@.entries, month_number(month as int, year as int)),
    {
        let k = month_index(month, year);
        let ghost all = views(self.entries@);
        let mut i: usize = 0;
        while i < self.entries.len()
            invariant
                i <= self.entries.len(),
                all == views(self.entries@),
                k == month_number(month as int, year as int),
                1 <= month <= 12,
                forall|j: int, a: int|
                    0 <= j < i && first_month() <= a <= k ==> !#[trigger] is_auto_income_for(
                        all[j],
                        month_of(a) as nat,
                        year_of(a),
                    ),
            decreases self.entries.len() - i,
        {
            let mut named: Option<(u32, i32)> = None;
            if self.entries[i].is_auto_income {
                let description = chars_of(self.entries[i].description.as_str());
                named = named_month(&description);
            }
            match named {
                Some((m, y)) => {
                    let at = month_index(m, y);
                    if at <= k {
                        proof {
                            lemma_month_number_inverse(m as int, y as int);
                            assert(is_auto_income_for(
                                all[i as int],
                                month_of(at as int) as nat,
                                year_of(at as int),
                            ));
                            assert(covered(all, at as int));
                        }
                        return true;
                    }
                },
                None => {},
            }
            proof {
                assert forall|a: int| first_month() <= a <= k implies !#[trigger] is_auto_income_for(
                    all[i as int],
                    month_of(a) as nat,
                    year_of(a),
                ) by {
                    if is_auto_income_for(all[i as int], month_of(a) as nat, year_of(a)) {
                        lemma_month_number_inverse(month_of(a), year_of(a));
                        assert(named == Some((month_of(a) as u32, year_of(a) as i32)));
                    }
                }
            }
            i = i + 1;
        }
        proof {
            assert forall|a: int| first_month() <= a <= k implies !#[trigger] covered(all, a) by {
                if covered(all, a) {
                    let j = choose|j: int|
                        0 <= j < all.len() && is_auto_income_for(
                            #[trigger] all[j],
                            month_of(a) as nat,
                            year_of(a),
                        );
                    assert(!is_auto_income_for(all[j], month_of(a) as nat, year_of(a)));
                }
            }
        }
        false
    }
}

} // verus!
