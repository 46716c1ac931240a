use virtuallet::entry::LedgerEntry;
use virtuallet::error::LedgerError;
use virtuallet::store::EntryStore;

fn entry(description: &str, amount: i64, created_at: i64) -> LedgerEntry {
    LedgerEntry::new(description.to_string(), amount, false, created_at)
}

#[test]
fn new_store_is_empty_and_sums_to_zero() {
    let store = EntryStore::new();
    assert_eq!(store.len(), 0);
    assert_eq!(store.sum_amounts(), 0);
    assert!(store.recent(30).is_empty());
    assert!(store.entries().is_empty());
}

#[test]
fn get_config_of_a_missing_key_names_the_key() {
    let store = EntryStore::new();
    assert_eq!(
        store.get_config("overdraft"),
        Err(LedgerError::ConfigMissing("overdraft".to_string()))
    );
}

#[test]
fn set_config_stores_and_replaces() {
    let mut store = EntryStore::new();
    store.set_config("overdraft", "200");
    store.set_config("income_amount", "100");
    assert_eq!(store.get_config("overdraft"), Ok("200".to_string()));
    assert_eq!(store.get_config("income_amount"), Ok("100".to_string()));
    store.set_config("overdraft", "350.5");
    assert_eq!(store.get_config("overdraft"), Ok("350.5".to_string()));
    assert_eq!(store.get_config("income_amount"), Ok("100".to_string()));
}

#[test]
fn set_config_twice_is_set_config_once() {
    let mut once = EntryStore::new();
    once.set_config("k", "v");
    let mut twice = EntryStore::new();
    twice.set_config("k", "v");
    twice.set_config("k", "v");
    assert_eq!(once.get_config("k"), twice.get_config("k"));
    assert_eq!(twice.get_config("k"), Ok("v".to_string()));
}

#[test]
fn append_at_writes_the_entry_as_given() {
    let mut store = EntryStore::new();
    assert_eq!(store.append_at("rent".to_string(), -25000, false, 1710500000), Ok(()));
    assert_eq!(store.len(), 1);
    assert_eq!(
        store.entries()[0],
        LedgerEntry {
            description: "rent".to_string(),
            amount: -25000,
            is_auto_income: false,
            created_at: 1710500000,
            modified_at: None,
        }
    );
}

#[test]
fn append_reads_the_clock() {
    let before = chrono::Utc::now().timestamp();
    let mut store = EntryStore::new();
    assert_eq!(store.append("tip".to_string(), 500, false), Ok(()));
    let after = chrono::Utc::now().timestamp();
    let written = &store.entries()[0];
    assert_eq!(written.description, "tip");
    assert_eq!(written.amount, 500);
    assert!(!written.is_auto_income);
    assert_eq!(written.modified_at, None);
    assert!(before <= written.created_at && written.created_at <= after);
    assert!(written.created_at > 1_600_000_000);
}

#[test]
fn sum_amounts_adds_incomes_and_expenses() {
    let mut store = EntryStore::new();
    for (i, amount) in [10000i64, -2550, 1, -99999, 42].iter().enumerate() {
        assert_eq!(store.append_at(String::new(), *amount, i == 0, i as i64), Ok(()));
    }
    assert_eq!(store.sum_amounts(), 10000 - 2550 + 1 - 99999 + 42);
}

#[test]
fn append_fails_where_the_balance_would_not_fit() {
    let mut store = EntryStore::new();
    assert_eq!(store.append_at("a".to_string(), i64::MAX, false, 1), Ok(()));
    assert_eq!(store.append_at("b".to_string(), 1, false, 2), Err(LedgerError::StorageFault));
    assert_eq!(store.len(), 1);
    assert_eq!(store.sum_amounts(), i64::MAX);
    assert_eq!(store.append_at("c".to_string(), -5, false, 3), Ok(()));
    assert_eq!(store.sum_amounts(), i64::MAX - 5);
}

#[test]
fn append_fails_below_the_least_balance() {
    let mut store = EntryStore::new();
    assert_eq!(store.append_at("a".to_string(), i64::MIN, false, 1), Ok(()));
    assert_eq!(store.append_at("b".to_string(), -1, false, 2), Err(LedgerError::StorageFault));
    assert_eq!(store.sum_amounts(), i64::MIN);
}

#[test]
fn restore_keeps_the_time_of_editing() {
    let mut store = EntryStore::new();
    let edited = LedgerEntry {
        description: "edited by hand".to_string(),
        amount: 123,
        is_auto_income: false,
        created_at: 10,
        modified_at: Some(20),
    };
    assert_eq!(store.restore(edited.clone()), Ok(()));
    assert_eq!(store.entries()[0], edited);
    assert_eq!(store.recent(1), vec![edited]);
}

#[test]
fn recent_of_forty_entries_returns_the_thirty_newest() {
    let mut store = EntryStore::new();
    for i in 0..40 {
        store.restore(entry(&format!("entry {}", i), i, 1000 + i)).unwrap();
    }
    let recent = store.recent(30);
    assert_eq!(recent.len(), 30);
    for (place, listed) in recent.iter().enumerate() {
        assert_eq!(listed.created_at, 1039 - place as i64);
        assert_eq!(listed.description, format!("entry {}", 39 - place));
    }
}

#[test]
fn recent_orders_by_time_of_writing_not_by_insertion() {
    let mut store = EntryStore::new();
    store.restore(entry("late", 1, 300)).unwrap();
    store.restore(entry("early", 2, 100)).unwrap();
    store.restore(entry("middle", 3, 200)).unwrap();
    let recent = store.recent(30);
    let names: Vec<&str> = recent.iter().map(|e| e.description.as_str()).collect();
    assert_eq!(names, vec!["late", "middle", "early"]);
    let two = store.recent(2);
    let names: Vec<&str> = two.iter().map(|e| e.description.as_str()).collect();
    assert_eq!(names, vec!["late", "middle"]);
}

#[test]
fn recent_breaks_ties_by_insertion_latest_first() {
    let mut store = EntryStore::new();
    store.restore(entry("first", 1, 500)).unwrap();
    store.restore(entry("second", 2, 500)).unwrap();
    store.restore(entry("older", 3, 400)).unwrap();
    store.restore(entry("third", 4, 500)).unwrap();
    let recent = store.recent(30);
    let names: Vec<&str> = recent.iter().map(|e| e.description.as_str()).collect();
    assert_eq!(names, vec!["third", "second", "first", "older"]);
    let one = store.recent(1);
    assert_eq!(one[0].description, "third");
}

#[test]
fn recent_with_limit_zero_is_empty() {
    let mut store = EntryStore::new();
    store.restore(entry("a", 1, 1)).unwrap();
    assert!(store.recent(0).is_empty());
}

#[test]
fn recent_with_a_large_limit_lists_everything() {
    let mut store = EntryStore::new();
    store.restore(entry("a", 1, 2)).unwrap();
    store.restore(entry("b", 1, 1)).unwrap();
    store.restore(entry("c", 1, 3)).unwrap();
    let recent = store.recent(usize::MAX);
    let names: Vec<&str> = recent.iter().map(|e| e.description.as_str()).collect();
    assert_eq!(names, vec!["c", "a", "b"]);
}

#[test]
fn exists_auto_income_for_wants_the_flag_and_the_token() {
    let mut store = EntryStore::new();
    store.append_at("pocket money 03/2024".to_string(), 10000, true, 1).unwrap();
    store.append_at("refund 04/2024".to_string(), 10000, false, 2).unwrap();
    store.append_at("pocket money".to_string(), 10000, true, 3).unwrap();
    assert!(store.exists_auto_income_for(3, 2024));
    assert!(!store.exists_auto_income_for(4, 2024));
    assert!(!store.exists_auto_income_for(2, 2024));
    assert!(!store.exists_auto_income_for(3, 2023));
    assert!(!store.exists_auto_income_for(3, 24));
    assert!(!store.exists_auto_income_for(13, 2024));
}

#[test]
fn exists_auto_income_for_pads_the_month_to_two_digits() {
    let mut store = EntryStore::new();
    store.append_at("income 3/2024".to_string(), 1, true, 1).unwrap();
    assert!(!store.exists_auto_income_for(3, 2024));
    store.append_at("income 11/2024".to_string(), 1, true, 2).unwrap();
    assert!(store.exists_auto_income_for(11, 2024));
    assert!(!store.exists_auto_income_for(1, 2024));
}

#[test]
fn exists_auto_income_for_handles_years_before_zero() {
    let mut store = EntryStore::new();
    store.append_at("tribute 07/-44".to_string(), 1, true, 1).unwrap();
    assert!(store.exists_auto_income_for(7, -44));
    assert!(!store.exists_auto_income_for(7, 44));
}

#[test]
fn has_auto_income_on_or_before_looks_back_in_time() {
    let mut store = EntryStore::new();
    assert!(!store.has_auto_income_on_or_before(12, i32::MAX));
    store.append_at("pay 01/2024".to_string(), 1, true, 1).unwrap();
    assert!(store.has_auto_income_on_or_before(1, 2024));
    assert!(store.has_auto_income_on_or_before(4, 2024));
    assert!(store.has_auto_income_on_or_before(1, 2030));
    assert!(!store.has_auto_income_on_or_before(12, 2023));
    assert!(!store.has_auto_income_on_or_before(1, -2024));
}

#[test]
fn has_auto_income_on_or_before_skips_what_names_no_month() {
    let mut store = EntryStore::new();
    store.append_at("pay 13/2020".to_string(), 1, true, 1).unwrap();
    store.append_at("pay 00/2020".to_string(), 1, true, 2).unwrap();
    store.append_at("pay 01/2020x".to_string(), 1, true, 3).unwrap();
    store.append_at("pay 01/99999999999".to_string(), 1, true, 4).unwrap();
    store.append_at("pay 01/2020".to_string(), 1, false, 5).unwrap();
    store.append_at("pay 1/2020".to_string(), 1, true, 6).unwrap();
    store.append_at("pay 01/02020".to_string(), 1, true, 7).unwrap();
    store.append_at("pay 01/-0".to_string(), 1, true, 8).unwrap();
    store.append_at("/".to_string(), 1, true, 9).unwrap();
    store.append_at("".to_string(), 1, true, 10).unwrap();
    assert!(!store.has_auto_income_on_or_before(12, i32::MAX));
    store.append_at("x12/-2147483648".to_string(), 1, true, 11).unwrap();
    assert!(store.has_auto_income_on_or_before(12, i32::MIN));
    assert!(!store.has_auto_income_on_or_before(11, i32::MIN));
}
