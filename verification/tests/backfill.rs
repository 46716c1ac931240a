use chrono::Datelike;
use virtuallet::database::Database;
use virtuallet::error::LedgerError;
use virtuallet::store::EntryStore;

fn store_last_run(month: u32, year: i32, income: &str) -> EntryStore {
    Database::setup_on("pocket money", income, "200", month, year).unwrap().shutdown()
}

fn descriptions(database: &Database) -> Vec<String> {
    database.entries().iter().map(|e| e.description.clone()).collect()
}

#[test]
fn scenario_three_months_passed() {
    let store = store_last_run(1, 2024, "100");
    assert_eq!(store.sum_amounts(), 10000);
    let (database, balance) = Database::start_on(store, 4, 2024).unwrap();
    assert_eq!(
        descriptions(&database),
        vec![
            "pocket money 01/2024",
            "pocket money 02/2024",
            "pocket money 03/2024",
            "pocket money 04/2024"
        ]
    );
    assert_eq!(balance, 40000);
    for entry in database.entries() {
        assert_eq!(entry.amount, 10000);
        assert!(entry.is_auto_income);
        assert_eq!(entry.modified_at, None);
    }
}

#[test]
fn setup_writes_the_income_of_the_month_of_setup() {
    let database = Database::setup_on("salary", "1234.56", "0", 11, 2031).unwrap();
    assert_eq!(descriptions(&database), vec!["salary 11/2031"]);
    assert_eq!(database.balance(), 123456);
    assert_eq!(database.income_amount(), 123456);
    assert_eq!(database.overdraft(), 0);
    assert!(database.entries()[0].is_auto_income);
    let store = database.shutdown();
    assert_eq!(store.get_config("income_description"), Ok("salary".to_string()));
    assert_eq!(store.get_config("income_amount"), Ok("1234.56".to_string()));
    assert_eq!(store.get_config("overdraft"), Ok("0".to_string()));
    assert!(store.exists_auto_income_for(11, 2031));
    assert!(store.has_auto_income_on_or_before(11, 2031));
}

#[test]
fn setup_refuses_amounts_that_are_no_numbers() {
    assert_eq!(
        Database::setup_on("pay", "much", "200", 1, 2024).err(),
        Some(LedgerError::InvalidAmount)
    );
    assert_eq!(
        Database::setup_on("pay", "100", "none", 1, 2024).err(),
        Some(LedgerError::InvalidAmount)
    );
}

#[test]
fn fill_in_twice_in_one_month_writes_nothing_the_second_time() {
    let store = store_last_run(11, 2023, "100");
    let (mut database, first) = Database::start_on(store, 2, 2024).unwrap();
    assert_eq!(database.entries().len(), 4);
    assert_eq!(database.insert_due_incomes(2, 2024), Ok(()));
    assert_eq!(database.entries().len(), 4);
    assert_eq!(database.balance(), first);
    let (database, second) = Database::start_on(database.shutdown(), 2, 2024).unwrap();
    assert_eq!(database.entries().len(), 4);
    assert_eq!(second, first);
}

#[test]
fn fill_in_in_the_month_of_setup_writes_nothing() {
    let store = store_last_run(3, 2024, "100");
    let (database, balance) = Database::start_on(store, 3, 2024).unwrap();
    assert_eq!(database.entries().len(), 1);
    assert_eq!(balance, 10000);
}

#[test]
fn fill_in_crosses_the_turn_of_the_year() {
    let store = store_last_run(11, 2023, "50");
    let (database, balance) = Database::start_on(store, 2, 2024).unwrap();
    assert_eq!(
        descriptions(&database),
        vec!["pocket money 11/2023", "pocket money 12/2023", "pocket money 01/2024", "pocket money 02/2024"]
    );
    assert_eq!(balance, 4 * 5000);
}

#[test]
fn fill_in_writes_one_entry_for_each_month_missed() {
    let store = store_last_run(6, 2020, "1");
    let (database, balance) = Database::start_on(store, 6, 2024).unwrap();
    assert_eq!(database.entries().len(), 49);
    assert_eq!(balance, 4900);
    assert_eq!(database.entries()[1].description, "pocket money 07/2020");
    assert_eq!(database.entries()[48].description, "pocket money 06/2024");
}

#[test]
fn fill_in_stops_at_the_latest_month_that_has_its_income() {
    let mut store = store_last_run(1, 2024, "100");
    store.append_at("pocket money 03/2024".to_string(), 10000, true, 5).unwrap();
    let (database, _) = Database::start_on(store, 5, 2024).unwrap();
    assert_eq!(
        descriptions(&database),
        vec![
            "pocket money 01/2024",
            "pocket money 03/2024",
            "pocket money 04/2024",
            "pocket money 05/2024"
        ]
    );
}

#[test]
fn fill_in_takes_only_flagged_entries_for_incomes() {
    let mut store = store_last_run(1, 2024, "100");
    store.append_at("refund for 03/2024".to_string(), 10000, false, 5).unwrap();
    let (database, _) = Database::start_on(store, 3, 2024).unwrap();
    assert_eq!(database.entries().len(), 4);
    assert_eq!(database.entries()[2].description, "pocket money 02/2024");
    assert_eq!(database.entries()[3].description, "pocket money 03/2024");
}

#[test]
fn fill_in_works_for_years_before_zero() {
    let store = store_last_run(11, -1, "100");
    let (database, _) = Database::start_on(store, 1, 0).unwrap();
    assert_eq!(
        descriptions(&database),
        vec!["pocket money 11/-1", "pocket money 12/-1", "pocket money 01/0"]
    );
}

#[test]
fn fill_in_without_an_earlier_income_reports_the_missing_setup() {
    let mut store = EntryStore::new();
    store.set_config("income_description", "pay");
    store.set_config("income_amount", "100");
    store.set_config("overdraft", "200");
    store.append_at("manual".to_string(), 5, false, 1).unwrap();
    let mut database = Database::open(store).unwrap();
    assert_eq!(database.insert_due_incomes(3, 2024), Err(LedgerError::SetupIncomplete));
    assert_eq!(database.entries().len(), 1);
    assert_eq!(
        Database::start_on(database.shutdown(), 3, 2024).err(),
        Some(LedgerError::SetupIncomplete)
    );
}

#[test]
fn fill_in_before_the_month_of_setup_reports_the_missing_setup() {
    let store = store_last_run(5, 2024, "100");
    assert_eq!(Database::start_on(store, 4, 2024).err(), Some(LedgerError::SetupIncomplete));
}

#[test]
fn fill_in_stops_where_the_balance_would_not_fit() {
    let mut store = store_last_run(1, 2024, "100");
    store.append_at("fortune".to_string(), i64::MAX - 10000 - 25000, false, 2).unwrap();
    let mut database = Database::open(store).unwrap();
    assert_eq!(database.insert_due_incomes(6, 2024), Err(LedgerError::StorageFault));
    assert_eq!(
        descriptions(&database),
        vec!["pocket money 01/2024", "fortune", "pocket money 02/2024", "pocket money 03/2024"]
    );
    assert_eq!(database.balance(), i64::MAX - 5000);
}

#[test]
fn start_reports_a_missing_setting_before_anything_else() {
    let mut store = EntryStore::new();
    store.set_config("income_description", "pay");
    store.set_config("income_amount", "100");
    assert_eq!(
        Database::start_on(store, 3, 2024).err(),
        Some(LedgerError::ConfigMissing("overdraft".to_string()))
    );
}

#[test]
fn setup_and_start_by_the_clock_agree_on_the_month() {
    let before = chrono::Local::now();
    let database = Database::setup("pocket money", "100", "200").unwrap();
    let after = chrono::Local::now();
    let written = database.entries()[0].description.clone();
    let expected_before = format!("pocket money {:02}/{}", before.month(), before.year());
    let expected_after = format!("pocket money {:02}/{}", after.month(), after.year());
    assert!(written == expected_before || written == expected_after);
    if expected_before == expected_after {
        let (database, balance) = Database::start(database.shutdown()).unwrap();
        let now = chrono::Local::now();
        if now.month() == before.month() {
            assert_eq!(database.entries().len(), 1);
            assert_eq!(balance, 10000);
        }
    }
}

#[test]
fn insert_all_due_incomes_fills_in_up_to_the_current_month() {
    let store = store_last_run(1, 2020, "1");
    let mut database = Database::open(store).unwrap();
    let before = chrono::Local::now();
    assert_eq!(database.insert_all_due_incomes(), Ok(()));
    let after = chrono::Local::now();
    let months = |now: &chrono::DateTime<chrono::Local>| {
        (now.year() as i64 * 12 + now.month() as i64) - (2020 * 12 + 1) + 1
    };
    let n = database.entries().len() as i64;
    assert!(n == months(&before) || n == months(&after));
    let last = database.entries().last().unwrap().description.clone();
    assert!(
        last == format!("pocket money {:02}/{}", before.month(), before.year())
            || last == format!("pocket money {:02}/{}", after.month(), after.year())
    );
    assert_eq!(database.insert_all_due_incomes(), Ok(()));
    assert!(database.entries().len() as i64 == n || after.month() != chrono::Local::now().month());
}

#[test]
fn after_the_fill_in_each_month_has_its_income_once() {
    let store = store_last_run(10, 2022, "100");
    let (mut database, _) = Database::start_on(store, 5, 2023).unwrap();
    database.record_income("gift 01/2023", 500).unwrap();
    database.insert_due_incomes(7, 2023).unwrap();
    let months: [(u32, i32); 10] = [
        (10, 2022),
        (11, 2022),
        (12, 2022),
        (1, 2023),
        (2, 2023),
        (3, 2023),
        (4, 2023),
        (5, 2023),
        (6, 2023),
        (7, 2023),
    ];
    for (month, year) in months {
        let token = format!("{:02}/{}", month, year);
        let incomes = database
            .entries()
            .iter()
            .filter(|e| e.is_auto_income && e.description.ends_with(&token))
            .count();
        assert_eq!(incomes, 1, "{}", token);
    }
    assert_eq!(database.entries().len(), 11);
}

#[test]
fn a_ledger_that_was_set_up_can_be_filled_in_ever_after() {
    let mut database = Database::setup_on("pay", "1", "0", 2, 2024).unwrap();
    for i in 0..5 {
        database.record_income("more", 1 + i).unwrap();
    }
    let store = database.shutdown();
    assert!(store.has_auto_income_on_or_before(2, 2024));
    assert!(store.has_auto_income_on_or_before(3, 2024));
    assert!(store.has_auto_income_on_or_before(12, i32::MAX));
    assert!(!store.has_auto_income_on_or_before(1, 2024));
}
