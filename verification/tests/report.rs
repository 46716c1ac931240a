use virtuallet::database::Database;
use virtuallet::entry::LedgerEntry;
use virtuallet::error::LedgerError;
use virtuallet::report::{format_time, format_transactions, transaction_row};
use virtuallet::store::EntryStore;

fn opened(overdraft: &str) -> Database {
    let mut store = EntryStore::new();
    store.set_config("income_description", "pocket money");
    store.set_config("income_amount", "100");
    store.set_config("overdraft", overdraft);
    Database::open(store).unwrap()
}

#[test]
fn format_time_writes_date_and_time_of_day_in_utc() {
    assert_eq!(format_time(0), "1970-01-01 00:00:00");
    assert_eq!(format_time(86399), "1970-01-01 23:59:59");
    assert_eq!(format_time(1710500000), "2024-03-15 10:53:20");
    assert_eq!(format_time(-1), "1969-12-31 23:59:59");
    assert_eq!(format_time(253402300799), "9999-12-31 23:59:59");
}

#[test]
fn format_time_writes_the_seconds_where_the_calendar_ends() {
    assert_eq!(format_time(i64::MAX), "9223372036854775807");
    assert_eq!(format_time(i64::MIN), "-9223372036854775808");
}

#[test]
fn transaction_row_puts_a_tabulator_before_each_column() {
    assert_eq!(
        transaction_row("2024-03-15 10:53:20", -25000, "rent"),
        "\t2024-03-15 10:53:20\t-250.00\trent"
    );
    assert_eq!(transaction_row("", 0, ""), "\t\t0.00\t");
    assert_eq!(transaction_row("t", 5, "a\tb"), "\tt\t0.05\ta\tb");
}

#[test]
fn format_transactions_writes_one_row_for_each_entry() {
    assert_eq!(format_transactions(&Vec::new()), "\n");
    let one = vec![LedgerEntry::new("pocket money 03/2024".to_string(), 10000, true, 1710500000)];
    assert_eq!(format_transactions(&one), "\t2024-03-15 10:53:20\t100.00\tpocket money 03/2024\n");
    let two = vec![
        LedgerEntry::new("b".to_string(), -1, false, 60),
        LedgerEntry::new("a".to_string(), 1, false, 0),
    ];
    assert_eq!(
        format_transactions(&two),
        "\t1970-01-01 00:01:00\t-0.01\tb\n\t1970-01-01 00:00:00\t0.01\ta\n"
    );
}

#[test]
fn transactions_lists_the_newest_first() {
    let mut store = EntryStore::new();
    store.set_config("income_description", "pay");
    store.set_config("income_amount", "1");
    store.set_config("overdraft", "1");
    store.append_at("first".to_string(), 100, false, 0).unwrap();
    store.append_at("second".to_string(), -50, false, 3600).unwrap();
    let database = Database::open(store).unwrap();
    assert_eq!(
        database.transactions(),
        "\t1970-01-01 01:00:00\t-0.50\tsecond\n\t1970-01-01 00:00:00\t1.00\tfirst\n"
    );
    assert_eq!(opened("0").transactions(), "\n");
}

#[test]
fn transactions_shows_thirty_rows_at_most() {
    let mut database = opened("0");
    for i in 0..35 {
        database.record_income(&format!("{}", i), 1).unwrap();
    }
    assert_eq!(database.transactions().lines().count(), 30);
    assert!(database.transactions().ends_with("\t0.01\t5\n"));
}

#[test]
fn add_to_ledger_reads_the_amount_as_typed() {
    let mut database = opened("200");
    assert_eq!(database.add_to_ledger(true, "gift", "12.345"), Ok(()));
    assert_eq!(database.balance(), 1235);
    assert_eq!(database.add_to_ledger(false, "lunch", "2.5"), Ok(()));
    assert_eq!(database.balance(), 985);
    assert_eq!(database.entries()[1].amount, -250);
    assert_eq!(database.entries()[1].description, "lunch");
    assert_eq!(database.add_to_ledger(false, "car", "209.86"), Err(LedgerError::OverLimit));
    assert_eq!(database.add_to_ledger(false, "car", "209.85"), Ok(()));
    assert_eq!(database.balance(), -20000);
}

#[test]
fn add_to_ledger_refuses_what_is_no_positive_amount() {
    let mut database = opened("200");
    for typed in ["", "abc", "0", "0.000", "-0", "-3", "-0.004", "1,5", "inf", "NaN"] {
        assert_eq!(database.add_to_ledger(true, "x", typed), Err(LedgerError::InvalidAmount));
        assert_eq!(database.add_to_ledger(false, "x", typed), Err(LedgerError::InvalidAmount));
    }
    assert!(database.entries().is_empty());
    assert_eq!(database.balance(), 0);
}

#[test]
fn add_to_ledger_writes_a_positive_amount_however_small() {
    let mut database = opened("200");
    assert_eq!(database.add_to_ledger(true, "dust", "0.004"), Ok(()));
    assert_eq!(database.entries().len(), 1);
    assert_eq!(database.entries()[0].amount, 0);
    assert_eq!(database.entries()[0].description, "dust");
    assert_eq!(database.balance(), 0);
    assert_eq!(database.add_to_ledger(false, "less dust", "0.0049"), Ok(()));
    assert_eq!(database.entries().len(), 2);
    assert_eq!(database.entries()[1].amount, 0);
    assert_eq!(database.add_to_ledger(true, "a hundredth", "0.005"), Ok(()));
    assert_eq!(database.balance(), 1);
}

#[test]
fn add_to_ledger_holds_the_limit_against_the_amount_as_typed() {
    let mut database = opened("200");
    database.record_income("opening", 10000).unwrap();
    assert_eq!(database.add_to_ledger(false, "rent", "300.004"), Err(LedgerError::OverLimit));
    assert_eq!(database.add_to_ledger(false, "rent", "300.0000001"), Err(LedgerError::OverLimit));
    assert_eq!(database.add_to_ledger(false, "rent", "300.01"), Err(LedgerError::OverLimit));
    assert_eq!(database.entries().len(), 1);
    assert_eq!(database.balance(), 10000);
    assert_eq!(database.add_to_ledger(false, "rent", "299.996"), Ok(()));
    assert_eq!(database.entries()[1].amount, -30000);
    assert_eq!(database.balance(), -20000);
    assert_eq!(database.add_to_ledger(false, "dust", "0.001"), Err(LedgerError::OverLimit));
    assert_eq!(database.add_to_ledger(true, "back", "300.0000"), Ok(()));
    assert_eq!(database.add_to_ledger(false, "all", "300.000"), Ok(()));
    assert_eq!(database.balance(), -20000);
}

#[test]
fn add_to_ledger_reports_a_fault_for_what_the_store_cannot_hold() {
    let mut database = opened("0");
    assert_eq!(
        database.add_to_ledger(true, "x", "92233720368547758.075"),
        Err(LedgerError::StorageFault)
    );
    assert_eq!(
        database.add_to_ledger(true, "x", "1000000000000000000000000000000000000000"),
        Err(LedgerError::StorageFault)
    );
    assert_eq!(
        database.add_to_ledger(false, "x", "1000000000000000000000000000000000000000"),
        Err(LedgerError::OverLimit)
    );
    assert_eq!(
        database.add_to_ledger(true, "x", "-1000000000000000000000000000000000000000"),
        Err(LedgerError::InvalidAmount)
    );
    assert_eq!(database.add_to_ledger(true, "x", "92233720368547758.07"), Ok(()));
    assert_eq!(database.balance(), i64::MAX);
    assert_eq!(database.add_to_ledger(true, "x", "0.01"), Err(LedgerError::StorageFault));
    assert_eq!(database.add_to_ledger(true, "x", "0.004"), Ok(()));
    assert_eq!(database.entries().len(), 2);
}

#[test]
fn add_to_ledger_reads_exponents() {
    let mut database = opened("200");
    assert_eq!(database.add_to_ledger(true, "pay", "1e3"), Ok(()));
    assert_eq!(database.balance(), 100000);
    assert_eq!(database.add_to_ledger(false, "rent", "1.2e3"), Ok(()));
    assert_eq!(database.balance(), -20000);
    assert_eq!(database.add_to_ledger(false, "dust", "1e-9"), Err(LedgerError::OverLimit));
    assert_eq!(database.add_to_ledger(true, "dust", "1e-9"), Ok(()));
    assert_eq!(database.add_to_ledger(true, "x", "1e400"), Err(LedgerError::StorageFault));
    assert_eq!(database.add_to_ledger(false, "x", "1e400"), Err(LedgerError::OverLimit));
    assert_eq!(database.add_to_ledger(true, "x", "-1e400"), Err(LedgerError::InvalidAmount));
    assert_eq!(database.add_to_ledger(true, "x", "0e400"), Err(LedgerError::InvalidAmount));
    assert_eq!(database.entries().len(), 3);
    assert_eq!(database.balance(), -20000);
}
