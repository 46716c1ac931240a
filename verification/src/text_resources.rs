//! The texts that the wallet shows. `<TAB>` in a text stands for a
//! tabulator; whoever prints a text puts one there.

use vstd::prelude::*;
use vstd::string::*;
use crate::amount::{
    amount_text, format_amount, is_negative, lemma_capped, read_amount, typed_of,
};
use crate::error::{failure_of, Failure, LedgerError};

verus! {

/// The banner shown when the program starts.
pub const BANNER: &'static str = r#"
<TAB> _                                 _   _
<TAB>(_|   |_/o                        | | | |
<TAB>  |   |      ,_  _|_         __,  | | | |  _ _|_
<TAB>  |   |  |  /  |  |  |   |  /  |  |/  |/  |/  |
<TAB>   \_/   |_/   |_/|_/ \_/|_/\_/|_/|__/|__/|__/|_/

<TAB>Rust 1.61 Edition


"#;

/// The list of commands.
pub const INFO: &'static str = r#"
<TAB>Commands:
<TAB>- press plus (+) to add an irregular income
<TAB>- press minus (-) to add an expense
<TAB>- press equals (=) to show balance and last transactions
<TAB>- press question mark (?) for even more info about this program
<TAB>- press colon (:) to exit

"#;

/// The long help text.
pub const HELP: &'static str = r#"
<TAB>Virtuallet is a tool to act as your virtual wallet. Wow...
<TAB>Virtuallet is accessible via terminal and uses a Sqlite database to store all its data.
<TAB>On first start Virtuallet will be configured and requires some input
<TAB>but you already know that unless you are currently studying the source code.

<TAB>Virtuallet follows two important design principles:

<TAB>- shit in shit out
<TAB>- UTFSB (Use The F**king Sqlite Browser)

<TAB>As a consequence everything in the database is considered valid.
<TAB>Program behaviour is unspecified for any database content being invalid. Ouch...

<TAB>As its primary feature Virtuallet will auto-add the configured income on start up
<TAB>for all days in the past since the last registered regular income.
<TAB>So if you have specified a monthly income and haven't run Virtuallet for three months
<TAB>it will auto-create three regular incomes when you boot it the next time if you like it or not.

<TAB>Virtuallet will also allow you to add irregular incomes and expenses manually.
<TAB>It can also display the current balance and the 30 most recent transactions.

<TAB>The configured overdraft will be considered if an expense is registered.
<TAB>For instance if your overdraft equals the default value of 200
<TAB>you won't be able to add an expense if the balance would be less than -200 afterwards.

<TAB>Virtuallet does not feature any fancy reports and you are indeed encouraged to use a Sqlite-Browser
<TAB>to view and even edit the database. When making updates please remember the shit in shit out principle.

<TAB>As a free gift to you I have added a modified_at field in the ledger table. Feel free to make use of it.

"#;

/// Said before the database is created.
pub const SETUP_PRE_DATABASE: &'static str = r#"
<TAB>Database file not found.
<TAB>Database will be initialized. This may take a while... NOT.
"#;

/// Said once the database is created, before the settings are asked for.
pub const SETUP_POST_DATABASE: &'static str = r#"
<TAB>Database initialized.
<TAB>Are you prepared for some configuration? If not I don't care. There is no way to exit, muhahahar.
<TAB>Press enter to accept the default or input something else. There is no validation
<TAB>because I know you will not make a mistake. No second chances. If you f**k up,
<TAB>you will have to either delete the database file or edit it using a sqlite database browser.

"#;

/// Said of an amount that is zero or no number.
pub const ERROR_ZERO_OR_INVALID_AMOUNT: &'static str = "amount is zero or invalid -> action aborted";

/// Said of a negative amount.
pub const ERROR_NEGATIVE_AMOUNT: &'static str = "amount must be positive -> action aborted";

/// Said once an income is recorded.
pub const INCOME_BOOKED: &'static str = "income booked";

/// Said once an expense is recorded.
pub const EXPENSE_BOOKED: &'static str = "expense booked successfully";

/// Said of an expense that the overdraft limit refuses.
pub const ERROR_TOO_EXPENSIVE: &'static str = "sorry, too expensive -> action aborted";

/// Said of text that follows a `+` or `-`.
pub const ERROR_OMG: &'static str = "OMFG RTFM YOU FOOL you are supposed to only enter + or - not anything else after that";

/// The prompt for a command.
pub const ENTER_INPUT: &'static str = "input > ";

/// The prompt for a description.
pub const ENTER_DESCRIPTION: &'static str = "description (optional) > ";

/// The prompt for an amount.
pub const ENTER_AMOUNT: &'static str = "amount > ";

/// Said once the ledger is set up.
pub const SETUP_COMPLETE: &'static str = "setup complete, have fun";

/// Said on leaving.
pub const BYE: &'static str = "see ya";

/// Asks for the description of the recurring income.
pub const SETUP_DESCRIPTION: &'static str = "enter description for regular income";

/// Asks for the amount of the recurring income.
pub const SETUP_INCOME: &'static str = "enter regular income";

/// Asks for the overdraft limit.
pub const SETUP_OVERDRAFT: &'static str = "enter overdraft";

/// The banner shown when the program starts.
pub fn banner() -> (text: String)
    ensures
        text@ == BANNER@,
{
    String::from_str(BANNER)
}

/// The list of commands.
pub fn info() -> (text: String)
    ensures
        text@ == INFO@,
{
    String::from_str(INFO)
}

/// The long help text.
pub fn help() -> (text: String)
    ensures
        text@ == HELP@,
{
    String::from_str(HELP)
}

/// Said before the database is created.
pub fn setup_pre_database() -> (text: String)
    ensures
        text@ == SETUP_PRE_DATABASE@,
{
    String::from_str(SETUP_PRE_DATABASE)
}

/// Said once the database is created, before the settings are asked for.
pub fn setup_post_database() -> (text: String)
    ensures
        text@ == SETUP_POST_DATABASE@,
{
    String::from_str(SETUP_POST_DATABASE)
}

/// Said of an amount that is zero or no number.
pub fn error_zero_or_invalid_amount() -> (text: String)
    ensures
        text@ == ERROR_ZERO_OR_INVALID_AMOUNT@,
{
    String::from_str(ERROR_ZERO_OR_INVALID_AMOUNT)
}

/// Said of a negative amount.
pub fn error_negative_amount() -> (text: String)
    ensures
        text@ == ERROR_NEGATIVE_AMOUNT@,
{
    String::from_str(ERROR_NEGATIVE_AMOUNT)
}

/// Said once an income is recorded.
pub fn income_booked() -> (text: String)
    ensures
        text@ == INCOME_BOOKED@,
{
    String::from_str(INCOME_BOOKED)
}

/// Said once an expense is recorded.
pub fn expense_booked() -> (text: String)
    ensures
        text@ == EXPENSE_BOOKED@,
{
    String::from_str(EXPENSE_BOOKED)
}

/// Said of an expense that the overdraft limit refuses.
pub fn error_too_expensive() -> (text: String)
    ensures
        text@ == ERROR_TOO_EXPENSIVE@,
{
    String::from_str(ERROR_TOO_EXPENSIVE)
}

/// Said of text that follows a `+` or `-`.
pub fn error_omg() -> (text: String)
    ensures
        text@ == ERROR_OMG@,
{
    String::from_str(ERROR_OMG)
}

/// The prompt for a command.
pub fn enter_input() -> (text: String)
    ensures
        text@ == ENTER_INPUT@,
{
    String::from_str(ENTER_INPUT)
}

/// The prompt for a description.
pub fn enter_description() -> (text: String)
    ensures
        text@ == ENTER_DESCRIPTION@,
{
    String::from_str(ENTER_DESCRIPTION)
}

/// The prompt for an amount.
pub fn enter_amount() -> (text: String)
    ensures
        text@ == ENTER_AMOUNT@,
{
    String::from_str(ENTER_AMOUNT)
}

/// Said once the ledger is set up.
pub fn setup_complete() -> (text: String)
    ensures
        text@ == SETUP_COMPLETE@,
{
    String::from_str(SETUP_COMPLETE)
}

/// Said on leaving.
pub fn bye() -> (text: String)
    ensures
        text@ == BYE@,
{
    String::from_str(BYE)
}

/// Asks for the description of the recurring income.
pub fn setup_description() -> (text: String)
    ensures
        text@ == SETUP_DESCRIPTION@,
{
    String::from_str(SETUP_DESCRIPTION)
}

/// Asks for the amount of the recurring income.
pub fn setup_income() -> (text: String)
    ensures
        text@ == SETUP_INCOME@,
{
    String::from_str(SETUP_INCOME)
}

/// Asks for the overdraft limit.
pub fn setup_overdraft() -> (text: String)
    ensures
        text@ == SETUP_OVERDRAFT@,
{
    String::from_str(SETUP_OVERDRAFT)
}

/// What stands before the balance in the line that reports it.
pub const BALANCE_PREFIX: &'static str = "\n<TAB>current balance: ";

/// What stands between the balance and the list of transactions.
pub const TRANSACTIONS_HEADING: &'static str =
    "\n<TAB>last transactions (up to 30)\n<TAB>----------------------------\n";

/// The line that reports the balance, as mathematics sees it.
pub open spec fn balance_line(balance: int) -> Seq<char> {
    BALANCE_PREFIX@ + amount_text(balance) + seq!['\n']
}

/// The line that reports the balance.
pub fn current_balance(balance: i64) -> (text: String)
    ensures
        text@ == balance_line(balance as int),
{
    let mut text = String::from_str(BALANCE_PREFIX);
    let amount = format_amount(balance);
    text.append(amount.as_str());
    text.append("\n");
    proof {
        reveal_strlit("\n");
        assert("\n"@ =~= seq!['\n']);
    }
    text
}

/// The balance followed by the list of the last transactions.
pub fn formatted_balance(balance: i64, formatted_last_transactions: &str) -> (text: String)
    ensures
        text@ == balance_line(balance as int) + TRANSACTIONS_HEADING@
            + formatted_last_transactions@ + seq!['\n'],
{
    let mut text = current_balance(balance);
    text.append(TRANSACTIONS_HEADING);
    text.append(formatted_last_transactions);
    text.append("\n");
    proof {
        reveal_strlit("\n");
        assert("\n"@ =~= seq!['\n']);
    }
    text
}

/// What stands between the question and the standard value in a prompt.
pub const DEFAULT_OPENS: &'static str = " [default: ";

/// What closes a prompt.
pub const DEFAULT_CLOSES: &'static str = "] > ";

/// The prompt for a setting: the question, and the value that stands
/// where the user enters nothing.
pub fn setup_template(description: &str, standard: &str) -> (text: String)
    ensures
        text@ == description@ + DEFAULT_OPENS@ + standard@ + DEFAULT_CLOSES@,
{
    let mut text = String::from_str(description);
    text.append(DEFAULT_OPENS);
    text.append(standard);
    text.append(DEFAULT_CLOSES);
    text
}

/// What the wallet says once the user has entered an income or an expense
/// with `amount` typed as the amount, and the engine has answered `failure`,
/// or nothing where the entry was written. An amount that was refused is
/// called negative where a minus sign stands before it and some digit of
/// it is not zero. A fault of the store has no text.
pub open spec fn reply_text(income: bool, amount: Seq<char>, failure: Option<Failure>) -> Option<
    Seq<char>,
> {
    match failure {
        None => Some(
            if income {
                INCOME_BOOKED@
            } else {
                EXPENSE_BOOKED@
            },
        ),
        Some(Failure::OverLimit) => Some(ERROR_TOO_EXPENSIVE@),
        Some(Failure::InvalidAmount) => Some(
            if typed_of(amount) matches Some(number) && is_negative(number) {
                ERROR_NEGATIVE_AMOUNT@
            } else {
                ERROR_ZERO_OR_INVALID_AMOUNT@
            },
        ),
        Some(_) => None,
    }
}

/// What the wallet says to the answer of the engine.
pub fn reply(income: bool, amount: &str, outcome: &Result<(), LedgerError>) -> (text: Option<
    String,
>)
    ensures
        match text {
            Some(said) => reply_text(income, amount@, failure_of(*outcome)) == Some(said@),
            None => reply_text(income, amount@, failure_of(*outcome)) is None,
        },
{
    match outcome {
        Ok(_) => Some(
            if income {
                income_booked()
            } else {
                expense_booked()
            },
        ),
        Err(LedgerError::OverLimit) => Some(error_too_expensive()),
        Err(LedgerError::InvalidAmount) => {
            let negative = match read_amount(amount) {
                Some(typed) => {
                    proof {
                        lemma_capped(typed_of(amount@).unwrap(), 0);
                    }
                    typed.is_negative()
                },
                None => false,
            };
            Some(
                if negative {
                    error_negative_amount()
                } else {
                    error_zero_or_invalid_amount()
                },
            )
        },
        Err(_) => None,
    }
}

} // verus!
