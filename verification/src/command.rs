//! The commands of the wallet, each one key.

use vstd::prelude::*;
use vstd::string::*;

verus! {

/// What the user asks of the wallet with one line of input.
#[derive(Debug, Clone, Copy, PartialEq, Eq)]
pub enum Command {
    /// `+`: book an irregular income.
    Add,
    /// `-`: book an expense.
    Sub,
    /// `=`: show the balance and the last transactions.
    Show,
    /// `?`: show the long help text.
    Help,
    /// `:`: leave.
    Quit,
    /// Anything else: show the list of commands.
    Info,
    /// A `+` or `-` followed by more text on the same line.
    Omg,
}

/// The command that a line of input stands for.
pub open spec fn command_of(input: Seq<char>) -> Command {
    if input.len() == 1 {
        if input[0] == '+' {
            Command::Add
        } else if input[0] == '-' {
            Command::Sub
        } else if input[0] == '=' {
            Command::Show
        } else if input[0] == '?' {
            Command::Help
        } else if input[0] == ':' {
            Command::Quit
        } else {
            Command::Info
        }
    } else if input.len() > 1 && (input[0] == '+' || input[0] == '-') {
        Command::Omg
    } else {
        Command::Info
    }
}

impl Command {
    /// Reads a line of input as a command.
    pub fn parse(input: &str) -> (command: Command)
        ensures
            command == command_of(input@),
    {
        let n = input.unicode_len();
        if n == 0 {
            return Command::Info;
        }
        let first = input.get_char(0);
        if n == 1 {
            if first == '+' {
                Command::Add
            } else if first == '-' {
                Command::Sub
            } else if first == '=' {
                Command::Show
            } else if first == '?' {
                Command::Help
            } else if first == ':' {
                Command::Quit
            } else {
                Command::Info
            }
        } else if first == '+' || first == '-' {
            Command::Omg
        } else {
            Command::Info
        }
    }
}

} // verus!
