//! Calendar months, counted on one line, and the token that names a month
//! in the description of a recurring income.

use vstd::prelude::*;
use crate::text::{
    all_digits, decimal, digit_char, digit_of, digit_value, digits, ends_with, has_suffix, is_digit,
    lemma_digits_number, lemma_number_grows, number, push_decimal, push_digits,
};

verus! {

/// The place of a month on the line of all months: one more for each month
/// that passes, with January of the year 0 at 0.
pub open spec fn month_number(month: int, year: int) -> int {
    year * 12 + (month - 1)
}

/// The month, from 1 to 12, at place `k`.
pub open spec fn month_of(k: int) -> int {
    k % 12 + 1
}

/// The year of the month at place `k`.
pub open spec fn year_of(k: int) -> int {
    k / 12
}

/// A number in decimal, with a zero before a single digit.
pub open spec fn two_digits(n: nat) -> Seq<char> {
    if n < 10 {
        seq!['0'] + digits(n)
    } else {
        digits(n)
    }
}

/// The token `MM/YYYY` of a month: the month in two digits, a slash, the
/// year in decimal.
pub open spec fn month_token(month: nat, year: int) -> Seq<char> {
    two_digits(month) + seq!['/'] + decimal(year)
}

/// The description of the recurring income of a month: the configured
/// description, a space, the month's token.
pub open spec fn auto_income_description(income_description: Seq<char>, month: nat, year: int)
    -> Seq<char> {
    income_description + seq![' '] + month_token(month, year)
}

/// Every month has its place, and the place gives the month back.
pub proof fn lemma_month_number_inverse(month: int, year: int)
    requires
        1 <= month <= 12,
    ensures
        month_of(month_number(month, year)) == month,
        year_of(month_number(month, year)) == year,
{
}

/// The place of a month on the line of months.
pub fn month_index(month: u32, year: i32) -> (k: i64)
    requires
        1 <= month <= 12,
    ensures
        k == month_number(month as int, year as int),
{
    (year as i64) * 12 + (month as i64 - 1)
}

/// The month before the given one: December of the year before follows
/// January.
pub fn previous_month(month: u32, year: i32) -> (previous: (u32, i32))
    requires
        1 <= month <= 12,
        month == 1 ==> year > i32::MIN,
    ensures
        1 <= previous.0 <= 12,
        month_number(previous.0 as int, previous.1 as int) == month_number(
            month as int,
            year as int,
        ) - 1,
{
    if month > 1 {
        (month - 1, year)
    } else {
        (12, year - 1)
    }
}

/// Writes the token of a month.
pub fn token_chars(month: u32, year: i32) -> (token: Vec<char>)
    ensures
        token@ == month_token(month as nat, year as int),
{
    let mut token: Vec<char> = Vec::new();
    if month < 10 {
        token.push('0');
    }
    push_digits(&mut token, month as u64);
    token.push('/');
    push_decimal(&mut token, year as i64);
    proof {
        assert(token@ =~= month_token(month as nat, year as int));
    }
    token
}

/// The magnitude of a year.
pub open spec fn magnitude(year: int) -> nat {
    if year < 0 {
        (-year) as nat
    } else {
        year as nat
    }
}

/// The parts of a text that ends in the token of a month, where `slash` is
/// the place of the last slash of the text: the two digits of the month
/// before the slash, and behind it the sign and the digits of the year.
proof fn lemma_token_parts(text: Seq<char>, slash: int, month: nat, year: int)
    requires
        1 <= month <= 12,
        ends_with(text, month_token(month, year)),
        0 <= slash < text.len(),
        text[slash] == '/',
        forall|j: int| slash < j < text.len() ==> text[j] != '/',
    ensures
        slash >= 2,
        is_digit(text[slash - 2]),
        is_digit(text[slash - 1]),
        10 * digit_value(text[slash - 2]) + digit_value(text[slash - 1]) == month,
        slash + 1 < text.len(),
        (text[slash + 1] == '-') == (year < 0),
        text.subrange(slash + 1 + (if year < 0 { 1int } else { 0int }), text.len() as int)
            == digits(magnitude(year)),
        all_digits(digits(magnitude(year))),
        number(digits(magnitude(year))) == magnitude(year),
{
    let token = month_token(month, year);
    let start = text.len() - token.len();
    let written = digits(magnitude(year));
    lemma_digits_number(magnitude(year));
    lemma_digits_number(month);
    lemma_digits_number(month / 10);
    assert(two_digits(month).len() == 2);
    assert forall|j: int| 0 <= j < token.len() implies #[trigger] text[start + j] == token[j] by {
        assert(text.subrange(start, text.len() as int)[j] == text[start + j]);
    }
    assert(token[2] == '/');
    assert forall|j: int| 3 <= j < token.len() implies token[j] != '/' by {
        if year < 0 {
            if j > 3 {
                assert(token[j] == written[j - 4]);
                assert(is_digit(written[j - 4]));
            }
        } else {
            assert(token[j] == written[j - 3]);
            assert(is_digit(written[j - 3]));
        }
    }
    // The last slash of the text is the slash of the token.
    assert(slash == start + 2) by {
        assert(text[start + 2] == token[2]);
        if slash > start + 2 {
            assert(text[slash] == token[slash - start]);
        }
    }
    assert(text[slash - 2] == token[0]);
    assert(text[slash - 1] == token[1]);
    assert(text[slash + 1] == token[3]);
    if month < 10 {
        assert(token[0] == '0');
        assert(token[1] == digit_char(month as int));
    } else {
        assert(token[0] == digit_char((month / 10) as int));
        assert(token[1] == digit_char((month % 10) as int));
    }
    if year < 0 {
        assert(token[3] == '-');
        let tail = text.subrange(slash + 2, text.len() as int);
        assert(tail.len() == written.len());
        assert forall|j: int| 0 <= j < written.len() implies tail[j] == written[j] by {
            assert(text[start + (4 + j)] == token[4 + j]);
        }
        assert(tail =~= written);
    } else {
        assert(token[3] == written[0]);
        assert(is_digit(written[0]));
        let tail = text.subrange(slash + 1, text.len() as int);
        assert(tail.len() == written.len());
        assert forall|j: int| 0 <= j < written.len() implies tail[j] == written[j] by {
            assert(text[start + (3 + j)] == token[3 + j]);
        }
        assert(tail =~= written);
    }
}

/// The slash of a month's token is the last slash of a text that ends in
/// the token.
proof fn lemma_token_slash(text: Seq<char>, month: nat, year: int)
    requires
        1 <= month <= 12,
        ends_with(text, month_token(month, year)),
    ensures
        0 <= text.len() - decimal(year).len() - 1 < text.len(),
        text[text.len() - decimal(year).len() - 1] == '/',
        forall|j: int| text.len() - decimal(year).len() - 1 < j < text.len() ==> text[j] != '/',
{
    let token = month_token(month, year);
    let start = text.len() - token.len();
    let written = digits(magnitude(year));
    lemma_digits_number(magnitude(year));
    lemma_digits_number(month);
    lemma_digits_number(month / 10);
    assert(two_digits(month).len() == 2);
    assert forall|j: int| 0 <= j < token.len() implies #[trigger] text[start + j] == token[j] by {
        assert(text.subrange(start, text.len() as int)[j] == text[start + j]);
    }
    assert(text[start + 2] == token[2]);
    assert forall|j: int| start + 2 < j < text.len() implies text[j] != '/' by {
        let at = j - start;
        assert(text[start + at] == token[at]);
        if year < 0 {
            if at > 3 {
                assert(token[at] == written[at - 4]);
                assert(is_digit(written[at - 4]));
            }
        } else {
            assert(token[at] == written[at - 3]);
            assert(is_digit(written[at - 3]));
        }
    }
}

/// A text ends in the token of one month at most.
pub proof fn lemma_token_unique(text: Seq<char>, month: nat, year: int, other_month: nat, other_year: int)
    requires
        1 <= month <= 12,
        1 <= other_month <= 12,
        ends_with(text, month_token(month, year)),
        ends_with(text, month_token(other_month, other_year)),
    ensures
        month == other_month,
        year == other_year,
{
    lemma_token_slash(text, month, year);
    lemma_token_slash(text, other_month, other_year);
    let slash = text.len() - decimal(year).len() - 1;
    let other_slash = text.len() - decimal(other_year).len() - 1;
    assert(slash == other_slash) by {
        if slash < other_slash {
            assert(text[other_slash] == '/');
        } else if other_slash < slash {
            assert(text[slash] == '/');
        }
    }
    lemma_token_parts(text, slash, month, year);
    lemma_token_parts(text, slash, other_month, other_year);
}

/// The month whose token `text` ends in, if it ends in the token of a month
/// from 1 to 12 of a year that fits in an `i32`. A text ends in the token
/// of at most one such month.
pub fn named_month(text: &Vec<char>) -> (named: Option<(u32, i32)>)
    ensures
        named matches Some((m, y)) ==> 1 <= m <= 12 && ends_with(
            text@,
            month_token(m as nat, y as int),
        ),
        forall|month: nat, year: int|
            1 <= month <= 12 && i32::MIN <= year <= i32::MAX && ends_with(
                text@,
                #[trigger] month_token(month, year),
            ) ==> named == Some((month as u32, year as i32)),
{
    let n = text.len();
    // The last slash.
    let mut p: usize = n;
    while p > 0 && text[p - 1] != '/'
        invariant
            p <= n,
            n == text.len(),
            forall|j: int| p <= j < n ==> text@[j] != '/',
        decreases p,
    {
        p = p - 1;
    }
    if p == 0 {
        assert forall|month: nat, year: int|
            1 <= month <= 12 && i32::MIN <= year <= i32::MAX implies !ends_with(
            text@,
            #[trigger] month_token(month, year),
        ) by {
            let token = month_token(month, year);
            if ends_with(text@, token) {
                let start = text@.len() - token.len();
                assert(two_digits(month).len() >= 1);
                assert(token[two_digits(month).len() as int] == '/');
                assert(text@.subrange(start, text@.len() as int)[two_digits(month).len() as int]
                    == text@[start + two_digits(month).len()]);
            }
        }
        return None;
    }
    let slash: usize = p - 1;
    if slash < 2 || slash + 1 >= n {
        assert forall|month: nat, year: int|
            1 <= month <= 12 && i32::MIN <= year <= i32::MAX implies !ends_with(
            text@,
            #[trigger] month_token(month, year),
        ) by {
            if ends_with(text@, month_token(month, year)) {
                lemma_token_parts(text@, slash as int, month, year);
            }
        }
        return None;
    }
    // The year.
    let negative = text[slash + 1] == '-';
    let first: usize = if negative {
        slash + 2
    } else {
        slash + 1
    };
    let mut value: i64 = 0;
    let mut i: usize = first;
    while i < n
        invariant
            n == text.len(),
            2 <= slash < first <= i <= n,
            first == slash + 1 + (if negative { 1int } else { 0int }),
            negative == (text@[slash + 1] == '-'),
            text@[slash as int] == '/',
            forall|j: int| slash < j < n ==> text@[j] != '/',
            value == number(text@.subrange(first as int, i as int)),
            0 <= value <= 0x8000_0000,
        decreases n - i,
    {
        let ghost seen = text@.subrange(first as int, i as int);
        let ghost longer = text@.subrange(first as int, i + 1);
        match digit_of(text[i]) {
            Some(d) => {
                proof {
                    assert(longer.drop_last() =~= seen);
                    assert(longer.last() == text@[i as int]);
                }
                value = value * 10 + d as i64;
                i = i + 1;
                if value > 0x8000_0000 {
                    assert forall|month: nat, year: int|
                        1 <= month <= 12 && i32::MIN <= year <= i32::MAX implies !ends_with(
                        text@,
                        #[trigger] month_token(month, year),
                    ) by {
                        if ends_with(text@, month_token(month, year)) {
                            lemma_token_parts(text@, slash as int, month, year);
                            let written = digits(magnitude(year));
                            assert(written.take(i - first) =~= longer);
                            lemma_number_grows(written, i - first);
                        }
                    }
                    return None;
                }
            },
            None => {
                assert forall|month: nat, year: int|
                    1 <= month <= 12 && i32::MIN <= year <= i32::MAX implies !ends_with(
                    text@,
                    #[trigger] month_token(month, year),
                ) by {
                    if ends_with(text@, month_token(month, year)) {
                        lemma_token_parts(text@, slash as int, month, year);
                        let written = digits(magnitude(year));
                        assert(written[i - first] == text@[i as int]);
                    }
                }
                return None;
            },
        }
    }
    let year: i64 = if negative {
        -value
    } else {
        value
    };
    let first_digit = digit_of(text[slash - 2]);
    let second_digit = digit_of(text[slash - 1]);
    let month: u32 = match (first_digit, second_digit) {
        (Some(a), Some(b)) => a as u32 * 10 + b as u32,
        _ => 0,
    };
    if first >= n || year < i32::MIN as i64 || year > i32::MAX as i64 || month < 1 || month > 12 {
        assert forall|m: nat, y: int|
            1 <= m <= 12 && i32::MIN <= y <= i32::MAX implies !ends_with(
            text@,
            #[trigger] month_token(m, y),
        ) by {
            if ends_with(text@, month_token(m, y)) {
                lemma_token_parts(text@, slash as int, m, y);
                assert(text@.subrange(first as int, n as int) == digits(magnitude(y)));
            }
        }
        return None;
    }
    let token = token_chars(month, year as i32);
    let found = has_suffix(text, &token);
    proof {
        assert forall|m: nat, y: int|
            1 <= m <= 12 && i32::MIN <= y <= i32::MAX && ends_with(
                text@,
                #[trigger] month_token(m, y),
            ) implies m == month && y == year by {
            lemma_token_parts(text@, slash as int, m, y);
            assert(text@.subrange(first as int, n as int) == digits(magnitude(y)));
        }
    }
    if found {
        Some((month, year as i32))
    } else {
        None
    }
}

} // verus!
