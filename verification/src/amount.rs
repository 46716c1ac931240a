//! Amounts as text. A decimal number is read as it was typed, sign, digits
//! and exponent, so that rules can be held against the very number; what
//! is written of it is its hundredths, rounded half away from zero.
//! Hundredths are written out with two digits behind the point.

use vstd::prelude::*;
use vstd::string::*;
use crate::period::two_digits;
use crate::text::{
    all_digits, chars_of, digit_char, digit_of, digit_value, digits, is_digit, lemma_digits_number,
    lemma_number_grows, number, push_digits, text_of,
};

verus! {

/// Whether `text` begins with a sign.
pub open spec fn has_sign(text: Seq<char>) -> bool {
    text.len() > 0 && (text[0] == '-' || text[0] == '+')
}

/// The text behind the sign, if there is one.
pub open spec fn unsigned_part(text: Seq<char>) -> Seq<char> {
    if has_sign(text) {
        text.subrange(1, text.len() as int)
    } else {
        text
    }
}

/// How many characters of `s` stand before the first `a` or `b`.
pub open spec fn first_place(s: Seq<char>, a: char, b: char) -> int
    decreases s.len(),
{
    if s.len() == 0 || s[0] == a || s[0] == b {
        0
    } else {
        1 + first_place(s.drop_first(), a, b)
    }
}

/// How many characters stand before the mark of the exponent, an `e` or an
/// `E`.
pub open spec fn mark_place(body: Seq<char>) -> int {
    first_place(body, 'e', 'E')
}

/// What stands before the mark of the exponent: the digits and the point.
pub open spec fn mantissa_part(body: Seq<char>) -> Seq<char> {
    body.subrange(0, mark_place(body))
}

/// What stands behind the mark of the exponent, if there is a mark.
pub open spec fn exponent_part(body: Seq<char>) -> Option<Seq<char>> {
    if mark_place(body) < body.len() {
        Some(body.subrange(mark_place(body) + 1, body.len() as int))
    } else {
        None
    }
}

/// How many characters stand before the first point of `mantissa`.
pub open spec fn whole_length(mantissa: Seq<char>) -> int {
    first_place(mantissa, '.', '.')
}

/// The digits before the point.
pub open spec fn whole_part(mantissa: Seq<char>) -> Seq<char> {
    mantissa.subrange(0, whole_length(mantissa))
}

/// The digits behind the point; none where there is no point.
pub open spec fn fraction_part(mantissa: Seq<char>) -> Seq<char> {
    if whole_length(mantissa) < mantissa.len() {
        mantissa.subrange(whole_length(mantissa) + 1, mantissa.len() as int)
    } else {
        Seq::empty()
    }
}

/// Whether `mantissa` is digits, and optionally a point and more digits,
/// with a digit on at least one side.
pub open spec fn is_mantissa(mantissa: Seq<char>) -> bool {
    &&& all_digits(whole_part(mantissa))
    &&& all_digits(fraction_part(mantissa))
    &&& whole_part(mantissa).len() + fraction_part(mantissa).len() > 0
}

/// Whether `exponent` is an optional sign and at least one digit.
pub open spec fn is_exponent(exponent: Seq<char>) -> bool {
    all_digits(unsigned_part(exponent)) && unsigned_part(exponent).len() > 0
}

/// The number that an exponent writes.
pub open spec fn exponent_value(exponent: Seq<char>) -> int {
    if exponent.len() > 0 && exponent[0] == '-' {
        -number(unsigned_part(exponent))
    } else {
        number(unsigned_part(exponent))
    }
}

/// Whether `text` writes a decimal number: an optional sign; digits, and
/// optionally a point and more digits, with a digit on at least one side;
/// and optionally an exponent, which is `e` or `E`, an optional sign and
/// digits.
pub open spec fn is_decimal_number(text: Seq<char>) -> bool {
    let body = unsigned_part(text);
    &&& is_mantissa(mantissa_part(body))
    &&& match exponent_part(body) {
        Some(exponent) => is_exponent(exponent),
        None => true,
    }
}

/// The exponent of a decimal number; 0 where none is written.
pub open spec fn exponent_of(text: Seq<char>) -> int {
    match exponent_part(unsigned_part(text)) {
        Some(exponent) => exponent_value(exponent),
        None => 0,
    }
}

/// As many zeros as `k` says; none where `k` is not positive.
pub open spec fn zeros(k: int) -> Seq<char> {
    Seq::new(
        if k > 0 {
            k as nat
        } else {
            0
        },
        |i: int| '0',
    )
}

/// The digits that stand before the point once it is moved `exponent`
/// places to the right (to the left, where `exponent` is negative).
pub open spec fn shifted_whole(whole: Seq<char>, fraction: Seq<char>, exponent: int) -> Seq<char> {
    let all = whole + fraction;
    let point = whole.len() + exponent;
    if point <= 0 {
        Seq::empty()
    } else if point >= all.len() {
        all + zeros(point - all.len())
    } else {
        all.subrange(0, point)
    }
}

/// The digits that stand behind the point once it is moved `exponent`
/// places to the right.
pub open spec fn shifted_fraction(whole: Seq<char>, fraction: Seq<char>, exponent: int) -> Seq<
    char,
> {
    let all = whole + fraction;
    let point = whole.len() + exponent;
    if point <= 0 {
        zeros(-point) + all
    } else if point >= all.len() {
        Seq::empty()
    } else {
        all.subrange(point, all.len() as int)
    }
}

/// A decimal number as it was typed, seen from its hundredths: the number
/// is `cut` hundredths and, where `more` holds, a part of a hundredth on
/// top of them.
pub struct Typed {
    /// Whether a minus sign stands before the number.
    pub negative: bool,
    /// The magnitude in hundredths, with the digits behind the second one
    /// after the point cut off.
    pub cut: int,
    /// Whether one of the digits that were cut off is not zero.
    pub more: bool,
    /// Whether the first of the digits that were cut off is 5 or above.
    pub round_up: bool,
}

/// The hundredths that the first two digits behind the point stand for.
pub open spec fn first_two(fraction: Seq<char>) -> int {
    (if fraction.len() > 0 {
        digit_value(fraction[0]) * 10
    } else {
        0
    }) + (if fraction.len() > 1 {
        digit_value(fraction[1])
    } else {
        0
    })
}

/// Whether a digit behind the second one after the point is not zero.
pub open spec fn has_more(fraction: Seq<char>) -> bool {
    exists|i: int| 2 <= i < fraction.len() && #[trigger] fraction[i] != '0'
}

/// Whether the third digit behind the point is 5 or above.
pub open spec fn rounds_up(fraction: Seq<char>) -> bool {
    fraction.len() > 2 && digit_value(fraction[2]) >= 5
}

/// The number that a sign, the digits before the point and the digits
/// behind it write.
pub open spec fn typed_from(negative: bool, whole: Seq<char>, fraction: Seq<char>) -> Typed {
    Typed {
        negative,
        cut: number(whole) * 100 + first_two(fraction),
        more: has_more(fraction),
        round_up: rounds_up(fraction),
    }
}

/// The number that `text` writes, if it writes a decimal number.
pub open spec fn typed_of(text: Seq<char>) -> Option<Typed> {
    if is_decimal_number(text) {
        let mantissa = mantissa_part(unsigned_part(text));
        let whole = whole_part(mantissa);
        let fraction = fraction_part(mantissa);
        let exponent = exponent_of(text);
        Some(
            typed_from(
                text.len() > 0 && text[0] == '-',
                shifted_whole(whole, fraction, exponent),
                shifted_fraction(whole, fraction, exponent),
            ),
        )
    } else {
        None
    }
}

/// What holds of every number that a text writes: its magnitude is not
/// negative, and where it rounds up, something was cut off.
pub open spec fn well_typed(typed: Typed) -> bool {
    typed.cut >= 0 && (typed.round_up ==> typed.more)
}

/// The number of whole hundredths `amount`, as if typed.
pub open spec fn typed_hundredths(amount: int) -> Typed {
    Typed {
        negative: amount < 0,
        cut: if amount < 0 {
            -amount
        } else {
            amount
        },
        more: false,
        round_up: false,
    }
}

/// Whether the number is zero: every digit of it is.
pub open spec fn is_zero(typed: Typed) -> bool {
    typed.cut == 0 && !typed.more
}

/// Whether the number is greater than zero: no minus sign stands before
/// it, and some digit of it is not zero.
pub open spec fn is_positive(typed: Typed) -> bool {
    !typed.negative && !is_zero(typed)
}

/// Whether the number is less than zero.
pub open spec fn is_negative(typed: Typed) -> bool {
    typed.negative && !is_zero(typed)
}

/// Whether the magnitude of the number is greater than `limit` hundredths:
/// the hundredths cut off exceed the limit, or they equal it and more
/// stands on top of them.
pub open spec fn exceeds(typed: Typed, limit: int) -> bool {
    typed.cut > limit || (typed.cut == limit && typed.more)
}

/// The number in hundredths, rounded half away from zero.
pub open spec fn rounded(typed: Typed) -> int {
    let magnitude = typed.cut + if typed.round_up {
        1int
    } else {
        0int
    };
    if typed.negative {
        -magnitude
    } else {
        magnitude
    }
}

/// The amount that `text` stands for, if it writes a decimal number whose
/// rounded hundredths fit in an `i64`.
pub open spec fn amount_of(text: Seq<char>) -> Option<int> {
    match typed_of(text) {
        Some(typed) => if i64::MIN <= rounded(typed) <= i64::MAX {
            Some(rounded(typed))
        } else {
            None
        },
        None => None,
    }
}

/// The greatest magnitude, in hundredths, that a reading keeps as it is.
pub open spec fn cap() -> int {
    0x1_0000_0000_0000_0000int * 100 + 99
}

/// The number with a magnitude beyond the cap replaced by one just beyond
/// it. No rule of the ledger tells the two apart: see `lemma_capped`.
pub open spec fn capped(typed: Typed) -> Typed {
    Typed {
        negative: typed.negative,
        cut: if typed.cut > cap() {
            cap() + 1
        } else {
            typed.cut
        },
        more: typed.more,
        round_up: typed.round_up,
    }
}

/// An amount as text: the sign of a negative one, the whole units, a point,
/// and the hundredths in two digits.
pub open spec fn amount_text(amount: int) -> Seq<char> {
    let magnitude = if amount < 0 {
        -amount
    } else {
        amount
    };
    (if amount < 0 {
        seq!['-']
    } else {
        Seq::<char>::empty()
    }) + digits((magnitude / 100) as nat) + seq!['.'] + two_digits((magnitude % 100) as nat)
}

/// Where neither `a` nor `b` stands before place `d`, and one of them
/// stands there or the text ends there, `d` characters stand before the
/// first of them.
proof fn lemma_first_place(s: Seq<char>, a: char, b: char, d: int)
    requires
        0 <= d <= s.len(),
        forall|j: int| 0 <= j < d ==> s[j] != a && s[j] != b,
        d < s.len() ==> s[d] == a || s[d] == b,
    ensures
        first_place(s, a, b) == d,
    decreases d,
{
    if d > 0 {
        let rest = s.drop_first();
        assert(forall|j: int| 0 <= j < d - 1 ==> rest[j] == s[j + 1]);
        lemma_first_place(rest, a, b, d - 1);
    }
}

/// The first two digits behind the point stand for less than a hundred
/// hundredths.
proof fn lemma_first_two_range(fraction: Seq<char>)
    requires
        all_digits(fraction),
    ensures
        0 <= first_two(fraction) <= 99,
{
    if fraction.len() > 0 {
        assert(is_digit(fraction[0]));
    }
    if fraction.len() > 1 {
        assert(is_digit(fraction[1]));
    }
}

/// An exponent of 0 leaves the digits where they stand.
proof fn lemma_no_shift(whole: Seq<char>, fraction: Seq<char>)
    ensures
        shifted_whole(whole, fraction, 0) == whole,
        shifted_fraction(whole, fraction, 0) == fraction,
{
    assert(shifted_whole(whole, fraction, 0) =~= whole);
    assert(shifted_fraction(whole, fraction, 0) =~= fraction);
}

/// However the point is moved, digits stand on both sides of it.
proof fn lemma_shifted_digits(whole: Seq<char>, fraction: Seq<char>, exponent: int)
    requires
        all_digits(whole),
        all_digits(fraction),
    ensures
        all_digits(shifted_whole(whole, fraction, exponent)),
        all_digits(shifted_fraction(whole, fraction, exponent)),
{
    let all = whole + fraction;
    assert forall|i: int| 0 <= i < all.len() implies is_digit(#[trigger] all[i]) by {
        if i < whole.len() {
            assert(all[i] == whole[i]);
        } else {
            assert(all[i] == fraction[i - whole.len()]);
        }
    }
    let left = shifted_whole(whole, fraction, exponent);
    let right = shifted_fraction(whole, fraction, exponent);
    let point = whole.len() + exponent;
    assert forall|i: int| 0 <= i < left.len() implies is_digit(#[trigger] left[i]) by {
        if i < all.len() {
            assert(left[i] == all[i]);
        }
    }
    assert forall|i: int| 0 <= i < right.len() implies is_digit(#[trigger] right[i]) by {
        if point <= 0 {
            if i >= -point {
                assert(right[i] == all[i + point]);
            }
        } else {
            assert(right[i] == all[i + point]);
        }
    }
}

/// Whether some character of `s` is not a zero.
pub open spec fn has_nonzero(s: Seq<char>) -> bool {
    exists|i: int| 0 <= i < s.len() && #[trigger] s[i] != '0'
}

/// Digits write zero exactly where each of them is a zero.
proof fn lemma_number_zero(s: Seq<char>)
    requires
        all_digits(s),
    ensures
        has_nonzero(s) ==> number(s) >= 1,
        !has_nonzero(s) ==> number(s) == 0,
    decreases s.len(),
{
    if s.len() > 0 {
        let shorter = s.drop_last();
        lemma_number_zero(shorter);
        lemma_number_grows(s, s.len() - 1);
        assert(s.take(s.len() - 1) =~= shorter);
        assert(is_digit(s.last()));
        if has_nonzero(s) {
            let i = choose|i: int| 0 <= i < s.len() && #[trigger] s[i] != '0';
            if i < s.len() - 1 {
                assert(shorter[i] != '0');
            }
        } else {
            assert(s[s.len() - 1] == '0');
            if has_nonzero(shorter) {
                let i = choose|i: int| 0 <= i < shorter.len() && #[trigger] shorter[i] != '0';
                assert(s[i] != '0');
            }
        }
    }
}

/// Ten to the power of `k`.
pub open spec fn pow10(k: nat) -> int
    decreases k,
{
    if k == 0 {
        1
    } else {
        10 * pow10((k - 1) as nat)
    }
}

/// Zeros behind digits multiply their number by ten for each zero.
proof fn lemma_number_with_zeros(s: Seq<char>, k: nat)
    ensures
        number(s + zeros(k as int)) == number(s) * pow10(k),
    decreases k,
{
    if k == 0 {
        assert(s + zeros(0) =~= s);
    } else {
        let longer = s + zeros(k as int);
        assert(longer.drop_last() =~= s + zeros(k - 1));
        assert(longer.last() == '0');
        lemma_number_with_zeros(s, (k - 1) as nat);
        assert(number(s) * pow10((k - 1) as nat) * 10 == number(s) * pow10(k))
            by (nonlinear_arith)
            requires
                pow10(k) == 10 * pow10((k - 1) as nat),
        ;
    }
}

/// From the twenty-second on, the powers of ten are beyond every amount.
proof fn lemma_pow10_large(k: nat)
    requires
        k >= 22,
    ensures
        pow10(k) >= 10_000_000_000_000_000_000_000,
    decreases k,
{
    if k == 22 {
        reveal_with_fuel(pow10, 23);
    } else {
        lemma_pow10_large((k - 1) as nat);
    }
}

/// Where the point moves twenty-two places or more to the right of all
/// digits, the number is zero or beyond the cap.
proof fn lemma_far_right(negative: bool, whole: Seq<char>, fraction: Seq<char>, exponent: int)
    requires
        all_digits(whole),
        all_digits(fraction),
        exponent >= fraction.len() + 22,
    ensures
        capped(
            typed_from(
                negative,
                shifted_whole(whole, fraction, exponent),
                shifted_fraction(whole, fraction, exponent),
            ),
        ) == (Typed {
            negative,
            cut: if has_nonzero(whole + fraction) {
                cap() + 1
            } else {
                0
            },
            more: false,
            round_up: false,
        }),
{
    let all = whole + fraction;
    let k = (exponent - fraction.len()) as nat;
    lemma_shifted_digits(whole, fraction, 0);
    lemma_no_shift(whole, fraction);
    assert forall|i: int| 0 <= i < all.len() implies is_digit(#[trigger] all[i]) by {
        if i < whole.len() {
            assert(all[i] == whole[i]);
        } else {
            assert(all[i] == fraction[i - whole.len()]);
        }
    }
    lemma_number_zero(all);
    lemma_number_with_zeros(all, k);
    lemma_pow10_large(k);
    assert(shifted_whole(whole, fraction, exponent) == all + zeros(k as int));
    assert(shifted_fraction(whole, fraction, exponent) =~= Seq::<char>::empty());
    if has_nonzero(all) {
        assert(number(all) * pow10(k) >= pow10(k)) by (nonlinear_arith)
            requires
                number(all) >= 1,
                pow10(k) >= 0,
        ;
    } else {
        assert(number(all) * pow10(k) == 0) by (nonlinear_arith)
            requires
                number(all) == 0,
        ;
    }
}

/// Where the point moves three places or more to the left of all digits,
/// nothing of the number reaches the hundredths, and the third digit
/// behind the point is a zero.
proof fn lemma_far_left(negative: bool, whole: Seq<char>, fraction: Seq<char>, exponent: int)
    requires
        whole.len() + exponent <= -3,
    ensures
        typed_from(
            negative,
            shifted_whole(whole, fraction, exponent),
            shifted_fraction(whole, fraction, exponent),
        ) == (Typed {
            negative,
            cut: 0,
            more: has_nonzero(whole + fraction),
            round_up: false,
        }),
{
    let all = whole + fraction;
    let pad = -(whole.len() + exponent);
    let right = shifted_fraction(whole, fraction, exponent);
    assert(shifted_whole(whole, fraction, exponent) =~= Seq::<char>::empty());
    assert(right[0] == '0' && right[1] == '0' && right[2] == '0');
    if has_nonzero(all) {
        let i = choose|i: int| 0 <= i < all.len() && #[trigger] all[i] != '0';
        assert(right[pad + i] == all[i]);
        assert(has_more(right));
    }
    if has_more(right) {
        let i = choose|i: int| 2 <= i < right.len() && #[trigger] right[i] != '0';
        assert(i >= pad);
        assert(all[i - pad] == right[i]);
        assert(has_nonzero(all));
    }
}

/// The number that a text writes is well typed.
pub proof fn lemma_well_typed(text: Seq<char>)
    requires
        is_decimal_number(text),
    ensures
        typed_of(text) matches Some(number) && well_typed(number),
{
    let mantissa = mantissa_part(unsigned_part(text));
    let exponent = exponent_of(text);
    let whole = shifted_whole(whole_part(mantissa), fraction_part(mantissa), exponent);
    let fraction = shifted_fraction(whole_part(mantissa), fraction_part(mantissa), exponent);
    lemma_shifted_digits(whole_part(mantissa), fraction_part(mantissa), exponent);
    lemma_number_grows(whole, 0);
    lemma_first_two_range(fraction);
    if rounds_up(fraction) {
        assert(is_digit(fraction[2]));
        assert(fraction[2] != '0');
    }
}

/// A number beyond the cap and the number that stands for it are alike
/// before every rule of the ledger: in sign, in being zero, in exceeding a
/// limit that is a sum of two amounts, and in what fits in an `i64`.
pub proof fn lemma_capped(typed: Typed, limit: int)
    requires
        limit <= cap(),
    ensures
        is_zero(capped(typed)) == is_zero(typed),
        is_positive(capped(typed)) == is_positive(typed),
        is_negative(capped(typed)) == is_negative(typed),
        exceeds(capped(typed), limit) == exceeds(typed, limit),
        (i64::MIN <= rounded(capped(typed)) <= i64::MAX) == (i64::MIN <= rounded(typed)
            <= i64::MAX),
        i64::MIN <= rounded(typed) <= i64::MAX ==> rounded(capped(typed)) == rounded(typed),
{
}

/// What is written for an amount is read back as that amount, with nothing
/// cut off.
pub proof fn lemma_amount_text_reads_back(amount: int)
    requires
        i64::MIN <= amount <= i64::MAX,
    ensures
        typed_of(amount_text(amount)) == Some(typed_hundredths(amount)),
        amount_of(amount_text(amount)) == Some(amount),
{
    let magnitude = if amount < 0 {
        -amount
    } else {
        amount
    };
    let units = (magnitude / 100) as nat;
    let rest = (magnitude % 100) as nat;
    let whole = digits(units);
    let fraction = two_digits(rest);
    let text = amount_text(amount);
    let body = whole + seq!['.'] + fraction;
    lemma_digits_number(units);
    lemma_digits_number(rest);
    lemma_digits_number(rest / 10);
    assert(is_digit(whole[0]));
    if amount < 0 {
        assert(text[0] == '-');
        assert(unsigned_part(text) =~= body);
    } else {
        assert(text[0] == whole[0]);
        assert(unsigned_part(text) =~= body);
    }
    assert(fraction.len() == 2);
    if rest < 10 {
        assert(fraction[0] == '0');
        assert(fraction[1] == digit_char(rest as int));
    } else {
        assert(fraction[0] == digit_char((rest / 10) as int));
        assert(fraction[1] == digit_char((rest % 10) as int));
    }
    assert(all_digits(fraction));
    assert forall|j: int| 0 <= j < body.len() implies body[j] != 'e' && body[j] != 'E' by {
        if j < whole.len() {
            assert(body[j] == whole[j]);
            assert(is_digit(whole[j]));
        } else if j > whole.len() {
            assert(body[j] == fraction[j - whole.len() - 1]);
            assert(is_digit(fraction[j - whole.len() - 1]));
        }
    }
    lemma_first_place(body, 'e', 'E', body.len() as int);
    assert(mantissa_part(body) =~= body);
    assert forall|j: int| 0 <= j < whole.len() implies body[j] != '.' by {
        assert(body[j] == whole[j]);
        assert(is_digit(whole[j]));
    }
    assert(body[whole.len() as int] == '.');
    lemma_first_place(body, '.', '.', whole.len() as int);
    assert(whole_part(body) =~= whole);
    assert(fraction_part(body) =~= fraction);
    lemma_no_shift(whole, fraction);
    assert(first_two(fraction) == rest);
    assert(!has_more(fraction));
}

/// A decimal number as it was read. A magnitude beyond the cap is kept as
/// one just beyond it.
#[derive(Debug, Clone, Copy, PartialEq, Eq)]
pub struct TypedAmount {
    /// Whether a minus sign stands before the number.
    pub negative: bool,
    /// The magnitude in hundredths, with the digits behind the second one
    /// after the point cut off.
    pub cut: u128,
    /// Whether one of the digits that were cut off is not zero.
    pub more: bool,
    /// Whether the first of the digits that were cut off is 5 or above.
    pub round_up: bool,
}

impl View for TypedAmount {
    type V = Typed;

    open spec fn view(&self) -> Typed {
        Typed {
            negative: self.negative,
            cut: self.cut as int,
            more: self.more,
            round_up: self.round_up,
        }
    }
}

impl TypedAmount {
    /// Whether the number is greater than zero.
    pub fn is_positive(&self) -> (b: bool)
        ensures
            b == is_positive(self@),
    {
        !self.negative && (self.cut > 0 || self.more)
    }

    /// Whether the number is less than zero.
    pub fn is_negative(&self) -> (b: bool)
        ensures
            b == is_negative(self@),
    {
        self.negative && (self.cut > 0 || self.more)
    }

    /// Whether the magnitude of the number is greater than `limit`
    /// hundredths.
    pub fn exceeds(&self, limit: i128) -> (b: bool)
        ensures
            b == exceeds(self@, limit as int),
    {
        if limit < 0 {
            true
        } else {
            let bound: u128 = limit as u128;
            self.cut > bound || (self.cut == bound && self.more)
        }
    }

    /// The number in hundredths, rounded half away from zero, if that fits
    /// in an `i64`.
    pub fn rounded(&self) -> (amount: Option<i64>)
        ensures
            match amount {
                Some(a) => a == rounded(self@),
                None => !(i64::MIN <= rounded(self@) <= i64::MAX),
            },
    {
        if self.cut > 0x8000_0000_0000_0000 {
            return None;
        }
        let magnitude: i128 = self.cut as i128 + if self.round_up {
            1
        } else {
            0
        };
        let value: i128 = if self.negative {
            -magnitude
        } else {
            magnitude
        };
        if value < i64::MIN as i128 || value > i64::MAX as i128 {
            None
        } else {
            Some(value as i64)
        }
    }
}

/// Copies the characters of `chars` from place `from` up to place `to`.
fn copy_range(chars: &Vec<char>, from: usize, to: usize) -> (piece: Vec<char>)
    requires
        from <= to <= chars.len(),
    ensures
        piece@ == chars@.subrange(from as int, to as int),
{
    let mut piece: Vec<char> = Vec::new();
    let mut i: usize = from;
    while i < to
        invariant
            from <= i <= to <= chars.len(),
            piece@ == chars@.subrange(from as int, i as int),
        decreases to - i,
    {
        piece.push(chars[i]);
        proof {
            assert(chars@.subrange(from as int, i + 1) =~= chars@.subrange(
                from as int,
                i as int,
            ).push(chars@[i as int]));
        }
        i = i + 1;
    }
    piece
}

/// Puts the characters of `piece` behind those of `out`.
fn push_all(out: &mut Vec<char>, piece: &Vec<char>)
    ensures
        final(out)@ == old(out)@ + piece@,
{
    let mut i: usize = 0;
    while i < piece.len()
        invariant
            i <= piece.len(),
            out@ == old(out)@ + piece@.take(i as int),
        decreases piece.len() - i,
    {
        out.push(piece[i]);
        proof {
            assert(piece@.take(i + 1) =~= piece@.take(i as int).push(piece@[i as int]));
            assert(out@ =~= old(out)@ + piece@.take(i + 1));
        }
        i = i + 1;
    }
    proof {
        assert(piece@.take(i as int) =~= piece@);
    }
}

/// Puts `k` zeros behind the characters of `out`.
fn push_zeros(out: &mut Vec<char>, k: usize)
    ensures
        final(out)@ == old(out)@ + zeros(k as int),
{
    let mut i: usize = 0;
    while i < k
        invariant
            i <= k,
            out@ == old(out)@ + zeros(i as int),
        decreases k - i,
    {
        out.push('0');
        proof {
            assert(out@ =~= old(out)@ + zeros(i + 1));
        }
        i = i + 1;
    }
}

/// Counts the characters that stand before the first `a` or `b`.
fn first_of(chars: &Vec<char>, a: char, b: char) -> (d: usize)
    ensures
        d == first_place(chars@, a, b),
        d <= chars.len(),
{
    let mut d: usize = 0;
    while d < chars.len() && chars[d] != a && chars[d] != b
        invariant
            d <= chars.len(),
            forall|j: int| 0 <= j < d ==> chars@[j] != a && chars@[j] != b,
        decreases chars.len() - d,
    {
        d = d + 1;
    }
    proof {
        lemma_first_place(chars@, a, b, d as int);
    }
    d
}

/// Decides whether every character is a digit.
fn are_digits(chars: &Vec<char>) -> (b: bool)
    ensures
        b == all_digits(chars@),
{
    let mut i: usize = 0;
    while i < chars.len()
        invariant
            i <= chars.len(),
            forall|j: int| 0 <= j < i ==> is_digit(#[trigger] chars@[j]),
        decreases chars.len() - i,
    {
        if digit_of(chars[i]).is_none() {
            return false;
        }
        i = i + 1;
    }
    true
}

/// Decides whether some character is not a zero.
fn any_nonzero(chars: &Vec<char>) -> (b: bool)
    ensures
        b == has_nonzero(chars@),
{
    let mut i: usize = 0;
    while i < chars.len()
        invariant
            i <= chars.len(),
            forall|j: int| 0 <= j < i ==> #[trigger] chars@[j] == '0',
        decreases chars.len() - i,
    {
        if chars[i] != '0' {
            return true;
        }
        i = i + 1;
    }
    false
}

/// The number that digits write, as far as it stays within `bound`; beyond
/// it, only that it is beyond.
fn bounded_number(digits: &Vec<char>, bound: u128) -> (read: (u128, bool))
    requires
        all_digits(digits@),
        bound <= 0x1_0000_0000_0000_0000_0000_0000_0000,
    ensures
        !read.1 ==> read.0 == number(digits@) && read.0 <= bound,
        read.1 ==> number(digits@) > bound,
{
    let mut value: u128 = 0;
    let mut large: bool = false;
    let mut i: usize = 0;
    while i < digits.len()
        invariant
            i <= digits.len(),
            all_digits(digits@),
            bound <= 0x1_0000_0000_0000_0000_0000_0000_0000,
            !large ==> value == number(digits@.take(i as int)) && value <= bound,
            large ==> number(digits@.take(i as int)) > bound,
        decreases digits.len() - i,
    {
        proof {
            assert(digits@.take(i + 1).drop_last() =~= digits@.take(i as int));
            assert(digits@.take(i + 1).last() == digits@[i as int]);
            assert(is_digit(digits@[i as int]));
        }
        if !large {
            let d: u128 = match digit_of(digits[i]) {
                Some(d) => d as u128,
                None => 0,
            };
            value = value * 10 + d;
            if value > bound {
                large = true;
            }
        }
        i = i + 1;
    }
    proof {
        assert(digits@.take(i as int) =~= digits@);
    }
    (value, large)
}

/// Takes the digits and the point apart into the digits before the point
/// and the digits behind it, if that is what `mantissa` holds.
fn split_mantissa(mantissa: &Vec<char>) -> (parts: Option<(Vec<char>, Vec<char>)>)
    ensures
        match parts {
            Some((whole, fraction)) => {
                &&& is_mantissa(mantissa@)
                &&& whole@ == whole_part(mantissa@)
                &&& fraction@ == fraction_part(mantissa@)
            },
            None => !is_mantissa(mantissa@),
        },
{
    let point = first_of(mantissa, '.', '.');
    let whole = copy_range(mantissa, 0, point);
    let fraction = if point < mantissa.len() {
        copy_range(mantissa, point + 1, mantissa.len())
    } else {
        Vec::new()
    };
    proof {
        assert(fraction@ =~= fraction_part(mantissa@));
    }
    if !are_digits(&whole) || !are_digits(&fraction) || (whole.len() == 0 && fraction.len() == 0) {
        None
    } else {
        Some((whole, fraction))
    }
}

/// Reads an exponent: whether a minus sign stands before it, and its
/// magnitude as far as it stays within 2 to the power of 100.
fn read_exponent(exponent: &Vec<char>) -> (read: Option<(bool, u128, bool)>)
    ensures
        match read {
            Some((negative, magnitude, large)) => {
                &&& is_exponent(exponent@)
                &&& negative == (exponent@.len() > 0 && exponent@[0] == '-')
                &&& !large ==> magnitude == number(unsigned_part(exponent@)) && magnitude
                    <= 0x10_0000_0000_0000_0000_0000_0000
                &&& large ==> number(unsigned_part(exponent@)) > 0x10_0000_0000_0000_0000_0000_0000
            },
            None => !is_exponent(exponent@),
        },
{
    let n = exponent.len();
    let negative = n > 0 && exponent[0] == '-';
    let start: usize = if n > 0 && (exponent[0] == '-' || exponent[0] == '+') {
        1
    } else {
        0
    };
    let digits = copy_range(exponent, start, n);
    proof {
        assert(digits@ =~= unsigned_part(exponent@));
    }
    if digits.len() == 0 || !are_digits(&digits) {
        return None;
    }
    let (magnitude, large) = bounded_number(&digits, 0x10_0000_0000_0000_0000_0000_0000);
    Some((negative, magnitude, large))
}

/// Reads the number that a sign, the digits before the point and the digits
/// behind it write.
fn read_digits(negative: bool, whole: &Vec<char>, fraction: &Vec<char>) -> (typed: TypedAmount)
    requires
        all_digits(whole@),
        all_digits(fraction@),
    ensures
        typed@ == capped(typed_from(negative, whole@, fraction@)),
{
    let (units, large) = bounded_number(whole, 0x1_0000_0000_0000_0000);
    proof {
        lemma_first_two_range(fraction@);
    }
    // The first two digits behind the point, and what the others say.
    let mut hundredths: u128 = 0;
    let mut round_up: bool = false;
    if fraction.len() > 0 {
        assert(is_digit(fraction@[0]));
        hundredths = match digit_of(fraction[0]) {
            Some(d) => d as u128 * 10,
            None => 0,
        };
    }
    if fraction.len() > 1 {
        assert(is_digit(fraction@[1]));
        hundredths = hundredths + match digit_of(fraction[1]) {
            Some(d) => d as u128,
            None => 0,
        };
    }
    if fraction.len() > 2 {
        assert(is_digit(fraction@[2]));
        round_up = match digit_of(fraction[2]) {
            Some(d) => d >= 5,
            None => false,
        };
    }
    let mut more: bool = false;
    let mut j: usize = 2;
    while j < fraction.len()
        invariant
            2 <= j,
            more == (exists|k: int| 2 <= k < j && k < fraction.len() && #[trigger] fraction@[k] != '0'),
        decreases fraction.len() - j,
    {
        if fraction[j] != '0' {
            more = true;
        }
        j = j + 1;
    }
    let cut: u128 = if large {
        0x1_0000_0000_0000_0000 * 100 + 100
    } else {
        units * 100 + hundredths
    };
    TypedAmount { negative, cut, more, round_up }
}

/// Whether `magnitude`, with its sign, is the exponent, or, where the
/// exponent is marked as large, the exponent lies beyond 2 to the power of
/// 100 on the side of its sign.
spec fn exponent_read(exponent: int, negative: bool, magnitude: u128, large: bool) -> bool {
    if large {
        if negative {
            exponent < -0x10_0000_0000_0000_0000_0000_0000
        } else {
            exponent > 0x10_0000_0000_0000_0000_0000_0000
        }
    } else {
        magnitude <= 0x10_0000_0000_0000_0000_0000_0000 && exponent == (if negative {
            -(magnitude as int)
        } else {
            magnitude as int
        })
    }
}

/// Takes a text apart into the digits before the point, the digits behind
/// it, and the exponent, if it writes a decimal number.
fn split_number(chars: &Vec<char>) -> (parts: Option<(Vec<char>, Vec<char>, bool, u128, bool)>)
    ensures
        match parts {
            Some((whole, fraction, negative, magnitude, large)) => {
                &&& is_decimal_number(chars@)
                &&& whole@ == whole_part(mantissa_part(unsigned_part(chars@)))
                &&& fraction@ == fraction_part(mantissa_part(unsigned_part(chars@)))
                &&& exponent_read(exponent_of(chars@), negative, magnitude, large)
            },
            None => !is_decimal_number(chars@),
        },
{
    let n = chars.len();
    let start: usize = if n > 0 && (chars[0] == '-' || chars[0] == '+') {
        1
    } else {
        0
    };
    let body = copy_range(chars, start, n);
    proof {
        assert(body@ =~= unsigned_part(chars@));
    }
    let mark = first_of(&body, 'e', 'E');
    let mantissa = copy_range(&body, 0, mark);
    let (whole, fraction) = match split_mantissa(&mantissa) {
        Some(parts) => parts,
        None => {
            return None;
        },
    };
    if mark < body.len() {
        let exponent = copy_range(&body, mark + 1, body.len());
        match read_exponent(&exponent) {
            Some((negative, magnitude, large)) => Some(
                (whole, fraction, negative, magnitude, large),
            ),
            None => None,
        }
    } else {
        Some((whole, fraction, false, 0, false))
    }
}

/// Reads the number that a sign and digits write once the point is moved
/// by the exponent.
fn read_shifted(
    negative: bool,
    whole: &Vec<char>,
    fraction: &Vec<char>,
    exponent_negative: bool,
    magnitude: u128,
    exponent_large: bool,
    Ghost(exponent): Ghost<int>,
) -> (typed: TypedAmount)
    requires
        all_digits(whole@),
        all_digits(fraction@),
        exponent_read(exponent, exponent_negative, magnitude, exponent_large),
    ensures
        typed@ == capped(
            typed_from(
                negative,
                shifted_whole(whole@, fraction@, exponent),
                shifted_fraction(whole@, fraction@, exponent),
            ),
        ),
{
    let mut all: Vec<char> = Vec::new();
    push_all(&mut all, whole);
    push_all(&mut all, fraction);
    proof {
        assert(all@ =~= whole@ + fraction@);
    }
    // Where the point comes to stand among the digits, counted from the first.
    let far_left: bool;
    let far_right: bool;
    let mut point: i128 = 0;
    if exponent_large {
        far_left = exponent_negative;
        far_right = !exponent_negative;
    } else {
        let shift: i128 = if exponent_negative {
            -(magnitude as i128)
        } else {
            magnitude as i128
        };
        point = whole.len() as i128 + shift;
        far_left = point <= -3;
        far_right = !far_left && shift >= fraction.len() as i128 + 22;
    }
    if far_left {
        proof {
            lemma_far_left(negative, whole@, fraction@, exponent);
        }
        return TypedAmount { negative, cut: 0, more: any_nonzero(&all), round_up: false };
    }
    if far_right {
        proof {
            lemma_far_right(negative, whole@, fraction@, exponent);
        }
        let cut: u128 = if any_nonzero(&all) {
            0x1_0000_0000_0000_0000 * 100 + 100
        } else {
            0
        };
        return TypedAmount { negative, cut, more: false, round_up: false };
    }
    assert(point == whole@.len() + exponent);
    let (left, right) = move_point(&all, point);
    proof {
        lemma_shifted_digits(whole@, fraction@, exponent);
        assert(left@ =~= shifted_whole(whole@, fraction@, exponent));
        assert(right@ =~= shifted_fraction(whole@, fraction@, exponent));
    }
    read_digits(negative, &left, &right)
}

/// The digits on either side of the point, where the point stands behind
/// the first `point` digits of `all`; zeros stand where there are no
/// digits.
fn move_point(all: &Vec<char>, point: i128) -> (sides: (Vec<char>, Vec<char>))
    requires
        -3 < point < all.len() + 22,
    ensures
        sides.0@ == (if point <= 0 {
            Seq::<char>::empty()
        } else if point >= all.len() {
            all@ + zeros(point - all.len())
        } else {
            all@.subrange(0, point as int)
        }),
        sides.1@ == (if point <= 0 {
            zeros(-point) + all@
        } else if point >= all.len() {
            Seq::<char>::empty()
        } else {
            all@.subrange(point as int, all.len() as int)
        }),
{
    let mut left: Vec<char> = Vec::new();
    let mut right: Vec<char> = Vec::new();
    if point <= 0 {
        push_zeros(&mut right, (-point) as usize);
        push_all(&mut right, all);
    } else if point >= all.len() as i128 {
        push_all(&mut left, all);
        push_zeros(&mut left, (point - all.len() as i128) as usize);
    } else {
        left = copy_range(all, 0, point as usize);
        right = copy_range(all, point as usize, all.len());
    }
    proof {
        if point <= 0 {
            assert(right@ =~= zeros(-point) + all@);
        } else if point >= all.len() {
            assert(left@ =~= all@ + zeros(point - all.len()));
        }
    }
    (left, right)
}

/// Reads a decimal number as it was typed.
pub fn read_amount(text: &str) -> (read: Option<TypedAmount>)
    ensures
        match read {
            Some(typed) => typed_of(text@) matches Some(exact) && typed@ == capped(exact),
            None => typed_of(text@) is None,
        },
{
    let chars = chars_of(text);
    let negative = chars.len() > 0 && chars[0] == '-';
    match split_number(&chars) {
        Some((whole, fraction, exponent_negative, magnitude, exponent_large)) => Some(
            read_shifted(
                negative,
                &whole,
                &fraction,
                exponent_negative,
                magnitude,
                exponent_large,
                Ghost(exponent_of(text@)),
            ),
        ),
        None => None,
    }
}

/// Reads a decimal number, with or without an exponent, into hundredths,
/// rounding half away from zero.
pub fn parse_amount(text: &str) -> (amount: Option<i64>)
    ensures
        match amount {
            Some(a) => amount_of(text@) == Some(a as int),
            None => amount_of(text@) is None,
        },
{
    match read_amount(text) {
        Some(typed) => {
            proof {
                lemma_capped(typed_of(text@).unwrap(), 0);
            }
            typed.rounded()
        },
        None => None,
    }
}

/// Writes an amount with two digits behind the point.
pub fn format_amount(amount: i64) -> (text: String)
    ensures
        text@ == amount_text(amount as int),
{
    let mut out: Vec<char> = Vec::new();
    let magnitude: u64 = if amount < 0 {
        out.push('-');
        // The magnitude of `i64::MIN` does not fit in `i64`: go from `amount + 1`.
        ((-(amount + 1)) as u64) + 1
    } else {
        amount as u64
    };
    push_digits(&mut out, magnitude / 100);
    out.push('.');
    let rest: u64 = magnitude % 100;
    if rest < 10 {
        out.push('0');
    }
    push_digits(&mut out, rest);
    proof {
        assert(out@ =~= amount_text(amount as int));
    }
    text_of(&out)
}

} // verus!
