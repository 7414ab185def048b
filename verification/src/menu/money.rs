//! Money as a whole number of cents, and the prices of a meal.

use vstd::prelude::*;
use vstd::arithmetic::div_mod::lemma_fundamental_div_mod_converse;
use vstd::slice::slice_subrange;
use crate::error::{missing, within, Error, ErrorModel, NumberError};
use vstd::string::StringExecFns;
use crate::text::{
    all_digits, chars_of, digit_char, digit_text, digit_value, digits_value, find_from,
    first_occurrence, is_digit, lemma_first_occurrence_bounds, lemma_split_first,
    lemma_split_whole, number_text, number_to_text, only_digits, split, split_bounds, trim_bounds,
    trimmed, unsigned_body, value_of_digits,
};

verus! {

/// An amount of money: a whole number of cents.
#[derive(Debug, Clone, Copy, PartialEq, Eq, PartialOrd, Ord, Hash, Structural)]
pub struct Cents(pub u64);

impl From<u64> for Cents {
    fn from(cents: u64) -> (made: Cents) {
        Cents(cents)
    }
}

impl vstd::std_specs::convert::FromSpecImpl<u64> for Cents {
    open spec fn obeys_from_spec() -> bool {
        true
    }

    open spec fn from_spec(cents: u64) -> Cents {
        Cents(cents)
    }
}

/// What a meal costs a student, an employee and a guest.
#[derive(Debug, Clone, Copy, PartialEq, Eq, Hash, Structural)]
pub struct Price {
    pub student: Cents,
    pub employee: Cents,
    pub guest: Cents,
}

/// Ten to the power `n`.
pub open spec fn pow10(n: nat) -> nat
    decreases n,
{
    if n == 0 {
        1
    } else {
        10 * pow10((n - 1) as nat)
    }
}

/// The text of the decimal point.
pub open spec fn point() -> Seq<char> {
    seq!['.']
}

/// The digits that stand before the decimal point of `s`, which may begin
/// with a plus sign.
pub open spec fn whole_part(s: Seq<char>) -> Seq<char> {
    let body = unsigned_body(s);
    match first_occurrence(body, point()) {
        Some(at) => body.take(at),
        None => body,
    }
}

/// The digits that stand behind the decimal point of `s`; none where `s` has
/// no point.
pub open spec fn fraction_part(s: Seq<char>) -> Seq<char> {
    let body = unsigned_body(s);
    match first_occurrence(body, point()) {
        Some(at) => body.skip(at + 1),
        None => Seq::empty(),
    }
}

/// Whether `s` writes a decimal number: digits with at most one decimal
/// point among them, and at least one digit; a plus sign may precede them.
pub open spec fn is_decimal(s: Seq<char>) -> bool {
    &&& all_digits(whole_part(s))
    &&& all_digits(fraction_part(s))
    &&& whole_part(s).len() + fraction_part(s).len() > 0
}

/// The amount that the decimal number `s` writes, in hundredths, rounded
/// down: with `k` digits behind the point, the digits of `s` write the amount
/// times ten to the power `k`.
pub open spec fn hundredths(s: Seq<char>) -> nat {
    (digits_value(whole_part(s) + fraction_part(s)) * 100 / pow10(fraction_part(s).len())) as nat
}

/// The money that `s` writes as a decimal number of the currency's main
/// unit: a hundred times that number, rounded down to whole cents.
pub open spec fn cents_of(s: Seq<char>) -> Result<Cents, NumberError> {
    if s.len() == 0 {
        Err(NumberError::Empty)
    } else if !is_decimal(s) {
        Err(NumberError::InvalidDigit)
    } else if hundredths(s) > u64::MAX {
        Err(NumberError::Overflow)
    } else {
        Ok(Cents(hundredths(s) as u64))
    }
}

/// The first two digits behind the point, as a number of hundredths.
pub open spec fn leading_hundredths(fraction: Seq<char>) -> nat {
    if fraction.len() == 0 {
        0
    } else if fraction.len() == 1 {
        digit_value(fraction[0]) * 10
    } else {
        digit_value(fraction[0]) * 10 + digit_value(fraction[1])
    }
}

/// Digits written one after the other: those in front count for as many
/// powers of ten as digits follow them.
pub proof fn lemma_digits_value_concat(front: Seq<char>, back: Seq<char>)
    ensures
        digits_value(front + back) == digits_value(front) * pow10(back.len()) + digits_value(back),
    decreases back.len(),
{
    if back.len() == 0 {
        assert(front + back =~= front);
        assert(digits_value(front) * pow10(0) == digits_value(front)) by (nonlinear_arith)
            requires
                pow10(0) == 1,
        ;
    } else {
        lemma_digits_value_concat(front, back.drop_last());
        assert((front + back).drop_last() =~= front + back.drop_last());
        assert((front + back).last() == back.last());
        let high = digits_value(front) as int;
        let low = digits_value(back.drop_last()) as int;
        let power = pow10(back.drop_last().len()) as int;
        assert(pow10(back.len()) == 10 * power);
        assert((high * power + low) * 10 == high * (10 * power) + low * 10) by (nonlinear_arith);
    }
}

/// `n` digits write a number below ten to the power `n`.
pub proof fn lemma_digits_value_bound(s: Seq<char>)
    requires
        all_digits(s),
    ensures
        digits_value(s) < pow10(s.len()),
    decreases s.len(),
{
    if s.len() > 0 {
        assert(is_digit(s.last()));
        assert forall|i: int| 0 <= i < s.drop_last().len() implies is_digit(
            #[trigger] s.drop_last()[i],
        ) by {
            assert(is_digit(s[i]));
        }
        lemma_digits_value_bound(s.drop_last());
    }
}

/// Rounding down to hundredths keeps the whole part and the first two digits
/// behind the point.
pub proof fn lemma_hundredths(whole: Seq<char>, fraction: Seq<char>)
    requires
        all_digits(fraction),
    ensures
        digits_value(whole + fraction) * 100 / pow10(fraction.len()) == digits_value(whole) * 100
            + leading_hundredths(fraction),
{
    let w = digits_value(whole) as int;
    let k = fraction.len();
    lemma_digits_value_concat(whole, fraction);
    if k == 0 {
        assert(fraction =~= Seq::<char>::empty());
    } else if k == 1 {
        assert(fraction.drop_last() =~= Seq::<char>::empty());
        assert(pow10(1) == 10) by {
            reveal_with_fuel(pow10, 2);
        }
        let d = digit_value(fraction[0]) as int;
        assert(digits_value(fraction) == d) by {
            reveal_with_fuel(digits_value, 2);
        }
        assert((w * 10 + d) * 100 == (w * 100 + d * 10) * 10) by (nonlinear_arith);
        lemma_fundamental_div_mod_converse((w * 10 + d) * 100, 10, w * 100 + d * 10, 0);
    } else {
        let head = fraction.take(2);
        let tail = fraction.skip(2);
        assert(fraction =~= head + tail);
        lemma_digits_value_concat(head, tail);
        assert forall|i: int| 0 <= i < tail.len() implies is_digit(#[trigger] tail[i]) by {
            assert(is_digit(fraction[i + 2]));
        }
        lemma_digits_value_bound(tail);
        let q = pow10(tail.len()) as int;
        let a = digits_value(head) as int;
        let b = digits_value(tail) as int;
        assert(a == leading_hundredths(fraction)) by {
            reveal_with_fuel(digits_value, 3);
            assert(head.drop_last() =~= seq![fraction[0]]);
            assert(head.drop_last().drop_last() =~= Seq::<char>::empty());
        }
        lemma_pow10_split(tail.len());
        assert(pow10(k) == 100 * q);
        let x = (w * (100 * q) + (a * q + b)) * 100;
        assert(x == (w * 100 + a) * (100 * q) + 100 * b) by (nonlinear_arith)
            requires
                x == (w * (100 * q) + (a * q + b)) * 100,
        ;
        assert(0 <= 100 * b < 100 * q);
        lemma_fundamental_div_mod_converse(x, 100 * q, w * 100 + a, 100 * b);
    }
}

/// Two more digits count for a hundred times as much.
pub proof fn lemma_pow10_split(n: nat)
    ensures
        pow10(n + 2) == 100 * pow10(n),
{
    reveal_with_fuel(pow10, 3);
}

/// A decimal number with at most two digits behind the point is an exact
/// number of cents: nothing is lost in rounding down.
pub proof fn lemma_cents_exact(s: Seq<char>)
    requires
        is_decimal(s),
        fraction_part(s).len() <= 2,
    ensures
        hundredths(s) * pow10(fraction_part(s).len()) == digits_value(
            whole_part(s) + fraction_part(s),
        ) * 100,
{
    let n = digits_value(whole_part(s) + fraction_part(s)) as int;
    let k = fraction_part(s).len();
    reveal_with_fuel(pow10, 3);
    if k == 0 {
        assert(pow10(k) == 1);
        assert(hundredths(s) == n * 100);
    } else if k == 1 {
        assert(pow10(k) == 10);
        assert(n * 100 == (n * 10) * 10) by (nonlinear_arith);
        lemma_fundamental_div_mod_converse(n * 100, 10, n * 10, 0);
        assert(hundredths(s) == n * 10);
    } else {
        assert(pow10(k) == 100);
        lemma_fundamental_div_mod_converse(n * 100, 100, n, 0);
        assert(hundredths(s) == n);
    }
}

impl Cents {
    /// The money that `text` writes as a decimal number of the currency's
    /// main unit, rounded down to whole cents.
    pub fn parse(text: &str) -> (money: Result<Cents, NumberError>)
        ensures
            money == cents_of(text@),
    {
        let chars = chars_of(text);
        Cents::of_chars(chars.as_slice())
    }

    /// The money that `chars` write as a decimal number of the currency's
    /// main unit, rounded down to whole cents.
    pub fn of_chars(chars: &[char]) -> (money: Result<Cents, NumberError>)
        ensures
            money == cents_of(chars@),
    {
        if chars.len() == 0 {
            return Err(NumberError::Empty);
        }
        let start: usize = if chars[0] == '+' {
            1
        } else {
            0
        };
        let body = slice_subrange(chars, start, chars.len());
        assert(body@ =~= unsigned_body(chars@));
        let dot: [char; 1] = ['.'];
        assert(dot@ =~= point());
        let found = find_from(body, dot.as_slice(), 0);
        proof {
            lemma_first_occurrence_bounds(body@, point(), 0);
        }
        let (whole, fraction) = match found {
            Some(at) => (slice_subrange(body, 0, at), slice_subrange(body, at + 1, body.len())),
            None => (body, slice_subrange(body, 0, 0)),
        };
        assert(whole@ =~= whole_part(chars@));
        assert(fraction@ =~= fraction_part(chars@));
        if !only_digits(whole) || !only_digits(fraction) || whole.len() + fraction.len() == 0 {
            return Err(NumberError::InvalidDigit);
        }
        proof {
            lemma_hundredths(whole@, fraction@);
        }
        let units: u64 = match value_of_digits(whole, u64::MAX / 100) {
            Some(units) => units,
            None => {
                return Err(NumberError::Overflow);
            },
        };
        let first: u64 = if fraction.len() > 0 {
            (fraction[0] as u32 - '0' as u32) as u64
        } else {
            0
        };
        let second: u64 = if fraction.len() > 1 {
            (fraction[1] as u32 - '0' as u32) as u64
        } else {
            0
        };
        proof {
            if fraction.len() > 0 {
                assert(is_digit(fraction@[0]));
            }
            if fraction.len() > 1 {
                assert(is_digit(fraction@[1]));
            }
        }
        let rest: u64 = first * 10 + second;
        if rest > u64::MAX - units * 100 {
            return Err(NumberError::Overflow);
        }
        Ok(Cents(units * 100 + rest))
    }
}

/// The words for an amount of money: the whole units, a comma, two digits
/// of cents, and the currency sign.
pub open spec fn money_text(money: Cents) -> Seq<char> {
    number_text(money.0 as nat / 100) + ","@ + seq![
        digit_char(money.0 as nat % 100 / 10),
        digit_char(money.0 as nat % 10),
    ] + " \u{20ac}"@
}

impl Cents {
    /// The words for the amount.
    pub fn to_text(&self) -> (text: String)
        ensures
            text@ == money_text(*self),
    {
        let mut text = number_to_text(self.0 / 100);
        text.append(",");
        text.append(digit_text((self.0 % 100 / 10) as u8));
        text.append(digit_text((self.0 % 10) as u8));
        text.append(" \u{20ac}");
        assert(text@ =~= money_text(*self));
        text
    }
}

impl core::str::FromStr for Cents {
    type Err = NumberError;

    /// The money that `text` writes as a decimal number of the currency's
    /// main unit, rounded down to whole cents.
    fn from_str(text: &str) -> (money: Result<Cents, NumberError>)
        ensures
            money == cents_of(text@),
    {
        Cents::parse(text)
    }
}

/// Whether `c` belongs to the text of a price: the currency sign does not.
pub open spec fn in_price(c: char) -> bool {
    c != '\u{20ac}'
}

/// `c`, with the decimal comma turned into a point.
pub open spec fn pointed(c: char) -> char {
    if c == ',' {
        '.'
    } else {
        c
    }
}

/// The text of a price block without the currency sign, with points for the
/// decimal commas, and without white space at its ends.
pub open spec fn price_text(text: Seq<char>) -> Seq<char> {
    trimmed(text.filter(|c: char| in_price(c)).map_values(|c: char| pointed(c)))
}

/// The text that separates the prices of a price block.
pub open spec fn slash() -> Seq<char> {
    seq!['/']
}

/// What is reported of a price block that fails.
pub const PRICE_FIELD: &'static str = "Meal::price";

/// The text of [`PRICE_FIELD`].
pub open spec fn price_field() -> Seq<char> {
    PRICE_FIELD@
}

/// The prices that three decimal numbers write.
pub open spec fn price_of_parts(
    student: Seq<char>,
    employee: Seq<char>,
    guest: Seq<char>,
) -> Result<Price, ErrorModel> {
    match cents_of(student) {
        Err(e) => Err(within(price_field(), ErrorModel::Number(e))),
        Ok(student) => match cents_of(employee) {
            Err(e) => Err(within(price_field(), ErrorModel::Number(e))),
            Ok(employee) => match cents_of(guest) {
                Err(e) => Err(within(price_field(), ErrorModel::Number(e))),
                Ok(guest) => Ok(Price { student, employee, guest }),
            },
        },
    }
}

/// The prices that a price block writes: three decimal numbers with slashes
/// between them, for the student, the employee and the guest. Any other
/// number of parts fails, and so does a part that is no decimal number.
pub open spec fn price_of(text: Seq<char>) -> Result<Price, ErrorModel> {
    let parts = split(price_text(text), slash());
    if parts.len() != 3 {
        Err(missing(price_field()))
    } else {
        price_of_parts(parts[0], parts[1], parts[2])
    }
}

/// Whether the amount that the decimal number `s` writes is a whole number
/// of cents: its hundredths, taken back to the digits behind the point, are
/// the digits of `s`.
pub open spec fn is_exact(s: Seq<char>) -> bool {
    hundredths(s) * pow10(fraction_part(s).len()) == digits_value(whole_part(s) + fraction_part(s))
        * 100
}

/// Whether `s` writes an amount of money without loss: a decimal number with
/// at most two digits behind the point, of no more cents than can be held.
pub open spec fn is_amount(s: Seq<char>) -> bool {
    is_decimal(s) && fraction_part(s).len() <= 2 && hundredths(s) <= u64::MAX
}

/// A decimal number holds no slash.
pub proof fn lemma_decimal_has_no_slash(s: Seq<char>)
    requires
        is_decimal(s),
    ensures
        forall|i: int| 0 <= i < s.len() ==> #[trigger] s[i] != '/',
{
    let body = unsigned_body(s);
    lemma_first_occurrence_bounds(body, point(), 0);
    assert forall|j: int| 0 <= j < body.len() implies #[trigger] body[j] != '/' by {
        match first_occurrence(body, point()) {
            Some(at) => {
                assert(body.subrange(at, at + 1)[0] == '.');
                if j < at {
                    assert(is_digit(whole_part(s)[j]));
                } else if j > at {
                    assert(is_digit(fraction_part(s)[j - at - 1]));
                }
            },
            None => {
                assert(is_digit(whole_part(s)[j]));
            },
        }
    }
    assert forall|i: int| 0 <= i < s.len() implies #[trigger] s[i] != '/' by {
        if s.len() > 0 && s.first() == '+' {
            if i > 0 {
                assert(body[i - 1] != '/');
            }
        } else {
            assert(body[i] != '/');
        }
    }
}

/// A price block of three amounts is read without loss: each price is the
/// amount that its text writes, to the cent.
pub proof fn lemma_price_exact(
    text: Seq<char>,
    student: Seq<char>,
    employee: Seq<char>,
    guest: Seq<char>,
)
    requires
        price_text(text) == student + slash() + employee + slash() + guest,
        is_amount(student),
        is_amount(employee),
        is_amount(guest),
    ensures
        price_of(text) == Ok::<Price, ErrorModel>(
            Price {
                student: Cents(hundredths(student) as u64),
                employee: Cents(hundredths(employee) as u64),
                guest: Cents(hundredths(guest) as u64),
            },
        ),
        is_exact(student),
        is_exact(employee),
        is_exact(guest),
{
    lemma_decimal_has_no_slash(student);
    lemma_decimal_has_no_slash(employee);
    lemma_decimal_has_no_slash(guest);
    lemma_split_whole(guest, slash());
    lemma_split_first(employee, slash(), guest);
    lemma_split_first(student, slash(), employee + slash() + guest);
    assert(student + slash() + employee + slash() + guest =~= student + slash() + (employee
        + slash() + guest));
    let parts = split(price_text(text), slash());
    assert(parts =~= seq![student, employee, guest]);
    lemma_cents_exact(student);
    lemma_cents_exact(employee);
    lemma_cents_exact(guest);
}

/// `text` without the currency sign and with points for the decimal commas.
pub fn plain_price_text(text: &[char]) -> (plain: Vec<char>)
    ensures
        plain@ == text@.filter(|c: char| in_price(c)).map_values(|c: char| pointed(c)),
{
    let ghost keep = |c: char| in_price(c);
    let ghost turn = |c: char| pointed(c);
    let mut plain: Vec<char> = Vec::new();
    let mut i: usize = 0;
    proof {
        reveal(Seq::filter);
        assert(text@.take(0).filter(keep) =~= Seq::<char>::empty());
    }
    while i < text.len()
        invariant
            i <= text@.len(),
            keep == |c: char| in_price(c),
            turn == |c: char| pointed(c),
            plain@ =~= text@.take(i as int).filter(keep).map_values(turn),
        decreases text@.len() - i,
    {
        let c: char = text[i];
        proof {
            reveal(Seq::filter);
            assert(text@.take(i as int + 1).drop_last() =~= text@.take(i as int));
        }
        if c != '\u{20ac}' {
            plain.push(if c == ',' {
                '.'
            } else {
                c
            });
        }
        i += 1;
    }
    proof {
        assert(text@.take(text@.len() as int) =~= text@);
    }
    plain
}

impl Price {
    /// The prices that a price block writes.
    pub fn parse(text: &str) -> (price: Result<Price, Error>)
        ensures
            match price {
                Ok(price) => price_of(text@) == Ok::<Price, ErrorModel>(price),
                Err(error) => price_of(text@) == Err::<Price, ErrorModel>(error@),
            },
    {
        let chars = chars_of(text);
        let plain = plain_price_text(chars.as_slice());
        let (start, end) = trim_bounds(plain.as_slice());
        let inner = slice_subrange(plain.as_slice(), start, end);
        let mark: [char; 1] = ['/'];
        assert(mark@ =~= slash());
        let bounds = split_bounds(inner, mark.as_slice());
        if bounds.len() != 3 {
            return Err(Error::missing(PRICE_FIELD));
        }
        let student = slice_subrange(inner, bounds[0].0, bounds[0].1);
        let employee = slice_subrange(inner, bounds[1].0, bounds[1].1);
        let guest = slice_subrange(inner, bounds[2].0, bounds[2].1);
        let student = match Cents::of_chars(student) {
            Ok(cents) => cents,
            Err(e) => {
                return Err(Error::within(PRICE_FIELD, Error::Number(e)));
            },
        };
        let employee = match Cents::of_chars(employee) {
            Ok(cents) => cents,
            Err(e) => {
                return Err(Error::within(PRICE_FIELD, Error::Number(e)));
            },
        };
        let guest = match Cents::of_chars(guest) {
            Ok(cents) => cents,
            Err(e) => {
                return Err(Error::within(PRICE_FIELD, Error::Number(e)));
            },
        };
        Ok(Price { student, employee, guest })
    }
}

} // verus!
