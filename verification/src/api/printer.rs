use crate::model::positive_number::PositiveNumber;
use colored::Colorize;
use vstd::prelude::*;

verus! {

/// The character for the digit `digit`, which is below ten.
pub open spec fn digit_char(digit: nat) -> char {
    if digit == 0 {
        '0'
    } else if digit == 1 {
        '1'
    } else if digit == 2 {
        '2'
    } else if digit == 3 {
        '3'
    } else if digit == 4 {
        '4'
    } else if digit == 5 {
        '5'
    } else if digit == 6 {
        '6'
    } else if digit == 7 {
        '7'
    } else if digit == 8 {
        '8'
    } else {
        '9'
    }
}

/// `number` in decimal digits, without leading zeros.
pub open spec fn decimal_digits(number: nat) -> Seq<char>
    decreases number,
{
    if number < 10 {
        seq![digit_char(number)]
    } else {
        decimal_digits(number / 10).push(digit_char(number % 10))
    }
}

/// No character of `text` starts an escape sequence.
pub open spec fn free_of_escapes(text: Seq<char>) -> bool {
    forall|i: int| 0 <= i < text.len() ==> text[i] != '\x1B'
}

/// How the switch for colours stood while a text was written out: off, on,
/// or on at first and off before the end.
pub enum Switch {
    Off,
    On,
    TurnedOff,
}

/// The code of green as a text colour.
pub open spec fn green_code() -> Seq<char> {
    "32"@
}

/// The code of red as a text colour.
pub open spec fn red_code() -> Seq<char> {
    "31"@
}

/// `text` written out in the colour with the code `code`. With the switch on
/// it stands between the escape sequence that sets the colour and the one
/// that resets it; with the switch off it stands alone; where the switch was
/// turned off in between, only the reset follows it.
pub open spec fn in_color(text: Seq<char>, code: Seq<char>, switch: Switch) -> Seq<char> {
    match switch {
        Switch::Off => text,
        Switch::On => "\x1B["@ + code + "m"@ + text + "\x1B[0m"@,
        Switch::TurnedOff => text + "\x1B[0m"@,
    }
}

/// The line for a checked number, `painted` being the part of it that
/// carries the colour: the number itself where it is prime, the word "not"
/// where it is not.
pub open spec fn line_around(value: u64, is_prime: bool, painted: Seq<char>) -> Seq<char> {
    if is_prime {
        painted + " is prime."@
    } else {
        decimal_digits(value as nat) + " is "@ + painted + " prime."@
    }
}

/// The line for a checked number as it is written with the switch for
/// colours at `switch`: a prime number in green, the "not" of another number
/// in red.
pub open spec fn line_in_color(value: u64, is_prime: bool, switch: Switch) -> Seq<char> {
    if is_prime {
        line_around(value, is_prime, in_color(decimal_digits(value as nat), green_code(), switch))
    } else {
        line_around(value, is_prime, in_color("not"@, red_code(), switch))
    }
}

/// The decimal digits of a number hold no escape character.
pub proof fn lemma_decimal_digits_are_free_of_escapes(number: nat)
    ensures
        free_of_escapes(decimal_digits(number)),
    decreases number,
{
    if number >= 10 {
        lemma_decimal_digits_are_free_of_escapes(number / 10);
    }
}

/// Writes `text` out in green. This is `colored::Colorize::green`, followed
/// by the `Display` of `colored::ColoredString`.
///
/// Trusted: the result is `text` alone where the crate's switch for colours
/// is off, and `text` between the sequence for green and the reset where it
/// is on. The crate reads its switch several times while it writes; where
/// another thread turns it off in between, the result is `text` followed by
/// the reset. A `text` with a reset sequence inside would be changed, so
/// escape characters are kept out.
#[verifier::external_body]
fn green(text: &str) -> (painted: String)
    requires
        free_of_escapes(text@),
    ensures
        painted@ == in_color(text@, green_code(), Switch::Off) || painted@ == in_color(
            text@,
            green_code(),
            Switch::On,
        ) || painted@ == in_color(text@, green_code(), Switch::TurnedOff),
{
    text.green().to_string()
}

/// Writes `text` out in red. This is `colored::Colorize::red`, followed by
/// the `Display` of `colored::ColoredString`.
///
/// Trusted: as for `green`, with the sequence for red.
#[verifier::external_body]
fn red(text: &str) -> (painted: String)
    requires
        free_of_escapes(text@),
    ensures
        painted@ == in_color(text@, red_code(), Switch::Off) || painted@ == in_color(
            text@,
            red_code(),
            Switch::On,
        ) || painted@ == in_color(text@, red_code(), Switch::TurnedOff),
{
    text.red().to_string()
}

fn digit(value: u64) -> (text: &'static str)
    requires
        value < 10,
    ensures
        text@ == seq![digit_char(value as nat)],
{
    proof {
        reveal_strlit("0");
        reveal_strlit("1");
        reveal_strlit("2");
        reveal_strlit("3");
        reveal_strlit("4");
        reveal_strlit("5");
        reveal_strlit("6");
        reveal_strlit("7");
        reveal_strlit("8");
        reveal_strlit("9");
    }
    let text = if value == 0 {
        "0"
    } else if value == 1 {
        "1"
    } else if value == 2 {
        "2"
    } else if value == 3 {
        "3"
    } else if value == 4 {
        "4"
    } else if value == 5 {
        "5"
    } else if value == 6 {
        "6"
    } else if value == 7 {
        "7"
    } else if value == 8 {
        "8"
    } else {
        "9"
    };
    assert(text@ =~= seq![digit_char(value as nat)]);
    text
}

/// Writes `number` in decimal digits.
pub fn decimal(number: u64) -> (text: String)
    ensures
        text@ == decimal_digits(number as nat),
    decreases number,
{
    if number < 10 {
        digit(number).to_owned()
    } else {
        let mut text = decimal(number / 10);
        text.append(digit(number % 10));
        assert(text@ =~= decimal_digits(number as nat));
        text
    }
}

/// Puts the line for a checked number together, `painted` being the part
/// that carries the colour.
pub fn line_with(value: u64, is_prime: bool, painted: &str) -> (line: String)
    ensures
        line@ == line_around(value, is_prime, painted@),
{
    if is_prime {
        let mut line = painted.to_owned();
        line.append(" is prime.");
        line
    } else {
        let mut line = decimal(value);
        line.append(" is ");
        line.append(painted);
        line.append(" prime.");
        line
    }
}

/// The line that tells of `value` whether it is prime, with a prime number
/// in green and the "not" of another number in red. Whether the colours are
/// written is for the outside crate to say, by its switch.
pub fn prime_in_color(value: u64, is_prime: bool) -> (line: String)
    ensures
        line@ == line_in_color(value, is_prime, Switch::Off) || line@ == line_in_color(
            value,
            is_prime,
            Switch::On,
        ) || line@ == line_in_color(value, is_prime, Switch::TurnedOff),
{
    let painted = if is_prime {
        let digits = decimal(value);
        proof {
            lemma_decimal_digits_are_free_of_escapes(value as nat);
        }
        green(digits.as_str())
    } else {
        proof {
            reveal_strlit("not");
        }
        red("not")
    };
    line_with(value, is_prime, painted.as_str())
}

/// The line for a checked number, as `prime_in_color` writes it.
pub fn positive_number_prime_in_color(number: &PositiveNumber) -> (line: String)
    ensures
        line@ == line_in_color(number@.0, number@.1, Switch::Off) || line@ == line_in_color(
            number@.0,
            number@.1,
            Switch::On,
        ) || line@ == line_in_color(number@.0, number@.1, Switch::TurnedOff),
{
    prime_in_color(number.value(), number.is_prime())
}

} // verus!
