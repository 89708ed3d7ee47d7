//! Fixed-point rendering of a duration in seconds.
//!
//! A duration is a count of nanoseconds. It is shown in seconds with a chosen
//! number of digits after the decimal point, rounded to the nearest value that
//! those digits can express (a tie goes to the even last digit), and padded
//! with spaces on the right up to a minimum width.

use vstd::prelude::*;
use vstd::string::StrSliceExecFns;
use vstd::string::StringExecFns;

verus! {

/// Nanoseconds in one second.
pub const NANOS_PER_SECOND: u128 = 1_000_000_000;

/// Digits after the decimal point that a count of nanoseconds can fill.
pub const NANO_DIGITS: usize = 9;

/// Ten to the power `e`.
pub open spec fn pow10(e: nat) -> nat
    decreases e,
{
    if e == 0 {
        1
    } else {
        10 * pow10((e - 1) as nat)
    }
}

/// The character for the decimal digit `d`.
pub open spec fn digit(d: nat) -> char {
    if d == 0 {
        '0'
    } else if d == 1 {
        '1'
    } else if d == 2 {
        '2'
    } else if d == 3 {
        '3'
    } else if d == 4 {
        '4'
    } else if d == 5 {
        '5'
    } else if d == 6 {
        '6'
    } else if d == 7 {
        '7'
    } else if d == 8 {
        '8'
    } else {
        '9'
    }
}

/// The decimal numeral of `n`, without leading zeros.
pub open spec fn digits(n: nat) -> Seq<char>
    decreases n,
{
    if n < 10 {
        seq![digit(n)]
    } else {
        digits(n / 10).push(digit(n % 10))
    }
}

/// The last `count` decimal digits of `n`, with leading zeros where `n` has
/// fewer.
pub open spec fn last_digits(n: nat, count: nat) -> Seq<char>
    decreases count,
{
    if count == 0 {
        Seq::empty()
    } else {
        last_digits(n / 10, (count - 1) as nat).push(digit(n % 10))
    }
}

/// `count` copies of `c`.
pub open spec fn repeated(c: char, count: nat) -> Seq<char> {
    Seq::new(count, |i: int| c)
}

/// `value / unit` rounded to the nearest whole number; a value half way
/// between two whole numbers goes to the even one.
pub open spec fn rounded(value: nat, unit: nat) -> nat {
    let quotient = value / unit;
    let rest = value % unit;
    if 2 * rest > unit || (2 * rest == unit && quotient % 2 == 1) {
        quotient + 1
    } else {
        quotient
    }
}

/// `nanos` nanoseconds in seconds, with `precision` digits after the decimal
/// point and no point where `precision` is zero.
pub open spec fn seconds_text(nanos: nat, precision: nat) -> Seq<char> {
    let shown = if precision < NANO_DIGITS {
        precision
    } else {
        NANO_DIGITS as nat
    };
    let scaled = rounded(nanos, pow10((NANO_DIGITS - shown) as nat));
    let whole = scaled / pow10(shown);
    let fraction = scaled % pow10(shown);
    if precision == 0 {
        digits(whole)
    } else {
        digits(whole) + seq!['.'] + last_digits(fraction, shown) + repeated(
            '0',
            (precision - shown) as nat,
        )
    }
}

/// `text` followed by the spaces that bring it to `width` characters, if it
/// has fewer.
pub open spec fn left_aligned(text: Seq<char>, width: nat) -> Seq<char> {
    if text.len() < width {
        text + repeated(' ', (width - text.len()) as nat)
    } else {
        text
    }
}

/// The field that shows `nanos` nanoseconds in a report.
pub open spec fn seconds_field(nanos: nat, width: nat, precision: nat) -> Seq<char> {
    left_aligned(seconds_text(nanos, precision), width)
}

/// A numeral has a digit.
pub proof fn lemma_digits_len(n: nat)
    ensures
        digits(n).len() >= 1,
    decreases n,
{
    if n >= 10 {
        lemma_digits_len(n / 10);
    }
}

/// The last `count` digits are `count` characters.
pub proof fn lemma_last_digits_len(n: nat, count: nat)
    ensures
        last_digits(n, count).len() == count,
    decreases count,
{
    if count > 0 {
        lemma_last_digits_len(n / 10, (count - 1) as nat);
    }
}

/// A total takes a digit before the decimal point, the point and the digits
/// after it: a width below `precision + 2` changes nothing.
pub proof fn lemma_narrow_width_changes_nothing(nanos: nat, width: nat, precision: nat)
    requires
        width < precision + 2,
    ensures
        seconds_field(nanos, width, precision) == seconds_text(nanos, precision),
{
    let shown = if precision < NANO_DIGITS {
        precision
    } else {
        NANO_DIGITS as nat
    };
    let scaled = rounded(nanos, pow10((NANO_DIGITS - shown) as nat));
    lemma_digits_len(scaled / pow10(shown));
    lemma_last_digits_len(scaled % pow10(shown), shown);
}

/// The one-character text of the decimal digit `d`.
fn digit_str(d: u8) -> (text: &'static str)
    requires
        d < 10,
    ensures
        text@ == seq![digit(d as nat)],
{
    proof {
        reveal_strlit("0");
        reveal_strlit("1");
        reveal_strlit("2");
        reveal_strlit("3");
        reveal_strlit("4");
        reveal_strlit("5");
        reveal_strlit("6");
        reveal_strlit("7");
        reveal_strlit("8");
        reveal_strlit("9");
    }
    let text = match d {
        0 => "0",
        1 => "1",
        2 => "2",
        3 => "3",
        4 => "4",
        5 => "5",
        6 => "6",
        7 => "7",
        8 => "8",
        _ => "9",
    };
    assert(text@ =~= seq![digit(d as nat)]);
    text
}

/// Ten to the power `e`, for the powers that divide a second.
fn ten_to(e: usize) -> (power: u128)
    requires
        e <= 9,
    ensures
        power == pow10(e as nat),
        1 <= power <= NANOS_PER_SECOND,
{
    proof {
        reveal_with_fuel(pow10, 10);
    }
    match e {
        0 => 1,
        1 => 10,
        2 => 100,
        3 => 1_000,
        4 => 10_000,
        5 => 100_000,
        6 => 1_000_000,
        7 => 10_000_000,
        8 => 100_000_000,
        _ => 1_000_000_000,
    }
}

/// Appends the decimal numeral of `n`.
fn push_digits(out: &mut String, n: u128)
    ensures
        final(out)@ == old(out)@ + digits(n as nat),
    decreases n,
{
    if n >= 10 {
        push_digits(out, n / 10);
    }
    let d = (n % 10) as u8;
    out.append(digit_str(d));
    assert(final(out)@ =~= old(out)@ + digits(n as nat));
}

/// Appends the last `count` decimal digits of `n`.
fn push_last_digits(out: &mut String, n: u128, count: usize)
    ensures
        final(out)@ == old(out)@ + last_digits(n as nat, count as nat),
    decreases count,
{
    if count > 0 {
        push_last_digits(out, n / 10, count - 1);
        let d = (n % 10) as u8;
        out.append(digit_str(d));
    }
    assert(final(out)@ =~= old(out)@ + last_digits(n as nat, count as nat));
}

/// Appends `count` copies of the single character of `piece`.
fn push_repeated(out: &mut String, piece: &str, count: usize)
    requires
        piece@.len() == 1,
    ensures
        final(out)@ == old(out)@ + repeated(piece@[0], count as nat),
{
    let mut done: usize = 0;
    while done < count
        invariant
            done <= count,
            piece@.len() == 1,
            out@ == old(out)@ + repeated(piece@[0], done as nat),
        decreases count - done,
    {
        out.append(piece);
        done += 1;
        assert(out@ =~= old(out)@ + repeated(piece@[0], done as nat));
    }
}

/// `value / unit`, rounded to the nearest whole number, ties to even.
fn round_to_unit(value: u128, unit: u128) -> (scaled: u128)
    requires
        1 <= unit <= NANOS_PER_SECOND,
    ensures
        scaled == rounded(value as nat, unit as nat),
{
    let quotient = value / unit;
    let rest = value % unit;
    if 2 * rest > unit || (2 * rest == unit && quotient % 2 == 1) {
        assert(unit >= 2);
        assert(quotient < u128::MAX) by (nonlinear_arith)
            requires
                quotient == value / unit,
                unit >= 2,
                value <= u128::MAX,
        ;
        quotient + 1
    } else {
        quotient
    }
}

/// Appends `nanos` nanoseconds as seconds with `precision` digits after the
/// decimal point.
fn push_seconds_text(out: &mut String, nanos: u128, precision: usize)
    ensures
        final(out)@ == old(out)@ + seconds_text(nanos as nat, precision as nat),
{
    let shown: usize = if precision < NANO_DIGITS {
        precision
    } else {
        NANO_DIGITS
    };
    let scaled = round_to_unit(nanos, ten_to(NANO_DIGITS - shown));
    let scale = ten_to(shown);
    push_digits(out, scaled / scale);
    if precision > 0 {
        proof {
            reveal_strlit(".");
            reveal_strlit("0");
        }
        out.append(".");
        push_last_digits(out, scaled % scale, shown);
        push_repeated(out, "0", precision - shown);
    }
    assert(final(out)@ =~= old(out)@ + seconds_text(nanos as nat, precision as nat));
}

/// The field that shows `nanos` nanoseconds in a report: seconds with
/// `precision` digits after the decimal point, left-aligned in at least
/// `width` characters.
pub fn format_seconds(nanos: u128, width: usize, precision: usize) -> (field: String)
    ensures
        field@ == seconds_field(nanos as nat, width as nat, precision as nat),
{
    let mut field = String::new();
    push_seconds_text(&mut field, nanos, precision);
    let used = field.as_str().unicode_len();
    if used < width {
        proof {
            reveal_strlit(" ");
        }
        push_repeated(&mut field, " ", width - used);
    }
    field
}

} // verus!
