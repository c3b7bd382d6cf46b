//! Amounts as decimal numerals: reading one, writing one with four
//! fractional digits, and the proof that what is written reads back.

use vstd::prelude::*;

verus! {

/// How many of the smallest units make one currency unit.
pub const SCALE: u128 = 10_000;

/// How many digits may stand behind the decimal point.
pub const FRACTION_DIGITS: usize = 4;

pub open spec fn is_digit(c: char) -> bool {
    '0' <= c <= '9'
}

/// The number that a decimal digit stands for.
pub open spec fn digit_value(c: char) -> nat {
    (c as u32 - '0' as u32) as nat
}

pub open spec fn all_digits(s: Seq<char>) -> bool {
    forall|i: int| 0 <= i < s.len() ==> is_digit(#[trigger] s[i])
}

/// The number that a string of decimal digits stands for; the empty string
/// stands for zero.
pub open spec fn digits_value(digits: Seq<char>) -> nat
    decreases digits.len(),
{
    if digits.len() == 0 {
        0
    } else {
        digits_value(digits.drop_last()) * 10 + digit_value(digits.last())
    }
}

/// How many digits stand at the front of `s` before anything else.
pub open spec fn digit_run(s: Seq<char>) -> nat
    decreases s.len(),
{
    if s.len() > 0 && is_digit(s[0]) {
        1 + digit_run(s.skip(1))
    } else {
        0
    }
}

pub open spec fn pow10(n: nat) -> nat
    decreases n,
{
    if n == 0 {
        1
    } else {
        10 * pow10((n - 1) as nat)
    }
}

/// The count of smallest units that an unsigned decimal numeral stands for:
/// digits, then optionally a point and at most `FRACTION_DIGITS` more
/// digits, with at least one digit in all.
pub open spec fn magnitude_of(body: Seq<char>) -> Option<nat> {
    let n = digit_run(body) as int;
    let whole = body.take(n);
    let rest = body.skip(n);
    if rest.len() == 0 {
        if n > 0 {
            Some((digits_value(whole) * SCALE) as nat)
        } else {
            None
        }
    } else if rest[0] == '.' {
        let fraction = rest.skip(1);
        if all_digits(fraction) && fraction.len() <= FRACTION_DIGITS && n + fraction.len() > 0 {
            Some(
                (digits_value(whole) * SCALE + digits_value(fraction) * pow10(
                    (FRACTION_DIGITS - fraction.len()) as nat,
                )) as nat,
            )
        } else {
            None
        }
    } else {
        None
    }
}

/// The amount that a decimal numeral stands for, in ten-thousandths: an
/// optional sign, then an unsigned numeral. `None` where the text is no such
/// numeral or the amount does not fit.
pub open spec fn amount_of(text: Seq<char>) -> Option<i64> {
    let signed = text.len() > 0 && (text[0] == '-' || text[0] == '+');
    let negative = text.len() > 0 && text[0] == '-';
    let body = if signed {
        text.skip(1)
    } else {
        text
    };
    match magnitude_of(body) {
        Some(m) => {
            let value = if negative {
                -(m as int)
            } else {
                m as int
            };
            if i64::MIN <= value <= i64::MAX {
                Some(value as i64)
            } else {
                None
            }
        },
        None => None,
    }
}

/// Where the first `n` characters are digits and the next is none, the run
/// of digits at the front has length `n`.
pub proof fn digit_run_ends(s: Seq<char>, n: int)
    requires
        0 <= n <= s.len(),
        forall|k: int| 0 <= k < n ==> is_digit(#[trigger] s[k]),
        n == s.len() || !is_digit(s[n]),
    ensures
        digit_run(s) == n,
    decreases n,
{
    if n > 0 {
        let tail = s.skip(1);
        assert forall|k: int| 0 <= k < n - 1 implies is_digit(#[trigger] tail[k]) by {
            assert(tail[k] == s[k + 1]);
        }
        digit_run_ends(tail, n - 1);
    }
}

/// A longer string of digits stands for no smaller a number than any of
/// its prefixes.
pub proof fn digits_value_grows(digits: Seq<char>, k: int)
    requires
        0 <= k <= digits.len(),
    ensures
        digits_value(digits.take(k)) <= digits_value(digits),
    decreases digits.len(),
{
    if k == digits.len() {
        assert(digits.take(k) == digits);
    } else {
        digits_value_grows(digits.drop_last(), k);
        assert(digits.drop_last().take(k) == digits.take(k));
    }
}

/// A string of digits stands for less than the power of ten of its length.
pub proof fn digits_value_bound(digits: Seq<char>)
    requires
        all_digits(digits),
    ensures
        digits_value(digits) < pow10(digits.len()),
    decreases digits.len(),
{
    if digits.len() > 0 {
        let shorter = digits.drop_last();
        assert forall|i: int| 0 <= i < shorter.len() implies is_digit(#[trigger] shorter[i]) by {
            assert(shorter[i] == digits[i]);
        }
        digits_value_bound(shorter);
    }
}

/// The characters of `text`, one by one.
fn chars_of(text: &str) -> (chars: Vec<char>)
    ensures
        chars@ == text@,
{
    let mut chars: Vec<char> = Vec::new();
    for c in it: text.chars()
        invariant
            it.seq() == text@,
            chars@ == text@.take(it.index() as int),
    {
        chars.push(c);
    }
    chars
}

/// The number that the digits of `chars` from `from` up to `to` stand for,
/// where it is at most `i64::MAX`.
fn number_of(chars: &Vec<char>, from: usize, to: usize) -> (r: Option<u128>)
    requires
        from <= to <= chars.len(),
        all_digits(chars@.subrange(from as int, to as int)),
    ensures
        match r {
            Some(v) => v == digits_value(chars@.subrange(from as int, to as int)) && v
                <= i64::MAX,
            None => digits_value(chars@.subrange(from as int, to as int)) > i64::MAX,
        },
{
    let ghost digits = chars@.subrange(from as int, to as int);
    let mut value: u128 = 0;
    let mut i: usize = from;
    while i < to
        invariant
            from <= i <= to <= chars.len(),
            digits == chars@.subrange(from as int, to as int),
            all_digits(digits),
            value == digits_value(digits.take(i - from)),
            value <= i64::MAX,
        decreases to - i,
    {
        let c = chars[i];
        proof {
            assert(digits[i - from] == c);
            assert(digits.take(i - from + 1).drop_last() == digits.take(i - from));
        }
        let d: u32 = c as u32 - '0' as u32;
        value = value * 10 + d as u128;
        if value > i64::MAX as u128 {
            proof {
                digits_value_grows(digits, i - from + 1);
            }
            return None;
        }
        i += 1;
    }
    proof {
        assert(digits.take(to - from) == digits);
    }
    Some(value)
}

/// What one unit of a fraction of `digits` digits counts in smallest units.
fn fraction_unit(digits: usize) -> (unit: u128)
    requires
        digits <= 4,
    ensures
        unit == pow10((4 - digits) as nat),
{
    proof {
        reveal_with_fuel(pow10, 5);
    }
    if digits == 0 {
        10_000
    } else if digits == 1 {
        1_000
    } else if digits == 2 {
        100
    } else if digits == 3 {
        10
    } else {
        1
    }
}

/// Reads the unsigned numeral that `chars` holds from `start` on.
fn parse_magnitude(chars: &Vec<char>, start: usize) -> (r: Option<u128>)
    requires
        start <= chars.len(),
    ensures
        match magnitude_of(chars@.skip(start as int)) {
            Some(m) => if m <= i64::MAX + 1 {
                r == Some(m as u128)
            } else {
                r is None
            },
            None => r is None,
        },
{
    let ghost body = chars@.skip(start as int);
    let mut end: usize = start;
    while end < chars.len() && chars[end] >= '0' && chars[end] <= '9'
        invariant
            start <= end <= chars.len(),
            forall|k: int| start <= k < end ==> is_digit(#[trigger] chars@[k]),
        decreases chars.len() - end,
    {
        end += 1;
    }
    let ghost n = end - start;
    proof {
        assert forall|k: int| 0 <= k < n implies is_digit(#[trigger] body[k]) by {
            assert(body[k] == chars@[start + k]);
        }
        digit_run_ends(body, n);
        assert(body.take(n) == chars@.subrange(start as int, end as int));
    }
    let ghost rest = body.skip(n);
    let fraction_start = if end == chars.len() {
        if end == start {
            return None;
        }
        end
    } else if chars[end] == '.' {
        end + 1
    } else {
        return None;
    };
    let ghost fraction = chars@.subrange(fraction_start as int, chars.len() as int);
    proof {
        if end < chars.len() {
            assert(rest.skip(1) == fraction);
        }
    }
    let fraction_len = chars.len() - fraction_start;
    if fraction_len > FRACTION_DIGITS || (end == start && fraction_len == 0) {
        return None;
    }
    let mut k: usize = fraction_start;
    while k < chars.len()
        invariant
            fraction_start <= k <= chars.len(),
            fraction == chars@.subrange(fraction_start as int, chars.len() as int),
            !all_digits(fraction) ==> magnitude_of(chars@.skip(start as int)) is None,
            forall|j: int| 0 <= j < k - fraction_start ==> is_digit(#[trigger] fraction[j]),
        decreases chars.len() - k,
    {
        if !(chars[k] >= '0' && chars[k] <= '9') {
            proof {
                assert(!is_digit(fraction[k - fraction_start]));
            }
            return None;
        }
        k += 1;
    }
    let whole = match number_of(chars, start, end) {
        Some(whole) => whole,
        None => {
            return None;
        },
    };
    let part = match number_of(chars, fraction_start, chars.len()) {
        Some(part) => part,
        None => {
            proof {
                digits_value_bound(fraction);
                reveal_with_fuel(pow10, 5);
            }
            return None;
        },
    };
    let unit = fraction_unit(fraction_len);
    proof {
        reveal_with_fuel(pow10, 5);
        assert(part * unit <= 0x7fff_ffff_ffff_ffff * 10_000) by (nonlinear_arith)
            requires
                part <= 0x7fff_ffff_ffff_ffff,
                unit <= 10_000,
        ;
    }
    let magnitude = whole * SCALE + part * unit;
    proof {
        if end == chars.len() {
            assert(part * unit == 0) by (nonlinear_arith)
                requires
                    part == 0,
            ;
        }
    }
    if magnitude > i64::MAX as u128 + 1 {
        None
    } else {
        Some(magnitude)
    }
}

/// Reads an amount from its decimal numeral.
pub fn parse_amount(text: &str) -> (r: Option<i64>)
    ensures
        r == amount_of(text@),
{
    let chars = chars_of(text);
    let signed = chars.len() > 0 && (chars[0] == '-' || chars[0] == '+');
    let negative = chars.len() > 0 && chars[0] == '-';
    let start: usize = if signed {
        1
    } else {
        0
    };
    proof {
        assert(chars@.skip(0) == chars@);
    }
    match parse_magnitude(&chars, start) {
        None => None,
        Some(magnitude) => {
            if negative {
                if magnitude == i64::MAX as u128 + 1 {
                    Some(i64::MIN)
                } else {
                    Some(-(magnitude as i64))
                }
            } else if magnitude > i64::MAX as u128 {
                None
            } else {
                Some(magnitude as i64)
            }
        },
    }
}

/// The decimal digit that stands for `d`, where `d` is below ten.
pub open spec fn digit_char(d: nat) -> char {
    if d == 0 {
        '0'
    } else if d == 1 {
        '1'
    } else if d == 2 {
        '2'
    } else if d == 3 {
        '3'
    } else if d == 4 {
        '4'
    } else if d == 5 {
        '5'
    } else if d == 6 {
        '6'
    } else if d == 7 {
        '7'
    } else if d == 8 {
        '8'
    } else {
        '9'
    }
}

/// The decimal numeral of `n`, without leading zeros.
pub open spec fn nat_digits(n: nat) -> Seq<char>
    decreases n,
{
    if n < 10 {
        seq![digit_char(n)]
    } else {
        nat_digits(n / 10).push(digit_char(n % 10))
    }
}

/// The four digits that stand behind the point for `units` smallest units.
pub open spec fn fraction_digits(units: nat) -> Seq<char> {
    seq![
        digit_char(units / 1000 % 10),
        digit_char(units / 100 % 10),
        digit_char(units / 10 % 10),
        digit_char(units % 10),
    ]
}

/// The numeral of an amount of `units` smallest units: the whole currency
/// units, a point, and four digits.
pub open spec fn amount_text(units: nat) -> Seq<char> {
    nat_digits(units / SCALE as nat) + seq!['.'] + fraction_digits(units)
}

/// The digit that stands for `d`, as text.
fn digit_text(d: u8) -> (text: &'static str)
    requires
        d < 10,
    ensures
        text@ == seq![digit_char(d as nat)],
{
    proof {
        reveal_strlit("0");
        reveal_strlit("1");
        reveal_strlit("2");
        reveal_strlit("3");
        reveal_strlit("4");
        reveal_strlit("5");
        reveal_strlit("6");
        reveal_strlit("7");
        reveal_strlit("8");
        reveal_strlit("9");
    }
    let text = if d == 0 {
        "0"
    } else if d == 1 {
        "1"
    } else if d == 2 {
        "2"
    } else if d == 3 {
        "3"
    } else if d == 4 {
        "4"
    } else if d == 5 {
        "5"
    } else if d == 6 {
        "6"
    } else if d == 7 {
        "7"
    } else if d == 8 {
        "8"
    } else {
        "9"
    };
    text
}

/// Appends the decimal numeral of `n` to `text`.
fn push_number(text: &mut String, n: u128)
    ensures
        final(text)@ == old(text)@ + nat_digits(n as nat),
    decreases n,
{
    if n >= 10 {
        push_number(text, n / 10);
    }
    text.append(digit_text((n % 10) as u8));
}

/// Writes an amount with its four fractional digits.
pub fn format_amount(units: u128) -> (text: String)
    ensures
        text@ == amount_text(units as nat),
{
    let mut text = String::new();
    push_number(&mut text, units / SCALE);
    proof {
        reveal_strlit(".");
    }
    text.append(".");
    text.append(digit_text((units / 1000 % 10) as u8));
    text.append(digit_text((units / 100 % 10) as u8));
    text.append(digit_text((units / 10 % 10) as u8));
    text.append(digit_text((units % 10) as u8));
    text
}

/// Each digit character stands for the number it was chosen for.
pub proof fn digit_char_is_digit(d: nat)
    requires
        d < 10,
    ensures
        is_digit(digit_char(d)),
        digit_value(digit_char(d)) == d,
{
}

/// The numeral of a number holds digits only, at least one, and stands for
/// that number.
pub proof fn nat_digits_stand_for(n: nat)
    ensures
        nat_digits(n).len() >= 1,
        all_digits(nat_digits(n)),
        digits_value(nat_digits(n)) == n,
    decreases n,
{
    reveal_with_fuel(digits_value, 2);
    digit_char_is_digit(n % 10);
    if n >= 10 {
        nat_digits_stand_for(n / 10);
        let shorter = nat_digits(n / 10);
        let all = nat_digits(n);
        assert(all.drop_last() == shorter);
        assert forall|i: int| 0 <= i < all.len() implies is_digit(#[trigger] all[i]) by {
            if i < shorter.len() {
                assert(all[i] == shorter[i]);
            }
        }
    }
}

/// The number that four digits in a row stand for.
proof fn four_digits_value(a: char, b: char, c: char, d: char)
    ensures
        digits_value(seq![a, b, c, d]) == ((digit_value(a) * 10 + digit_value(b)) * 10
            + digit_value(c)) * 10 + digit_value(d),
{
    let f4 = seq![a, b, c, d];
    let f3 = f4.drop_last();
    let f2 = f3.drop_last();
    let f1 = f2.drop_last();
    assert(digits_value(f1.drop_last()) == 0);
    assert(digits_value(f2) == digits_value(f1) * 10 + digit_value(b));
    assert(digits_value(f4) == digits_value(f3) * 10 + digit_value(d));
}

/// The last four decimal digits of a number make up its remainder by ten
/// thousand.
proof fn last_four_digits(units: nat)
    ensures
        ((units / 1000 % 10 * 10 + units / 100 % 10) * 10 + units / 10 % 10) * 10 + units % 10
            == units % 10_000,
{
    let q1 = units / 10;
    let q2 = q1 / 10;
    let q3 = q2 / 10;
    let q4 = q3 / 10;
    assert(units / 100 == q2);
    assert(units / 1000 == q3);
    assert(units / 10_000 == q4);
    assert(units == 10_000 * q4 + 1000 * (q3 % 10) + 100 * (q2 % 10) + 10 * (q1 % 10) + units
        % 10);
}

/// The four digits behind the point stand for what is left of the amount
/// beyond the whole currency units.
pub proof fn fraction_digits_stand_for(units: nat)
    ensures
        fraction_digits(units).len() == 4,
        all_digits(fraction_digits(units)),
        digits_value(fraction_digits(units)) == units % 10_000,
{
    let a = units / 1000 % 10;
    let b = units / 100 % 10;
    let c = units / 10 % 10;
    let d = units % 10;
    digit_char_is_digit(a);
    digit_char_is_digit(b);
    digit_char_is_digit(c);
    digit_char_is_digit(d);
    four_digits_value(digit_char(a), digit_char(b), digit_char(c), digit_char(d));
    last_four_digits(units);
}

/// What is written is read back: the numeral of an amount that fits
/// stands for that amount.
pub proof fn written_amount_reads_back(units: nat)
    requires
        units <= i64::MAX,
    ensures
        amount_of(amount_text(units)) == Some(units as i64),
{
    let whole = nat_digits(units / 10_000);
    let fraction = fraction_digits(units);
    let text = amount_text(units);
    let n = whole.len() as int;
    nat_digits_stand_for(units / 10_000);
    fraction_digits_stand_for(units);
    assert(digit_run(text) == n) by {
        assert forall|k: int| 0 <= k < n implies is_digit(#[trigger] text[k]) by {
            assert(text[k] == whole[k]);
        }
        digit_run_ends(text, n);
    }
    assert(text.take(n) == whole);
    let rest = text.skip(n);
    assert(rest.skip(1) == fraction);
    assert(magnitude_of(text) == Some(units)) by {
        assert(digits_value(whole) * 10_000 + digits_value(fraction) * 1 == units);
    }
}

} // verus!
