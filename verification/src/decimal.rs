//! Whole numbers as decimal texts: reading them and writing them.

use vstd::prelude::*;
use crate::text::push_char;

verus! {

/// Whether `c` is a decimal digit.
pub open spec fn is_digit(c: char) -> bool {
    '0' <= c && c <= '9'
}

/// Whether `text` holds decimal digits only.
pub open spec fn all_digits(text: Seq<char>) -> bool {
    forall|i: int| 0 <= i < text.len() ==> is_digit(#[trigger] text[i])
}

/// The digit that writes `d`, for `d` below ten.
pub open spec fn digit_char(d: int) -> char {
    ('0' as u8 + d) as u8 as char
}

/// The number that a text of decimal digits writes.
pub open spec fn decimal_value(digits: Seq<char>) -> nat
    decreases digits.len(),
{
    if digits.len() == 0 {
        0
    } else {
        decimal_value(digits.drop_last()) * 10 + (digits.last() as u32 - '0' as u32) as nat
    }
}

/// The decimal digits of `n`, without leading zeros.
pub open spec fn decimal_text(n: nat) -> Seq<char>
    decreases n,
{
    if n < 10 {
        seq![digit_char(n as int)]
    } else {
        decimal_text(n / 10).push(digit_char((n % 10) as int))
    }
}

/// The decimal text of a whole number: its digits, behind a `-` where it is
/// negative.
pub open spec fn integer_text(v: int) -> Seq<char> {
    if v < 0 {
        seq!['-'] + decimal_text((-v) as nat)
    } else {
        decimal_text(v as nat)
    }
}

/// The whole number that `text` writes: one digit or more behind at most one
/// sign, `+` or, for a type with negative numbers, `-`. Any other text
/// writes no number.
pub open spec fn integer_value(text: Seq<char>, signed: bool) -> Option<int> {
    if text.len() == 0 {
        None
    } else if text[0] == '+' {
        if text.len() > 1 && all_digits(text.skip(1)) {
            Some(decimal_value(text.skip(1)) as int)
        } else {
            None
        }
    } else if text[0] == '-' {
        if signed && text.len() > 1 && all_digits(text.skip(1)) {
            Some(-(decimal_value(text.skip(1)) as int))
        } else {
            None
        }
    } else if all_digits(text) {
        Some(decimal_value(text) as int)
    } else {
        None
    }
}

/// The whole number that `text` writes, where it lies from `min` to `max`.
pub open spec fn integer_within(text: Seq<char>, signed: bool, min: int, max: int) -> Option<int> {
    match integer_value(text, signed) {
        Some(v) => if min <= v <= max {
            Some(v)
        } else {
            None
        },
        None => None,
    }
}

/// Whether `c` is a decimal digit.
pub fn digit(c: char) -> (r: bool)
    ensures
        r == is_digit(c),
{
    '0' <= c && c <= '9'
}

/// The number that the digits from `from` up to `to` write, or `None` when
/// it does not fit 128 bits.
pub(crate) fn magnitude(chars: &Vec<char>, from: usize, to: usize) -> (r: Option<u128>)
    requires
        from <= to <= chars.len(),
        all_digits(chars@.subrange(from as int, to as int)),
    ensures
        match r {
            Some(n) => n == decimal_value(chars@.subrange(from as int, to as int)),
            None => decimal_value(chars@.subrange(from as int, to as int)) > u128::MAX,
        },
{
    let ghost text = chars@.subrange(from as int, to as int);
    let mut value: Option<u128> = Some(0);
    let mut i: usize = from;
    assert(chars@.subrange(from as int, from as int) =~= Seq::<char>::empty());
    while i < to
        invariant
            from <= i <= to <= chars.len(),
            text == chars@.subrange(from as int, to as int),
            all_digits(text),
            match value {
                Some(n) => n == decimal_value(chars@.subrange(from as int, i as int)),
                None => decimal_value(chars@.subrange(from as int, i as int)) > u128::MAX,
            },
        decreases to - i,
    {
        let c = chars[i];
        assert(c == text[i - from]);
        let d: u128 = (c as u32 - '0' as u32) as u128;
        proof {
            let longer = chars@.subrange(from as int, i + 1);
            assert(longer.drop_last() == chars@.subrange(from as int, i as int));
            assert(longer.last() == c);
        }
        value = match value {
            Some(n) => {
                if n > (u128::MAX - d) / 10 {
                    None
                } else {
                    Some(n * 10 + d)
                }
            },
            None => None,
        };
        i += 1;
    }
    value
}

/// Whether the characters from `from` up to `to` are digits.
pub(crate) fn digits_in(chars: &Vec<char>, from: usize, to: usize) -> (r: bool)
    requires
        from <= to <= chars.len(),
    ensures
        r == all_digits(chars@.subrange(from as int, to as int)),
{
    let ghost text = chars@.subrange(from as int, to as int);
    let mut i: usize = from;
    while i < to
        invariant
            from <= i <= to <= chars.len(),
            text == chars@.subrange(from as int, to as int),
            forall|j: int| 0 <= j < i - from ==> is_digit(#[trigger] text[j]),
        decreases to - i,
    {
        assert(text[i - from] == chars@[i as int]);
        if !digit(chars[i]) {
            return false;
        }
        i += 1;
    }
    true
}

/// Reads the whole number that `text` writes, where it lies from `min` to
/// `max`.
pub(crate) fn read_integer(text: &Vec<char>, signed: bool, min: i128, max: i128) -> (r: Option<i128>)
    requires
        -0x1_0000_0000_0000_0000 <= min,
        max <= 0x1_0000_0000_0000_0000,
    ensures
        match r {
            Some(v) => integer_within(text@, signed, min as int, max as int) == Some(v as int),
            None => integer_within(text@, signed, min as int, max as int) == None::<int>,
        },
{
    let n = text.len();
    if n == 0 {
        return None;
    }
    let first = text[0];
    let negative = first == '-';
    let start: usize = if first == '+' || first == '-' {
        1
    } else {
        0
    };
    if negative && !signed {
        return None;
    }
    if start == 1 && n == 1 {
        return None;
    }
    assert(text@.subrange(start as int, n as int) =~= if start == 1 {
        text@.skip(1)
    } else {
        text@
    });
    if !digits_in(text, start, n) {
        return None;
    }
    match magnitude(text, start, n) {
        None => None,
        Some(m) => {
            if m > 0x1_0000_0000_0000_0000 {
                None
            } else {
                let v: i128 = if negative {
                    -(m as i128)
                } else {
                    m as i128
                };
                if min <= v && v <= max {
                    Some(v)
                } else {
                    None
                }
            }
        },
    }
}

/// The digit that writes `d`.
pub(crate) fn digit_of(d: u8) -> (c: char)
    requires
        d < 10,
    ensures
        c == digit_char(d as int),
{
    ('0' as u8 + d) as char
}

/// Appends the decimal digits of `n` to `out`.
pub fn write_decimal(out: &mut String, n: u128)
    ensures
        final(out)@ == old(out)@ + decimal_text(n as nat),
{
    let mut low: Vec<char> = Vec::new();
    let mut m: u128 = n;
    assert(low@.reverse() =~= Seq::<char>::empty());
    assert(decimal_text(m as nat) + Seq::<char>::empty() =~= decimal_text(m as nat));
    while m >= 10
        invariant
            decimal_text(n as nat) == decimal_text(m as nat) + low@.reverse(),
        decreases m,
    {
        let d = (m % 10) as u8;
        let c = digit_of(d);
        proof {
            let longer = low@.push(c);
            assert(longer.reverse() =~= seq![c] + low@.reverse());
            assert(decimal_text((m / 10) as nat).push(c) + low@.reverse() =~= decimal_text(
                (m / 10) as nat,
            ) + (seq![c] + low@.reverse()));
        }
        low.push(c);
        m = m / 10;
    }
    push_char(out, digit_of(m as u8));
    let mut j: usize = low.len();
    assert(low@.reverse().subrange(0, 0) =~= Seq::<char>::empty());
    while j > 0
        invariant
            j <= low.len(),
            out@ == old(out)@ + decimal_text(m as nat) + low@.reverse().subrange(
                0,
                low.len() - j,
            ),
        decreases j,
    {
        proof {
            let rev = low@.reverse();
            assert(rev.subrange(0, low.len() - j + 1) =~= rev.subrange(0, low.len() - j).push(
                low@[j - 1],
            ));
        }
        push_char(out, low[j - 1]);
        j = j - 1;
    }
    assert(low@.reverse().subrange(0, low.len() as int) =~= low@.reverse());
}

/// Appends the decimal text of `v` to `out`.
pub(crate) fn write_integer(out: &mut String, v: i128)
    requires
        v > i128::MIN,
    ensures
        final(out)@ == old(out)@ + integer_text(v as int),
{
    if v < 0 {
        push_char(out, '-');
        write_decimal(out, (-v) as u128);
        assert(old(out)@.push('-') + decimal_text((-v) as nat) =~= old(out)@ + (seq!['-']
            + decimal_text((-v) as nat)));
    } else {
        write_decimal(out, v as u128);
    }
}

} // verus!
