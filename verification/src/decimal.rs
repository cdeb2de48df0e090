//! Decimal numbers as text.

use vstd::prelude::*;
use vstd::string::*;

use crate::text::chars_of;

verus! {

/// The character of one decimal digit.
pub open spec fn digit(d: nat) -> char {
    ((d + 48) as u32) as char
}

/// `n` in decimal digits, without leading zeros.
pub open spec fn decimal(n: nat) -> Seq<char>
    decreases n,
{
    if n < 10 {
        seq![digit(n)]
    } else {
        decimal(n / 10).push(digit(n % 10))
    }
}

/// `n` in decimal digits, with zeros in front up to `width` digits.
pub open spec fn padded(n: nat, width: nat) -> Seq<char> {
    let text = decimal(n);
    if text.len() < width {
        Seq::new((width - text.len()) as nat, |i: int| '0') + text
    } else {
        text
    }
}

/// `millis` thousandths in seconds, with three places behind the point and
/// zeros in front up to six characters.
pub open spec fn seconds(millis: int) -> Seq<char> {
    if millis < 0 {
        seq!['-'] + decimal(((-millis) / 1000) as nat) + seq!['.'] + padded(
            ((-millis) % 1000) as nat,
            3,
        )
    } else {
        padded((millis / 1000) as nat, 2) + seq!['.'] + padded((millis % 1000) as nat, 3)
    }
}

/// Whether `c` is a decimal digit.
pub open spec fn is_digit(c: char) -> bool {
    '0' <= c <= '9'
}

/// The number that a sequence of digits stands for.
pub open spec fn digits_value(s: Seq<char>) -> nat
    decreases s.len(),
{
    if s.len() == 0 {
        0
    } else {
        10 * digits_value(s.drop_last()) + ((s.last() as u32) - 48) as nat
    }
}

/// Whether nothing but decimal digits is in `s`.
pub open spec fn all_digits(s: Seq<char>) -> bool {
    forall|i: int| 0 <= i < s.len() ==> is_digit(#[trigger] s[i])
}

/// `s` without a plus sign in front.
pub open spec fn without_plus(s: Seq<char>) -> Seq<char> {
    if s.len() > 0 && s[0] == '+' {
        s.drop_first()
    } else {
        s
    }
}

/// The number that a text stands for: digits, with a plus sign in front or
/// none.
pub open spec fn unsigned_value(s: Seq<char>) -> Option<nat> {
    if without_plus(s).len() > 0 && all_digits(without_plus(s)) {
        Some(digits_value(without_plus(s)))
    } else {
        None
    }
}

/// The number that a text stands for, where it is at most `max`.
pub open spec fn unsigned_upto(s: Seq<char>, max: nat) -> Option<nat> {
    match unsigned_value(s) {
        Some(n) => if n <= max {
            Some(n)
        } else {
            None
        },
        None => None,
    }
}

/// More digits make no smaller number.
proof fn lemma_digits_grow(s: Seq<char>, n: int)
    requires
        0 <= n <= s.len(),
        all_digits(s),
    ensures
        digits_value(s.take(n)) <= digits_value(s),
    decreases s.len(),
{
    if n == s.len() {
        assert(s.take(n) =~= s);
    } else {
        assert(s.drop_last().take(n) =~= s.take(n));
        assert forall|i: int| 0 <= i < s.drop_last().len() implies is_digit(
            #[trigger] s.drop_last()[i],
        ) by {
            assert(s.drop_last()[i] == s[i]);
        }
        lemma_digits_grow(s.drop_last(), n);
        assert(is_digit(s[s.len() - 1]));
    }
}

/// The digits of a number are read as that number.
pub proof fn lemma_decimal_reads_back(n: nat)
    ensures
        unsigned_value(decimal(n)) == Some(n),
{
    lemma_decimal_digits(n);
    assert(is_digit(decimal(n)[0]));
}

proof fn lemma_decimal_digits(n: nat)
    ensures
        decimal(n).len() > 0,
        all_digits(decimal(n)),
        digits_value(decimal(n)) == n,
    decreases n,
{
    if n < 10 {
        assert(decimal(n).drop_last() =~= Seq::<char>::empty());
        assert(digits_value(Seq::<char>::empty()) == 0);
    } else {
        lemma_decimal_digits(n / 10);
        assert(decimal(n).drop_last() =~= decimal(n / 10));
        assert forall|i: int| 0 <= i < decimal(n).len() implies is_digit(#[trigger] decimal(n)[i]) by {
            if i < decimal(n / 10).len() {
                assert(decimal(n)[i] == decimal(n / 10)[i]);
            }
        }
    }
}

/// The digits of `n`, appended to a text.
fn push_decimal(out: &mut String, n: u128)
    ensures
        final(out)@ == old(out)@ + decimal(n as nat),
    decreases n,
{
    if n >= 10 {
        push_decimal(out, n / 10);
    }
    let d: u8 = (n % 10) as u8;
    out.push((48 + d) as char);
    proof {
        if n < 10 {
            assert(old(out)@.push(digit(n as nat)) =~= old(out)@ + decimal(n as nat));
        } else {
            assert((old(out)@ + decimal((n / 10) as nat)).push(digit((n % 10) as nat)) =~= old(out)@
                + decimal(n as nat));
        }
    }
}

/// `n` in decimal digits.
pub fn decimal_text(n: u128) -> (s: String)
    ensures
        s@ == decimal(n as nat),
{
    let mut s = String::new();
    push_decimal(&mut s, n);
    assert(s@ =~= decimal(n as nat));
    s
}

/// `n` in decimal digits, with zeros in front up to `width` digits.
pub fn padded_text(n: u128, width: usize) -> (s: String)
    ensures
        s@ == padded(n as nat, width as nat),
{
    let digits = decimal_text(n);
    let len: usize = digits.as_str().unicode_len();
    let mut s = String::new();
    let mut i: usize = len;
    while i < width
        invariant
            len == digits@.len(),
            len <= i,
            i <= width || i == len,
            s@ == Seq::new((i - len) as nat, |k: int| '0'),
        decreases width - i,
    {
        s.push('0');
        i += 1;
        assert(s@ =~= Seq::new((i - len) as nat, |k: int| '0'));
    }
    s.push_str(digits.as_str());
    assert(s@ =~= padded(n as nat, width as nat));
    s
}

/// `millis` thousandths as seconds with three places.
pub fn seconds_text(millis: i64) -> (s: String)
    ensures
        s@ == seconds(millis as int),
{
    let mut s = String::new();
    if millis < 0 {
        let wide: i128 = -(millis as i128);
        let magnitude: u128 = wide as u128;
        s.push('-');
        s.push_str(decimal_text(magnitude / 1000).as_str());
        s.push('.');
        s.push_str(padded_text(magnitude % 1000, 3).as_str());
    } else {
        let magnitude: u128 = millis as u128;
        s.push_str(padded_text(magnitude / 1000, 2).as_str());
        s.push('.');
        s.push_str(padded_text(magnitude % 1000, 3).as_str());
    }
    assert(s@ =~= seconds(millis as int));
    s
}

/// Reads an unsigned number of at most `max`.
pub fn parse_unsigned(s: &str, max: u64) -> (r: Option<u64>)
    ensures
        match r {
            Some(n) => unsigned_upto(s@, max as nat) == Some(n as nat),
            None => unsigned_upto(s@, max as nat) is None,
        },
{
    let chars = chars_of(s);
    let start: usize = if chars.len() > 0 && chars[0] == '+' {
        1
    } else {
        0
    };
    if start == chars.len() {
        return None;
    }
    let ghost digits = without_plus(s@);
    let mut value: u128 = 0;
    let mut i: usize = start;
    assert(digits.take(0) =~= Seq::<char>::empty());
    while i < chars.len()
        invariant
            start <= i <= chars@.len(),
            chars@ == s@,
            digits.len() == chars@.len() - start,
            forall|k: int| 0 <= k < digits.len() ==> #[trigger] digits[k] == chars@[k + start],
            forall|k: int| 0 <= k < i - start ==> is_digit(#[trigger] digits[k]),
            value == digits_value(digits.take(i - start)),
            value <= max,
            digits == without_plus(s@),
            digits.len() > 0,
        decreases chars@.len() - i,
    {
        let c = chars[i];
        assert(digits[i - start] == c);
        if !('0' <= c && c <= '9') {
            return None;
        }
        let d: u32 = c as u32 - 48;
        let ghost upto = digits.take(i - start + 1);
        assert(upto.drop_last() =~= digits.take(i - start));
        assert(upto.last() == c);
        value = value * 10 + d as u128;
        if value > max as u128 {
            proof {
                if unsigned_value(s@) is Some {
                    lemma_digits_grow(digits, i - start + 1);
                }
            }
            return None;
        }
        i += 1;
    }
    assert(digits.take(i - start) =~= digits);
    Some(value as u64)
}

proof fn lemma_zeros_in_front(k: nat, text: Seq<char>)
    requires
        all_digits(text),
    ensures
        digits_value(Seq::new(k, |i: int| '0') + text) == digits_value(text),
        all_digits(Seq::new(k, |i: int| '0') + text),
    decreases k + text.len(),
{
    let zeros = Seq::new(k, |i: int| '0');
    let s = zeros + text;
    assert forall|i: int| 0 <= i < s.len() implies is_digit(#[trigger] s[i]) by {
        if i >= k {
            assert(s[i] == text[i - k]);
        }
    }
    if text.len() > 0 {
        let front = text.drop_last();
        assert forall|i: int| 0 <= i < front.len() implies is_digit(#[trigger] front[i]) by {
            assert(front[i] == text[i]);
        }
        lemma_zeros_in_front(k, front);
        assert(s.drop_last() =~= zeros + front);
        assert(s.last() == text.last());
    } else if k > 0 {
        lemma_zeros_in_front((k - 1) as nat, text);
        assert(s.drop_last() =~= Seq::new((k - 1) as nat, |i: int| '0') + text);
        assert(s.last() == '0');
        assert(digits_value(text) == 0);
    }
}

/// A number with zeros in front is the same number, in so many digits at least.
pub proof fn law_padding_keeps_the_number(n: nat, width: nat)
    ensures
        all_digits(padded(n, width)),
        digits_value(padded(n, width)) == n,
        padded(n, width).len() >= width,
        padded(n, width).len() > width ==> padded(n, width) == decimal(n),
{
    lemma_decimal_digits(n);
    let text = decimal(n);
    if text.len() < width {
        lemma_zeros_in_front((width - text.len()) as nat, text);
    }
}

/// Seconds are told with a point before the thousandths, which have three digits:
/// what is before the point and what is behind it make up the number.
pub proof fn law_seconds_tell_the_thousandths(millis: nat)
    ensures
        exists|whole: Seq<char>, rest: Seq<char>|
            seconds(millis as int) == #[trigger] (whole + seq!['.'] + rest) && whole.len() >= 2
                && all_digits(whole) && all_digits(rest) && digits_value(whole) * 1000
                + digits_value(rest) == millis && digits_value(rest) < 1000 && rest.len() >= 3,
        millis > 0 ==> seconds(-(millis as int)) == seq!['-'] + decimal((millis / 1000) as nat) + seq![
            '.',
        ] + padded((millis % 1000) as nat, 3),
{
    law_padding_keeps_the_number((millis / 1000) as nat, 2);
    law_padding_keeps_the_number((millis % 1000) as nat, 3);
    let whole = padded((millis / 1000) as nat, 2);
    let rest = padded((millis % 1000) as nat, 3);
    assert(seconds(millis as int) == whole + seq!['.'] + rest);
}

} // verus!
