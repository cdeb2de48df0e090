//! Numbers as they stand in JSON, asked of serde_json.

use vstd::prelude::*;

use crate::text::optional;

verus! {

/// What serde_json's `Number::as_f64` makes of a number's text, written with so
/// many places; none where the text is no number that it can hold.
pub uninterp spec fn fixed(number: Seq<char>, places: nat) -> Option<Seq<char>>;

/// The bits of the double that serde_json's `Number::as_f64` makes of a number's
/// text; none where the text is no number that it can hold.
pub uninterp spec fn double_bits(number: Seq<char>) -> Option<u64>;

/// The bit that a double has set where it is negative.
pub const SIGN_BIT: u64 = 0x8000_0000_0000_0000;

/// The place of a finite double among the doubles, by its bits: both zeros are in
/// the middle.
pub open spec fn double_rank(bits: u64) -> int {
    if bits < SIGN_BIT {
        bits as int
    } else {
        SIGN_BIT - bits
    }
}

/// Whether two texts are numbers, and the first is no more than the second.
pub open spec fn is_at_most(a: Seq<char>, b: Seq<char>) -> bool {
    match (double_bits(a), double_bits(b)) {
        (Some(x), Some(y)) => double_rank(x) <= double_rank(y),
        _ => false,
    }
}

/// serde_json's `Number::as_f64` on a number's text, and the formatting of what
/// it gives with so many places. Claims that the result depends on the text and
/// the places alone.
#[verifier::external_body]
pub(crate) fn fixed_text(number: &str, places: usize) -> (r: Option<String>)
    requires
        places <= 20,
    ensures
        optional(r) == fixed(number@, places as nat),
{
    match serde_json::from_str::<serde_json::Number>(number) {
        Ok(value) => value.as_f64().map(|x| format!("{x:.places$}")),
        Err(_) => None,
    }
}

/// serde_json's `Number::as_f64` on a number's text, as the bits of the double,
/// which serde_json promises to be finite. Claims that they depend on the text
/// alone.
#[verifier::external_body]
fn read_double(number: &str) -> (r: Option<u64>)
    ensures
        r == double_bits(number@),
{
    let read = serde_json::from_str::<serde_json::Number>(number).ok()?;
    read.as_f64().map(|x| x.to_bits())
}

/// The place of a finite double among the doubles.
fn rank_of(bits: u64) -> (rank: i128)
    ensures
        rank == double_rank(bits),
{
    if bits < SIGN_BIT {
        bits as i128
    } else {
        -((bits - SIGN_BIT) as i128)
    }
}

/// Tells whether two texts are numbers, and the first is no more than the second.
pub(crate) fn at_most(a: &str, b: &str) -> (r: bool)
    ensures
        r == is_at_most(a@, b@),
{
    match (read_double(a), read_double(b)) {
        (Some(x), Some(y)) => rank_of(x) <= rank_of(y),
        _ => false,
    }
}

/// A power of two.
pub open spec fn two_to(n: nat) -> nat
    decreases n,
{
    if n == 0 {
        1
    } else {
        2 * two_to((n - 1) as nat)
    }
}

/// How often a unit goes into a number, to the nearest; of two that are as near,
/// the even one.
pub open spec fn to_nearest(n: nat, unit: nat) -> nat {
    let rest = 2 * (n % unit);
    if rest < unit || (rest == unit && (n / unit) % 2 == 0) {
        n / unit
    } else {
        n / unit + 1
    }
}

/// The place, counted from zero up, of the single that is nearest to a finite
/// double that is not negative, given by the double's bits. The last place is that
/// of infinity.
pub open spec fn single_place(bits: nat) -> nat {
    let exponent = bits / 0x10_0000_0000_0000;
    let significand = bits % 0x10_0000_0000_0000 + 0x10_0000_0000_0000;
    if exponent >= 897 {
        let place = to_nearest(bits, 0x2000_0000) - 0x1_c000_0000;
        if place > 0x7f80_0000 {
            0x7f80_0000
        } else {
            place as nat
        }
    } else if exponent >= 873 {
        to_nearest(significand, two_to((926 - exponent) as nat))
    } else {
        0
    }
}

/// The place of the single that is nearest to a finite double among the singles:
/// both zeros are in the middle.
pub open spec fn single_rank(bits: u64) -> int {
    if bits < SIGN_BIT {
        single_place(bits as nat) as int
    } else {
        -(single_place((bits - SIGN_BIT) as nat) as int)
    }
}

/// Whether two texts are numbers, and the first, in single precision, is no more
/// than the second.
pub open spec fn is_at_most_single(a: Seq<char>, b: Seq<char>) -> bool {
    match (double_bits(a), double_bits(b)) {
        (Some(x), Some(y)) => single_rank(x) <= single_rank(y),
        _ => false,
    }
}

proof fn lemma_two_to(n: nat)
    requires
        n <= 53,
    ensures
        1 <= two_to(n) <= 0x20_0000_0000_0000,
{
    reveal_with_fuel(two_to, 54);
}

/// A power of two.
fn power_of_two(n: u64) -> (r: u64)
    requires
        n <= 53,
    ensures
        r == two_to(n as nat),
{
    let mut r: u64 = 1;
    let mut i: u64 = 0;
    while i < n
        invariant
            i <= n <= 53,
            r == two_to(i as nat),
        decreases n - i,
    {
        proof {
            lemma_two_to(i as nat);
        }
        r = 2 * r;
        i += 1;
    }
    r
}

/// How often a unit goes into a number, to the nearest.
fn nearest(n: u64, unit: u64) -> (r: u64)
    requires
        0 < unit <= 0x20_0000_0000_0000,
        n < u64::MAX,
    ensures
        r == to_nearest(n as nat, unit as nat),
        r <= n / unit + 1,
{
    let whole: u64 = n / unit;
    let rest: u64 = 2 * (n % unit);
    proof {
        assert(whole <= n) by (nonlinear_arith)
            requires
                whole == n / unit,
                unit > 0,
        ;
    }
    if rest < unit || (rest == unit && whole % 2 == 0) {
        whole
    } else {
        whole + 1
    }
}

/// The place of the single that is nearest to a double that is not negative.
fn place_of(bits: u64) -> (place: u64)
    requires
        bits < SIGN_BIT,
    ensures
        place == single_place(bits as nat),
{
    let exponent: u64 = bits / 0x10_0000_0000_0000;
    if exponent >= 897 {
        let place: u64 = nearest(bits, 0x2000_0000) - 0x1_c000_0000;
        if place > 0x7f80_0000 {
            0x7f80_0000
        } else {
            place
        }
    } else if exponent >= 873 {
        proof {
            lemma_two_to((926 - exponent) as nat);
        }
        let significand: u64 = bits % 0x10_0000_0000_0000 + 0x10_0000_0000_0000;
        nearest(significand, power_of_two(926 - exponent))
    } else {
        0
    }
}

fn single_rank_of(bits: u64) -> (rank: i128)
    ensures
        rank == single_rank(bits),
{
    if bits < SIGN_BIT {
        place_of(bits) as i128
    } else {
        -(place_of(bits - SIGN_BIT) as i128)
    }
}

/// Tells whether two texts are numbers, and the first, in single precision, is no
/// more than the second.
pub(crate) fn at_most_single(a: &str, b: &str) -> (r: bool)
    ensures
        r == is_at_most_single(a@, b@),
{
    match (read_double(a), read_double(b)) {
        (Some(x), Some(y)) => single_rank_of(x) <= single_rank_of(y),
        _ => false,
    }
}

} // verus!
