//! Identifiers.

use vstd::arithmetic::power::pow;
use vstd::prelude::*;

verus! {

/// A 128-bit identifier of a sensation, an impression, an experience, an
/// utterance or a generation.
#[derive(Clone, Copy, PartialEq, Eq, PartialOrd, Ord, Hash, Structural, Debug)]
pub struct Id {
    /// The bits, the first byte of the identifier uppermost.
    pub bits: u128,
}

/// The character of one hexadecimal digit, in small letters.
pub open spec fn hex_digit(d: int) -> char {
    if d < 10 {
        ((d + 48) as u32) as char
    } else {
        ((d + 87) as u32) as char
    }
}

/// The hexadecimal digit of `bits` with `k` digits behind it.
pub open spec fn nibble(bits: int, k: nat) -> int {
    (bits / pow(16, k)) % 16
}

/// Where the hyphens of a hyphenated identifier stand.
pub open spec fn is_hyphen_place(i: int) -> bool {
    i == 8 || i == 13 || i == 18 || i == 23
}

/// How many hyphens stand in front of position `i`.
pub open spec fn hyphens_before(i: int) -> int {
    if i <= 8 {
        0
    } else if i <= 13 {
        1
    } else if i <= 18 {
        2
    } else if i <= 23 {
        3
    } else {
        4
    }
}

/// The hyphenated form of an identifier: thirty-two hexadecimal digits in
/// groups of eight, four, four, four and twelve.
pub open spec fn hyphenated(id: Id) -> Seq<char> {
    Seq::new(
        36,
        |i: int|
            if is_hyphen_place(i) {
                '-'
            } else {
                hex_digit(nibble(id.bits as int, (31 - (i - hyphens_before(i))) as nat))
            },
    )
}

/// Whether an identifier is marked as a random one: its version is 4 and its
/// variant that of RFC 9562.
pub open spec fn is_random(id: Id) -> bool {
    &&& nibble(id.bits as int, 19) == 4
    &&& 8 <= nibble(id.bits as int, 15) <= 11
}

/// `uuid::Uuid::new_v4`: a random identifier. Claims only that it is marked as
/// one: its other bits are left to chance.
#[verifier::external_body]
fn random_bits() -> (bits: u128)
    ensures
        is_random(Id { bits }),
{
    uuid::Uuid::new_v4().as_u128()
}

/// `uuid::Uuid::from_u128` and its `Display`: the hyphenated form of the
/// identifier, in small letters.
#[verifier::external_body]
fn uuid_text(id: Id) -> (s: String)
    ensures
        s@ == hyphenated(id),
{
    uuid::Uuid::from_u128(id.bits).to_string()
}

/// A random identifier.
pub fn fresh_id() -> (id: Id)
    ensures
        is_random(id),
{
    Id { bits: random_bits() }
}

/// The hyphenated form of an identifier.
pub fn id_text(id: Id) -> (s: String)
    ensures
        s@ == hyphenated(id),
{
    uuid_text(id)
}

/// Tells whether an identifier is in a list.
pub fn has_id(list: &Vec<Id>, id: Id) -> (r: bool)
    ensures
        r == list@.contains(id),
{
    let mut i: usize = 0;
    while i < list.len()
        invariant
            i <= list@.len(),
            forall|k: int| 0 <= k < i ==> list@[k] != id,
        decreases list@.len() - i,
    {
        if list[i] == id {
            return true;
        }
        i += 1;
    }
    false
}

/// A copy of a list of identifiers.
pub fn copy_ids(list: &Vec<Id>) -> (r: Vec<Id>)
    ensures
        r@ == list@,
{
    let mut r: Vec<Id> = Vec::new();
    let mut i: usize = 0;
    while i < list.len()
        invariant
            i <= list@.len(),
            r@ == list@.take(i as int),
        decreases list@.len() - i,
    {
        r.push(list[i]);
        i += 1;
    }
    r
}

} // verus!
