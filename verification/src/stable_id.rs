//! Identifiers that are drawn from what they identify.

use vstd::prelude::*;

use crate::digest::{sha256, sha256_digest};
use crate::ident::Id;

verus! {

/// The lowest `count` bytes of a number, the highest first.
pub open spec fn big_endian_bytes(n: nat, count: nat) -> Seq<u8>
    decreases count,
{
    if count == 0 {
        Seq::empty()
    } else {
        big_endian_bytes(n / 256, (count - 1) as nat).push((n % 256) as u8)
    }
}

/// The lowest `count` bytes of a number, the lowest first.
pub open spec fn little_endian_bytes(n: nat, count: nat) -> Seq<u8>
    decreases count,
{
    if count == 0 {
        Seq::empty()
    } else {
        seq![(n % 256) as u8] + little_endian_bytes(n / 256, (count - 1) as nat)
    }
}

/// The number that some bytes write, the highest first.
pub open spec fn big_endian(bytes: Seq<u8>) -> nat
    decreases bytes.len(),
{
    if bytes.len() == 0 {
        0
    } else {
        big_endian(bytes.drop_last()) * 256 + bytes.last() as nat
    }
}

/// How many numbers so many bytes can write.
pub open spec fn room(count: nat) -> nat
    decreases count,
{
    if count == 0 {
        1
    } else {
        256 * room((count - 1) as nat)
    }
}

proof fn lemma_big_endian_room(bytes: Seq<u8>)
    ensures
        big_endian(bytes) < room(bytes.len()),
    decreases bytes.len(),
{
    if bytes.len() > 0 {
        lemma_big_endian_room(bytes.drop_last());
    }
}

proof fn lemma_room_grows(a: nat, b: nat)
    requires
        a <= b,
    ensures
        room(a) <= room(b),
    decreases b,
{
    if a < b {
        lemma_room_grows(a, (b - 1) as nat);
    }
}

proof fn lemma_sixteen_bytes()
    ensures
        room(16) == 0x1_0000_0000_0000_0000_0000_0000_0000_0000int,
{
    reveal_with_fuel(room, 17);
}

fn push_big_endian(out: &mut Vec<u8>, n: u128, count: usize)
    ensures
        final(out)@ == old(out)@ + big_endian_bytes(n as nat, count as nat),
    decreases count,
{
    if count == 0 {
        assert(out@ =~= old(out)@ + big_endian_bytes(n as nat, 0));
    } else {
        push_big_endian(out, n / 256, count - 1);
        let ghost front = out@;
        out.push((n % 256) as u8);
        assert(out@ =~= old(out)@ + big_endian_bytes(n as nat, count as nat));
    }
}

/// The bytes of an identifier.
pub open spec fn id_bytes(id: Id) -> Seq<u8> {
    big_endian_bytes(id.bits as nat, 16)
}

/// Appends the bytes of an identifier.
pub fn push_id(out: &mut Vec<u8>, id: Id)
    ensures
        final(out)@ == old(out)@ + id_bytes(id),
{
    push_big_endian(out, id.bits, 16);
}

/// Appends the bytes of a number, the lowest first.
pub fn push_little_endian(out: &mut Vec<u8>, n: u64, count: usize)
    ensures
        final(out)@ == old(out)@ + little_endian_bytes(n as nat, count as nat),
{
    let ghost start = out@;
    let ghost whole = little_endian_bytes(n as nat, count as nat);
    let mut left: u64 = n;
    let mut i: usize = 0;
    assert(out@ + whole =~= start + whole);
    while i < count
        invariant
            i <= count,
            out@ + little_endian_bytes(left as nat, (count - i) as nat) == start + whole,
        decreases count - i,
    {
        let ghost before = out@;
        let ghost rest = little_endian_bytes((left / 256) as nat, (count - i - 1) as nat);
        out.push((left % 256) as u8);
        assert(before + (seq![(left % 256) as u8] + rest) =~= out@ + rest);
        left = left / 256;
        i += 1;
    }
    assert(out@ + little_endian_bytes(left as nat, 0) =~= out@);
}

/// Appends bytes.
pub fn push_bytes(out: &mut Vec<u8>, bytes: &[u8])
    ensures
        final(out)@ == old(out)@ + bytes@,
{
    let ghost start = out@;
    let mut i: usize = 0;
    while i < bytes.len()
        invariant
            i <= bytes@.len(),
            out@ == start + bytes@.take(i as int),
        decreases bytes@.len() - i,
    {
        out.push(bytes[i]);
        assert(out@ =~= start + bytes@.take(i + 1));
        i += 1;
    }
    assert(bytes@.take(i as int) =~= bytes@);
}

/// The first sixteen bytes of a digest, marked as those of a random identifier.
pub open spec fn stamped(digest: Seq<u8>) -> Seq<u8> {
    digest.take(16).update(6, (64 + digest[6] % 16) as u8).update(8, (128 + digest[8] % 64) as u8)
}

/// The identifier that is drawn from some bytes.
pub open spec fn drawn_id(bytes: Seq<u8>) -> Id {
    Id { bits: big_endian(stamped(sha256(bytes))) as u128 }
}

/// Draws an identifier from some bytes.
pub fn draw_id(bytes: &[u8]) -> (id: Id)
    ensures
        id == drawn_id(bytes@),
{
    let digest = sha256_digest(bytes);
    let ghost whole = stamped(digest@);
    let mut bits: u128 = 0;
    let mut i: usize = 0;
    assert(whole.take(0) =~= Seq::<u8>::empty());
    while i < 16
        invariant
            i <= 16,
            digest@.len() == 32,
            whole == stamped(digest@),
            bits == big_endian(whole.take(i as int)),
        decreases 16 - i,
    {
        let byte: u8 = if i == 6 {
            64 + digest[6] % 16
        } else if i == 8 {
            128 + digest[8] % 64
        } else {
            digest[i]
        };
        proof {
            assert(whole[i as int] == byte);
            assert(whole.take(i + 1).drop_last() =~= whole.take(i as int));
            assert(whole.take(i + 1).last() == byte);
            lemma_big_endian_room(whole.take(i + 1));
            lemma_room_grows((i + 1) as nat, 16);
            lemma_sixteen_bytes();
        }
        bits = bits * 256 + byte as u128;
        i += 1;
    }
    assert(whole.take(16) =~= whole);
    Id { bits }
}

/// A number that fits is read back from its bytes, the highest first; written the
/// lowest first, the bytes are the same in the other order.
pub proof fn law_number_is_read_back_from_its_bytes(n: nat, count: nat)
    ensures
        big_endian_bytes(n, count).len() == count,
        n < room(count) ==> big_endian(big_endian_bytes(n, count)) == n,
        little_endian_bytes(n, count) == big_endian_bytes(n, count).reverse(),
    decreases count,
{
    if count > 0 {
        let less = (count - 1) as nat;
        law_number_is_read_back_from_its_bytes(n / 256, less);
        let bytes = big_endian_bytes(n, count);
        let front = big_endian_bytes(n / 256, less);
        assert(bytes.drop_last() =~= front);
        assert(bytes.last() == (n % 256) as u8);
        assert(little_endian_bytes(n, count) =~= bytes.reverse());
    } else {
        assert(little_endian_bytes(n, count) =~= big_endian_bytes(n, count).reverse());
    }
}

/// Of a digest, an identifier keeps the first sixteen bytes, but for the four bits
/// that say its version and the two that say its variant.
pub proof fn law_identifier_keeps_the_digest(digest: Seq<u8>)
    requires
        digest.len() >= 16,
    ensures
        stamped(digest).len() == 16,
        forall|i: int|
            0 <= i < 16 && i != 6 && i != 8 ==> #[trigger] stamped(digest)[i] == digest[i],
        stamped(digest)[6] / 16 == 4,
        stamped(digest)[6] % 16 == digest[6] % 16,
        stamped(digest)[8] / 64 == 2,
        stamped(digest)[8] % 64 == digest[8] % 64,
{
}

} // verus!
