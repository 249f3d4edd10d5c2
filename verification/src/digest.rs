//! Digests as text.
use vstd::prelude::*;

use crate::outside::{hex_of, hex_text, sha256, sha256_of};

verus! {

/// The SHA-256 digest of bytes, in hexadecimal notation.
pub fn sha256_hex(bytes: &[u8]) -> (r: String)
    ensures
        r@ == hex_of(sha256_of(bytes@)),
{
    hex_text(&sha256(bytes))
}

/// The first twelve bytes of a digest, in hexadecimal notation.
pub fn short_hex(digest: &Vec<u8>) -> (r: String)
    requires
        digest@.len() >= 12,
    ensures
        r@ == hex_of(digest@.take(12)),
{
    assert(digest@.take(12) =~= digest@.subrange(0, 12));
    hex_text(vstd::slice::slice_subrange(digest.as_slice(), 0, 12))
}

/// The first twelve bytes of the SHA-256 digest of bytes, in hexadecimal notation.
pub fn short_digest(bytes: &[u8]) -> (r: String)
    ensures
        r@ == hex_of(sha256_of(bytes@).take(12)),
{
    short_hex(&sha256(bytes))
}

/// Puts bytes behind a list of bytes.
pub fn push_bytes(list: &mut Vec<u8>, more: &[u8])
    ensures
        final(list)@ == old(list)@ + more@,
{
    let ghost had = list@;
    let mut i: usize = 0;
    assert(had + more@.take(0) =~= had);
    while i < more.len()
        invariant
            i <= more@.len(),
            list@ == had + more@.take(i as int),
        decreases more@.len() - i,
    {
        list.push(more[i]);
        assert(more@.take(i + 1) =~= more@.take(i as int).push(more@[i as int]));
        i += 1;
    }
    assert(more@.take(i as int) =~= more@);
}

/// The lowest `count` bytes of a number, the lowest first.
pub open spec fn low_bytes(n: nat, count: nat) -> Seq<u8>
    decreases count,
{
    if count == 0 {
        Seq::empty()
    } else {
        seq![(n % 256) as u8] + low_bytes(n / 256, (count - 1) as nat)
    }
}

/// A number of 64 bits in two's complement, the lowest byte first.
pub open spec fn le_bytes(n: i64) -> Seq<u8> {
    low_bytes(
        if n < 0 {
            (n + 0x1_0000_0000_0000_0000) as nat
        } else {
            n as nat
        },
        8,
    )
}

/// Puts a number of 64 bits behind a list of bytes, the lowest byte first.
pub fn push_number(list: &mut Vec<u8>, n: i64)
    ensures
        final(list)@ == old(list)@ + le_bytes(n),
{
    let whole: i128 = if n < 0 {
        (n as i128) + 0x1_0000_0000_0000_0000
    } else {
        n as i128
    };
    let mut rest: u128 = whole as u128;
    let mut left: u8 = 8;
    let ghost had = list@;
    let ghost goal = had + le_bytes(n);
    assert(list@ + low_bytes(rest as nat, left as nat) =~= goal);
    while left > 0
        invariant
            left <= 8,
            list@ + low_bytes(rest as nat, left as nat) == goal,
        decreases left,
    {
        let ghost before = list@;
        list.push((rest % 256) as u8);
        assert(before + (seq![(rest % 256) as u8] + low_bytes((rest / 256) as nat, (left - 1) as nat))
            =~= list@ + low_bytes((rest / 256) as nat, (left - 1) as nat));
        rest = rest / 256;
        left -= 1;
    }
    assert(list@ + Seq::<u8>::empty() =~= list@);
}

/// The number that bytes stand for, the lowest first.
pub open spec fn number_of(bytes: Seq<u8>) -> nat
    decreases bytes.len(),
{
    if bytes.len() == 0 {
        0
    } else {
        (bytes[0] as nat + 256 * number_of(bytes.drop_first())) as nat
    }
}

proof fn lemma_low_bytes(n: nat, count: nat, bound: nat)
    requires
        count <= 8,
        bound == if count == 0 {
            1nat
        } else if count == 1 {
            0x100
        } else if count == 2 {
            0x1_0000
        } else if count == 3 {
            0x100_0000
        } else if count == 4 {
            0x1_0000_0000
        } else if count == 5 {
            0x100_0000_0000
        } else if count == 6 {
            0x1_0000_0000_0000
        } else if count == 7 {
            0x100_0000_0000_0000
        } else {
            0x1_0000_0000_0000_0000
        },
        n < bound,
    ensures
        low_bytes(n, count).len() == count,
        number_of(low_bytes(n, count)) == n,
    decreases count,
{
    if count > 0 {
        let smaller = (bound / 256) as nat;
        lemma_low_bytes(n / 256, (count - 1) as nat, smaller);
        let bytes = low_bytes(n, count);
        assert(bytes.drop_first() =~= low_bytes(n / 256, (count - 1) as nat));
        assert(bytes[0] as nat == n % 256);
    }
}

/// A number of 64 bits takes eight bytes, from which it is read back: itself, or where it
/// is below zero, as the same number above by as many as there are numbers of 64 bits.
pub proof fn law_numbers_are_read_back(n: i64)
    ensures
        le_bytes(n).len() == 8,
        n >= 0 ==> number_of(le_bytes(n)) == n,
        n < 0 ==> number_of(le_bytes(n)) == n + 0x1_0000_0000_0000_0000,
{
    let up = if n < 0 {
        (n + 0x1_0000_0000_0000_0000) as nat
    } else {
        n as nat
    };
    lemma_low_bytes(up, 8, 0x1_0000_0000_0000_0000);
}

} // verus!
