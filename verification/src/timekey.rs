use vstd::prelude::*;

verus! {

/// The place of a sign-and-magnitude bit pattern among the numbers that such
/// patterns stand for: a pattern with the top bit clear stands at its
/// magnitude, from zero up; one with the top bit set stands below zero, the
/// further the greater its magnitude. Binary64 numbers are such patterns, and
/// their order, with minus zero just below zero, is the order of their places.
pub open spec fn signed_rank(bits: u64) -> int {
    if bits < 0x8000_0000_0000_0000 {
        bits as int
    } else {
        0x7fff_ffff_ffff_ffff - bits
    }
}

/// The key of a bit pattern: its place, shifted so that the lowest is zero.
pub open spec fn key_of_bits(bits: u64) -> u64 {
    (signed_rank(bits) + 0x8000_0000_0000_0000) as u64
}

/// The time key of the number with the bit pattern `bits`: an integer that
/// orders as the numbers do.
pub fn time_key(bits: u64) -> (key: u64)
    ensures
        key == key_of_bits(bits),
        key == signed_rank(bits) + 0x8000_0000_0000_0000,
{
    if bits < 0x8000_0000_0000_0000 {
        bits + 0x8000_0000_0000_0000
    } else {
        0xffff_ffff_ffff_ffff - bits
    }
}

/// The bit pattern whose time key is `key`.
pub fn key_bits(key: u64) -> (bits: u64)
    ensures
        key_of_bits(bits) == key,
{
    if key >= 0x8000_0000_0000_0000 {
        key - 0x8000_0000_0000_0000
    } else {
        0xffff_ffff_ffff_ffff - key
    }
}

/// Keys order as the places of their patterns do, and no two patterns share
/// a key.
pub proof fn lemma_time_key_orders(a: u64, b: u64)
    ensures
        key_of_bits(a) < key_of_bits(b) <==> signed_rank(a) < signed_rank(b),
        key_of_bits(a) == key_of_bits(b) <==> a == b,
{
}

} // verus!
