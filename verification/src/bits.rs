//! Morton-order (Z-order) bit interleaving.
//!
//! A 64-bit code stores one 32-bit axis value in its even bit positions and
//! another in its odd bit positions, so that numeric order of the combined
//! code approximates two-dimensional locality.

use vstd::prelude::*;

verus! {

/// Bit `i` of `x` lands at bit `2 * i` of the result; every odd bit of the
/// result is zero.  The five shift-and-mask rounds are the branch-free
/// closed form of that mapping for 32-bit inputs
/// (`lemma_spread_spec_bit` states the mapping itself).
pub open spec fn spread_spec(x: u32) -> u64 {
    let r0: u64 = x as u64;
    let r1: u64 = (r0 | (r0 << 16)) & 0x0000FFFF0000FFFF;
    let r2: u64 = (r1 | (r1 << 8)) & 0x00FF00FF00FF00FF;
    let r3: u64 = (r2 | (r2 << 4)) & 0x0F0F0F0F0F0F0F0F;
    let r4: u64 = (r3 | (r3 << 2)) & 0x3333333333333333;
    (r4 | (r4 << 1)) & 0x5555555555555555
}

/// Exact inverse of `spread_spec`: bit `2 * i` of `x` lands at bit `i` of
/// the result (`lemma_squash_spec_bit`); the odd bits of `x` are ignored.
pub open spec fn squash_spec(x: u64) -> u32 {
    let r0: u64 = x & 0x5555555555555555;
    let r1: u64 = (r0 | (r0 >> 1)) & 0x3333333333333333;
    let r2: u64 = (r1 | (r1 >> 2)) & 0x0F0F0F0F0F0F0F0F;
    let r3: u64 = (r2 | (r2 >> 4)) & 0x00FF00FF00FF00FF;
    let r4: u64 = (r3 | (r3 >> 8)) & 0x0000FFFF0000FFFF;
    let r5: u64 = (r4 | (r4 >> 16)) & 0x00000000FFFFFFFF;
    r5 as u32
}

/// The interleaved code: latitude bits at even positions, longitude bits at
/// odd positions.
pub open spec fn interleave_spec(lat: u32, lng: u32) -> u64 {
    (spread_spec(lng) << 1) | spread_spec(lat)
}

/// Where each input bit of `spread_spec` ends up: bit `i` of `x` is bit
/// `2 * i` of the spread value, and every odd bit of the spread value is
/// zero.
pub proof fn lemma_spread_spec_bit(x: u32, i: u64)
    by (bit_vector)
    requires
        i < 32,
    ensures
        (spread_spec(x) >> ((2 * i) as u64)) & 1 == (((x >> (i as u32)) & 1) as u64),
        (spread_spec(x) >> ((2 * i + 1) as u64)) & 1 == 0,
{
}

/// Where each output bit of `squash_spec` comes from: bit `i` of the
/// squashed value is bit `2 * i` of `x`.
pub proof fn lemma_squash_spec_bit(x: u64, i: u64)
    by (bit_vector)
    requires
        i < 32,
    ensures
        (squash_spec(x) >> (i as u32)) & 1 == (((x >> ((2 * i) as u64)) & 1) as u32),
{
}

/// Squashing an interleaved code recovers both axis values exactly: for all
/// 32-bit `lat` and `lng`, deinterleaving `interleave_spec(lat, lng)` yields
/// `lat` from the even positions and `lng` from the odd positions.
pub proof fn lemma_interleave_round_trip(lat: u32, lng: u32)
    by (bit_vector)
    ensures
        squash_spec(interleave_spec(lat, lng)) == lat,
        squash_spec(interleave_spec(lat, lng) >> 1) == lng,
{
}

/// Interleaving is onto: every 64-bit value is the interleaving of its even
/// bits and its odd bits.  Together with `lemma_interleave_round_trip` this
/// makes interleaving a bijection between pairs of 32-bit values and 64-bit
/// codes.
pub proof fn lemma_interleave_reconstruct(hash: u64)
    by (bit_vector)
    ensures
        interleave_spec(squash_spec(hash), squash_spec(hash >> 1)) == hash,
{
}

fn spread(x: u32) -> (r: u64)
    ensures
        r == spread_spec(x),
{
    let r0: u64 = x as u64;
    let r1: u64 = (r0 | (r0 << 16)) & 0x0000FFFF0000FFFF;
    let r2: u64 = (r1 | (r1 << 8)) & 0x00FF00FF00FF00FF;
    let r3: u64 = (r2 | (r2 << 4)) & 0x0F0F0F0F0F0F0F0F;
    let r4: u64 = (r3 | (r3 << 2)) & 0x3333333333333333;
    (r4 | (r4 << 1)) & 0x5555555555555555
}

/// Interleaves two 32-bit axis values into one 64-bit Morton code, with
/// `lat` at the even bit positions and `lng` at the odd ones.
pub fn interleave64(lat: u32, lng: u32) -> (r: u64)
    ensures
        r == interleave_spec(lat, lng),
{
    (spread(lng) << 1) | spread(lat)
}

fn squash(x: u64) -> (r: u32)
    ensures
        r == squash_spec(x),
{
    let r0: u64 = x & 0x5555555555555555;
    let r1: u64 = (r0 | (r0 >> 1)) & 0x3333333333333333;
    let r2: u64 = (r1 | (r1 >> 2)) & 0x0F0F0F0F0F0F0F0F;
    let r3: u64 = (r2 | (r2 >> 4)) & 0x00FF00FF00FF00FF;
    let r4: u64 = (r3 | (r3 >> 8)) & 0x0000FFFF0000FFFF;
    let r5: u64 = (r4 | (r4 >> 16)) & 0x00000000FFFFFFFF;
    r5 as u32
}

/// Splits a 64-bit Morton code back into its two 32-bit axis values,
/// returned as `(lng, lat)`: the odd bits first, the even bits second.
/// The result is exact: re-interleaving it gives back `hash`.
pub fn deinterleave64(hash: u64) -> (r: (u32, u32))
    ensures
        r.0 == squash_spec(hash >> 1),
        r.1 == squash_spec(hash),
        interleave_spec(r.1, r.0) == hash,
{
    proof {
        lemma_interleave_reconstruct(hash);
    }
    (squash(hash >> 1), squash(hash))
}

} // verus!
