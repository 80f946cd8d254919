//! Fixed pseudo-random hash keys.
//!
//! Every hashed feature of a position (a piece of a given type and side on a
//! given square, the castling-rights mask, the en-passant target, the side to
//! move) owns one 64-bit key.  The keys are produced by a deterministic
//! add-xorshift-multiply mix of the feature's index, so the whole table is a
//! pure function and never needs to be stored or seeded at run time.

use vstd::prelude::*;
use crate::types::{Piece, Side, Square};

verus! {

/// Mixing of an index into a 64-bit key: an add-xorshift-multiply chain, so
/// that the keys of different indices are not related by plain XOR.
pub open spec fn spec_mix(x: u64) -> u64 {
    let a = vstd::wrapping::u64_specs::wrapping_add(x, 0x9E37_79B9_7F4A_7C15);
    let b = vstd::wrapping::u64_specs::wrapping_mul(a ^ (a >> 30), 0xBF58_476D_1CE4_E5B9);
    let c = vstd::wrapping::u64_specs::wrapping_mul(b ^ (b >> 27), 0x94D0_49BB_1331_11EB);
    c ^ (c >> 31)
}

/// Mixing of an index into a 64-bit key.
pub fn mix(x: u64) -> (r: u64)
    ensures
        r == spec_mix(x),
{
    let a = x.wrapping_add(0x9E37_79B9_7F4A_7C15);
    let b = (a ^ (a >> 30u64)).wrapping_mul(0xBF58_476D_1CE4_E5B9);
    let c = (b ^ (b >> 27u64)).wrapping_mul(0x94D0_49BB_1331_11EB);
    c ^ (c >> 31u64)
}

/// Key of a piece of type `pc` and side `side` standing on square index `sq`.
pub open spec fn spec_sq_key(pc: Piece, side: Side, sq: u64) -> u64 {
    spec_mix((((pc.spec_idx() * 2 + side.spec_idx()) * 64) + sq) as u64)
}

/// Key of a piece of type `pc` and side `side` standing on the square `sq`.
pub fn sq_key(pc: Piece, side: Side, sq: Square) -> (r: u64)
    requires
        sq.0 < 64,
    ensures
        r == spec_sq_key(pc, side, sq.0 as u64),
{
    mix((pc.idx() * 2 + side.idx()) * 64 + sq.0 as u64)
}

/// Key of a castling-rights mask; the empty mask hashes to zero so that an
/// empty position has hash zero.
pub open spec fn spec_castle_key(rights: u8) -> u64 {
    if rights == 0 {
        0
    } else {
        spec_mix((768 + rights) as u64)
    }
}

/// Key of a castling-rights mask.
pub fn castle_key(rights: u8) -> (r: u64)
    ensures
        r == spec_castle_key(rights),
{
    if rights == 0 {
        0
    } else {
        mix(768 + rights as u64)
    }
}

/// Key of an en-passant target square.
pub open spec fn spec_ep_key(sq: u64) -> u64 {
    spec_mix((1024 + sq) as u64)
}

/// Key of an en-passant target square.
pub fn ep_key(sq: Square) -> (r: u64)
    ensures
        r == spec_ep_key(sq.0 as u64),
{
    mix(1024 + sq.0 as u64)
}

/// Key of the side to move, folded into the full hash while black is to move.
pub open spec fn spec_stm_key() -> u64 {
    spec_mix(1100)
}

/// Key of the side to move.
pub fn stm_key() -> (r: u64)
    ensures
        r == spec_stm_key(),
{
    mix(1100)
}

} // verus!
