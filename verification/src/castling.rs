//! The four castling rights as bit flags of one byte.

use vstd::prelude::*;

verus! {

pub const WHITE_K: u8 = 0b0001;

pub const WHITE_Q: u8 = 0b0010;

pub const BLACK_K: u8 = 0b0100;

pub const BLACK_Q: u8 = 0b1000;

pub const WHITE_BOTH: u8 = 0b0011;

pub const BLACK_BOTH: u8 = 0b1100;

pub const ALL: u8 = 0b1111;

/// Whether `flag` is among `rights`.
pub open spec fn holds(rights: u8, flag: u8) -> bool {
    rights & flag != 0
}

} // verus!
