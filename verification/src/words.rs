//! Width conversions between 32-bit and 64-bit output words.
//!
//! Both conversions follow little-endian order: the first 32-bit word of a
//! pair occupies the low half of the derived 64-bit value, and truncating a
//! 64-bit word keeps its low half.

use vstd::prelude::*;

verus! {

/// Two consecutive 32-bit words combined into one 64-bit value, the first
/// word in the low bits.
pub open spec fn pair_u64(lo: u32, hi: u32) -> u64 {
    ((hi as u64) << 32) | (lo as u64)
}

/// The low 32 bits of a 64-bit word.
pub open spec fn low_u32(w: u64) -> u32 {
    (w & 0xffff_ffff) as u32
}

/// The high 32 bits of a 64-bit word.
pub open spec fn high_u32(w: u64) -> u32 {
    (w >> 32) as u32
}

} // verus!
