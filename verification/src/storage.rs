//! Byte storage backends and their shared little-endian read contract.
//!
//! Every backend answers byte, halfword and word reads with an `Option`:
//! `None` means the location is absent from the store (never written and not
//! part of any installed image). Multi-byte reads compose little-endian and
//! succeed only when every byte is present.

use vstd::prelude::*;

pub mod continuous;
pub mod hybrid_store;
pub mod segmented_store;

verus! {

/// Little-endian composition of two bytes into a halfword.
pub open spec fn le_halfword(b0: u8, b1: u8) -> u16 {
    (b0 as u16) | ((b1 as u16) << 8)
}

/// Little-endian composition of four bytes into a word.
pub open spec fn le_word(b0: u8, b1: u8, b2: u8, b3: u8) -> u32 {
    (b0 as u32) | ((b1 as u32) << 8) | ((b2 as u32) << 16) | ((b3 as u32) << 24)
}

/// A halfword read succeeds exactly when both byte reads succeed.
pub open spec fn compose_halfword(b0: Option<u8>, b1: Option<u8>) -> Option<u16> {
    match (b0, b1) {
        (Some(x), Some(y)) => Some(le_halfword(x, y)),
        _ => None,
    }
}

/// A word read succeeds exactly when all four byte reads succeed.
pub open spec fn compose_word(b0: Option<u8>, b1: Option<u8>, b2: Option<u8>, b3: Option<u8>) -> Option<u32> {
    match (b0, b1, b2, b3) {
        (Some(x0), Some(x1), Some(x2), Some(x3)) => Some(le_word(x0, x1, x2, x3)),
        _ => None,
    }
}

} // verus!
