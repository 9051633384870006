//! The number types of the language.

use vstd::prelude::*;

verus! {

/// The integers of the language.
pub type IntType = i64;

/// The little-endian bytes of a float of the language, a binary64.
pub type FloatBytes = [u8; 8];

} // verus!
