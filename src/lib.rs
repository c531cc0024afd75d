//! An ordering gadget for arithmetic constraint systems: it builds, from two
//! fixed-width unsigned bit vectors, a boolean wire that is forced to hold
//! exactly when the first is less than the second.
//!
//! `circuit` models the constraint system and its boolean gates, `comparator`
//! holds the bitwise less-than algorithm and the relations derived from it, and
//! `uint` holds the fixed-width operand types.

pub mod circuit;
pub mod comparator;
pub mod uint;
