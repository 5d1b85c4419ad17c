//! Swap detection and price derivation over token balance snapshots.
//!
//! Amounts are IEEE-754 doubles carried by their bit patterns. The library
//! decides which balance records pair up, which leg of a swap is the
//! reference asset and when a swap is rejected; the three floating-point
//! operations it applies are handed in by the caller.

pub mod address;
pub mod amount;
pub mod balance;
pub mod diffs;
pub mod endpoint;
pub mod swap;
pub mod text;
