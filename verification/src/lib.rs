//! Recomputes the reward-conversion schedule of a shielded token pool: for a
//! fixed set of tokens it derives, per (token, epoch, sub-unit position), the
//! linear combination of typed asset units owed to a note opened at that epoch
//! and redeemed at the target epoch, and plans one persisted record per entry.
use vstd::prelude::*;

pub mod model;
pub mod value;
pub mod engine;
pub mod schedule;

verus! {

/// The failure modes of a migration run.  None is recovered locally: the
/// first failure aborts the whole migration with no partial state.
#[derive(Clone, Copy, Debug, PartialEq, Eq, Structural)]
pub enum MigrationError {
    /// The identifier-encoding primitive rejected its inputs.
    EncodingError,
    /// An epoch with no successor was asked for one.
    EpochOverflow,
    /// A malformed token literal (an empty address, channel or base token).
    AddressParseError,
    /// A declared precision does not fit the signed 128-bit amount field.
    PrecisionOverflow,
}

/// A token reference of the configured set: either a bridged asset named by
/// a channel and a base token, or a direct account address literal.  All
/// three strings are carried as their bytes.
pub enum TokenAddress {
    Ibc(Vec<u8>, Vec<u8>),
    Address(Vec<u8>),
}

/// One row of the configured token set.
pub struct TokenConfig {
    pub address: TokenAddress,
    pub denom: u8,
    pub precision: u128,
}

} // verus!
