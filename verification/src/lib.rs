//! Stake-weighted quorum state aggregation for a BLS signing scheme.
//!
//! For a block height and a set of quorum identifiers, this crate computes
//! each quorum's total stake and aggregate G1 public key: the curve-group
//! sum of the public keys of every operator with strictly positive stake
//! in that quorum and a resolved key.

pub mod aggregator;
pub mod builder;
pub mod g1;
pub mod laws;
pub mod state;
pub mod u256;

pub use g1::G1PublicKey;
pub use u256::U256;
