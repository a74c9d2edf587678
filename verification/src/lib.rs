//! Mainstay: registries of industrial assets and of certified engineers, and the
//! maintenance life-cycle that turns an asset's service history into a collateral score.
//!
//! Each contract is a state value with the contract's entry points as methods. A method
//! that fails returns the contract's error and leaves the state as it was, as a failed
//! contract call leaves the ledger. The host's concerns (authorisation, storage lifetimes,
//! the ledger clock and calls between contracts) stay with the caller, which hands in the
//! ledger time and the answers of the other contracts as plain values.

use vstd::prelude::*;

pub mod asset_registry;
pub mod asset_registry_laws;
pub mod engineer_registry;
pub mod engineer_registry_laws;
pub mod lifecycle;
pub mod lifecycle_laws;
pub mod paging;
pub mod table;

verus! {

/// An account or contract address, in its string form.
pub type Address = String;

/// A contract symbol (an asset type or a maintenance task type), in its string form.
pub type Symbol = String;

} // verus!
