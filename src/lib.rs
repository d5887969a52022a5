//! A registry of breedable non-fungible creatures ("kitties"): minting with
//! content-derived identity, ownership transfer, a marketplace, genetic
//! breeding and naming, each an all-or-nothing state transition.

pub mod types;
pub mod codec;
pub mod table;
pub mod genetics;
pub mod ledger;
pub mod pallet;
