//! Verified core of an NFT registry canister: token identifiers, ownership,
//! allowances, claims and reserves.

pub mod principal;
pub mod types;
pub mod account;
pub mod token_id;
pub mod keyed_map;
pub mod storage;
pub mod service;
pub mod canister;
pub mod laws;
