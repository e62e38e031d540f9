//! Ephemeral-rollup manager.

pub mod accounts;
pub mod addresses;
pub mod checkpoint;
pub mod codec;
pub mod hashing;
pub mod instructions;
pub mod keyed;
pub mod ledger;
pub mod manager;
pub mod merkle;
pub mod network;
pub mod order;
pub mod portal_state;
pub mod rent;
pub mod replay;
pub mod runtime;
pub mod settlement;
pub mod slot_advancer;
pub mod state_diff;
pub mod timing;
pub mod tx_client;
pub mod unsettled_state;
pub mod well_known;
pub mod withdrawal;
