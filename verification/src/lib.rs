//! A payments engine: a ledger of client accounts driven by a stream of
//! deposits, withdrawals, disputes, resolutions and chargebacks.
pub mod fnv_map;
pub mod amount;
pub mod client;
pub mod error;
pub mod transaction;
pub mod ledger;
pub mod numeral;
pub mod laws;
