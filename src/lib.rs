//! Reassembly of blockchain transactions from a stream of finalized blocks:
//! each transaction is followed through the receipts it spawns, across
//! blocks, until nothing it started is left pending; complete transactions
//! that a watch list keeps are projected into four sets of rows.

pub mod accounts;
pub mod cache;
pub mod commit;
pub mod error;
pub mod json;
pub mod laws;
pub mod model;
pub mod processor;
pub mod projector;
pub mod rows;
