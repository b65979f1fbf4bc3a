//! Aggregation and validation of the transactions that make up one block:
//! the composite validity check, the flattened tag lists, the economic
//! aggregates, the leaves of the transactions tree and the wire framing.

pub mod amount;
pub mod error;
pub mod order;
pub mod outside;
pub mod theorems;
pub mod transaction;
pub mod transactions;
pub mod wire;
