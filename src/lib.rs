//! Stock ledger and movement engine for multi-warehouse inventory.
//!
//! Every stock-affecting fact is an immutable [`types::LedgerEntry`] appended to
//! a ledger; the quantity on hand for a (product, warehouse) pair is the sum of
//! the changes recorded for it. The engine turns movement documents (receipts,
//! deliveries, transfers, adjustments) into batches of entries that are applied
//! all-or-nothing and never drive a balance below zero.
pub mod engine;
pub mod laws;
pub mod ledger;
pub mod locks;
pub mod projection;
pub mod requests;
pub mod types;
pub mod validate;
