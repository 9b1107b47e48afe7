//! Reconciliation of two tabular product catalogs ("master" and "partner")
//! keyed by SKU: grouping of master rows into parent/child hierarchies,
//! field-comparison policy, conflict resolution, and order-preserving output.

pub mod choice;
pub mod engine;
pub mod errors;
pub mod index;
pub mod laws;
pub mod policy;
pub mod record;
pub mod strutil;
pub mod table;
pub mod textdiff;
