//! Verified core of a personal card ledger: budget envelopes ("cards") with
//! line items ("todos") that debit them, an append-only change log, and a
//! full-text search projection over the titles, all held in one store whose
//! operations either complete in full or leave the store untouched.

pub mod amount;
pub mod archiver;
pub mod errors;
pub mod laws;
pub mod models;
pub mod ops_card;
pub mod ops_query;
pub mod ops_todo;
pub mod order;
pub mod runtime;
pub mod search;
pub mod store;
pub mod text;
