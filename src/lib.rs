//! A small ledger of named accounts: existence checks, address and balance
//! lookups, and balance updates over an in-memory collection of records.

pub mod wallet;
pub mod laws;
