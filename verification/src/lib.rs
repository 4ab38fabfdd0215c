//! A minimal single-actor balance ledger: a table from account identifiers to
//! token amounts, with deposit, query, and transfer operations.
//!
//! The store enforces three invariants: the total held in the table is
//! conserved across transfers, no balance is ever negative, and a failed
//! transfer leaves every balance untouched.

pub mod account;
pub mod wallet;
