//! On-chain accounting core for a carbon-offset marketplace: a fungible
//! credit ledger (mint, transfer, burn, balance and supply queries) and a
//! purchase-commitment tracker that retires credits against a buyer's
//! standing commitment.
//!
//! The hosting environment (persistent storage, signature verification,
//! event delivery) is kept outside: every operation here works on plain
//! in-memory state and reports authorization as an explicit input.
use vstd::prelude::*;

pub mod commitment;
pub mod ledger;

verus! {

/// Identity of an account, held by value. The ledger compares identities
/// only for exact equality, so a plain number stands for an address.
#[derive(Clone, Copy, Debug, PartialEq, Eq, Structural)]
pub struct AccountId {
    pub id: u64,
}

/// Every way an operation of the ledger or of the commitment tracker can
/// fail. A failure is terminal for the call: no partial state is committed.
#[derive(Clone, Copy, Debug, PartialEq, Eq, Structural)]
pub enum Error {
    /// A zero quantity was supplied where a positive one is required.
    InvalidAmount,
    /// Malformed price or quantity at commitment creation, or an
    /// assignment that would overshoot the committed total.
    InvalidParameters,
    /// A debit exceeds the holder's current balance.
    InsufficientBalance,
    /// The caller could not prove control of the required identity.
    Unauthorized,
    /// A commitment already exists for this instance.
    AlreadyExists,
    /// A read arrived before any commitment exists.
    NotFound,
    /// The arithmetic result would exceed the representable range.
    Overflow,
}

} // verus!
