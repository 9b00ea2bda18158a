//! An append-only, per-entry-encrypted event ledger.
//!
//! The ledger records discrete captured events as timestamped entries.  Each
//! entry's payload can be sealed with a caller-supplied AEAD key and later
//! opened again; cryptographic failures are folded back into the log as
//! ordinary sentinel entries instead of propagating as errors.  Two copies of
//! a ledger synchronise by exchanging timestamps and sending only the entries
//! the peer lacks.

pub mod codec;
pub mod config;
pub mod crypto;
pub mod ledger;
