//! A verified escrow custody protocol: a maker locks tokens in a custody
//! account controlled by a keyless, program-derived authority; the lock is
//! later released to a receiver or refunded to the maker.
//!
//! - `derivation`: the authority of a record and the search for its proof.
//! - `ledger`: token accounts, records and the checked transfer primitive.
//! - `instructions`: the Make, SetReceiver, Take and Refund operations.
//! - `layout`: the stored form of a record.
//! - `laws`: properties proved across operations.
pub mod address;
pub mod derivation;
pub mod error;
pub mod instructions;
pub mod laws;
pub mod layout;
pub mod ledger;
pub mod state;
