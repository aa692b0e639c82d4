//! The persistent escrow record.
use vstd::prelude::*;
use crate::address::Address;

verus! {

/// One locked position.
#[derive(Clone, Copy, Debug)]
pub struct EscrowState {
    /// Caller-chosen disambiguator; part of the authority's seeds.
    pub seed: u64,
    /// The party who created the lock.
    pub maker: Address,
    /// The asset locked.
    pub mint_a: Address,
    /// Quantity deposited at creation.
    pub amount: u64,
    /// Quantity of the counter-asset the maker expects in return; zero for a plain claim.
    pub receive_amount: u64,
    /// The derivation proof that reproduces the authority.
    pub bump: u8,
    /// The designated receiver, once named.
    pub receiver: Option<Address>,
}

/// A record as the ledger stores it: its authority's address and the index of
/// its custody account.
#[derive(Clone, Copy, Debug)]
pub struct Record {
    /// The keyless authority derived for this record; also the record's address.
    pub address: Address,
    /// The custody account, owned by `address`.
    pub vault: usize,
    pub state: EscrowState,
}

impl Record {
    /// Whether this is the record of `maker` with `nonce`.
    pub open spec fn is_for(self, maker: Seq<u8>, nonce: u64) -> bool {
        self.state.maker@ == maker && self.state.seed == nonce
    }
}

} // verus!
