//! The escrow operations. Each takes the set of accounts its caller supplies,
//! validates it against the ledger and the record, and then either applies
//! all of its effects or fails and changes nothing.
use vstd::prelude::*;
use crate::address::Address;
use crate::derivation::{derivation_exhausted, derive_authority, find_authority, is_found_authority};
use crate::error::EscrowError;
use crate::ledger::{close_account, is_open, transfer_checked, transfer_error, transferred, Ledger, TokenAccount};
use crate::state::{EscrowState, Record};

verus! {

/// Removing record `i`, and changing no custody account but its own, keeps
/// the ledger well formed.
proof fn lemma_resolve_wf(l: Ledger, l2: Ledger, i: int)
    requires
        l.wf(),
        0 <= i < l.records@.len(),
        l2.program_id == l.program_id,
        l2.records@ == l.records@.remove(i),
        l2.accounts@.len() == l.accounts@.len(),
        forall|j: int|
            #![trigger l2.accounts@[j]]
            0 <= j < l.accounts@.len() && l.is_custody(j) && j != l.records@[i].vault ==> l2.accounts@[j] == l.accounts@[j],
    ensures
        l2.wf(),
{
    assert forall|k: int| 0 <= k < l2.records@.len() implies l2.record_wf(#[trigger] l2.records@[k]) by {
        let ko = if k < i { k } else { k + 1 };
        assert(l2.records@[k] == l.records@[ko]);
        assert(l.record_wf(l.records@[ko]));
        assert(l.is_custody(l.records@[ko].vault as int));
        assert(l.records@[ko].vault != l.records@[i].vault);
        assert(l2.accounts@[l.records@[ko].vault as int] == l.accounts@[l.records@[ko].vault as int]);
    }
    assert forall|k1: int, k2: int|
        0 <= k1 < l2.records@.len() && 0 <= k2 < l2.records@.len() && k1 != k2 implies {
            &&& !(#[trigger] l2.records@[k1]).is_for((#[trigger] l2.records@[k2]).state.maker@, l2.records@[k2].state.seed)
            &&& l2.records@[k1].vault != l2.records@[k2].vault
        } by {
        let o1 = if k1 < i { k1 } else { k1 + 1 };
        let o2 = if k2 < i { k2 } else { k2 + 1 };
        assert(l2.records@[k1] == l.records@[o1]);
        assert(l2.records@[k2] == l.records@[o2]);
        assert(!l.records@[o1].is_for(l.records@[o2].state.maker@, l.records@[o2].state.seed));
    }
}

/// The accounts of a SetReceiver operation: the maker names the party that
/// may take the locked funds.
#[derive(Clone, Copy, Debug)]
pub struct SetReceiver {
    /// The identity that signed.
    pub signer: Address,
    /// The maker and nonce of the record.
    pub maker: Address,
    pub seed: u64,
    /// The party to designate.
    pub receiver: Address,
}

impl SetReceiver {
    /// Why this operation is refused on `l`; `None` when it succeeds.
    pub open spec fn failure(self, l: Ledger) -> Option<EscrowError> {
        if !l.has_record(self.maker@, self.seed) {
            Some(EscrowError::CustodyAlreadyResolved)
        } else {
            let rec = l.records@[l.record_index(self.maker@, self.seed)];
            if self.signer@ != rec.state.maker@ {
                Some(EscrowError::Unauthorized)
            } else if rec.state.receiver is Some {
                Some(EscrowError::ReceiverAlreadySet)
            } else {
                None
            }
        }
    }

    /// `l2` is `l` with the record's receiver set and nothing else changed.
    pub open spec fn done(self, l: Ledger, l2: Ledger) -> bool {
        let i = l.record_index(self.maker@, self.seed);
        let rec = l.records@[i];
        &&& l2.program_id == l.program_id
        &&& l2.mints@ == l.mints@
        &&& l2.accounts@ == l.accounts@
        &&& l2.records@ == l.records@.update(
            i,
            Record { address: rec.address, vault: rec.vault, state: EscrowState { receiver: Some(self.receiver), ..rec.state } },
        )
    }

    /// Designates the receiver of the record, once, by its maker.
    pub fn set_receiver(&self, ledger: &mut Ledger) -> (r: Result<(), EscrowError>)
        requires
            old(ledger).wf(),
        ensures
            final(ledger).wf(),
            match self.failure(*old(ledger)) {
                Some(e) => r == Err::<(), EscrowError>(e) && final(ledger).same_as(*old(ledger)),
                None => r is Ok && self.done(*old(ledger), *final(ledger)),
            },
    {
        let i = match ledger.find_record(&self.maker, self.seed) {
            Some(i) => i,
            None => return Err(EscrowError::CustodyAlreadyResolved),
        };
        let rec = ledger.records[i];
        if !self.signer.same(&rec.state.maker) {
            return Err(EscrowError::Unauthorized);
        }
        if rec.state.receiver.is_some() {
            return Err(EscrowError::ReceiverAlreadySet);
        }
        let state = EscrowState { receiver: Some(self.receiver), ..rec.state };
        ledger.records.set(i, Record { address: rec.address, vault: rec.vault, state });
        proof {
            let l = *old(ledger);
            assert forall|k: int| 0 <= k < ledger.records@.len() implies ledger.record_wf(#[trigger] ledger.records@[k]) by {
                assert(l.record_wf(l.records@[k]));
            }
            assert forall|k1: int, k2: int|
                0 <= k1 < ledger.records@.len() && 0 <= k2 < ledger.records@.len() && k1 != k2 implies {
                    &&& !(#[trigger] ledger.records@[k1]).is_for((#[trigger] ledger.records@[k2]).state.maker@, ledger.records@[k2].state.seed)
                    &&& ledger.records@[k1].vault != ledger.records@[k2].vault
                } by {
                assert(!l.records@[k1].is_for(l.records@[k2].state.maker@, l.records@[k2].state.seed));
            }
        }
        Ok(())
    }
}

/// The accounts of a Refund operation: the maker cancels the lock and takes
/// the custody balance back.
#[derive(Clone, Copy, Debug)]
pub struct Refund {
    /// The identity that signed.
    pub signer: Address,
    /// The maker and nonce of the record.
    pub maker: Address,
    pub seed: u64,
    /// The asset, by index, as the caller names it.
    pub mint_a: usize,
    /// The maker's account that receives the funds.
    pub maker_ata_a: usize,
}

impl Refund {
    /// Why this operation is refused on `l`; `None` when it succeeds.
    pub open spec fn failure(self, l: Ledger) -> Option<EscrowError> {
        if !l.has_record(self.maker@, self.seed) {
            Some(EscrowError::CustodyAlreadyResolved)
        } else {
            let rec = l.records@[l.record_index(self.maker@, self.seed)];
            if self.signer@ != rec.state.maker@ {
                Some(EscrowError::Unauthorized)
            } else if !(self.mint_a < l.mints@.len()) {
                Some(EscrowError::AccountNotFound)
            } else if l.mints@[self.mint_a as int].key@ != rec.state.mint_a@ {
                Some(EscrowError::AssetMismatch)
            } else if l.is_custody(self.maker_ata_a as int) {
                Some(EscrowError::AssetMismatch)
            } else if !is_open(l.accounts@, self.maker_ata_a as int) {
                Some(EscrowError::AccountNotFound)
            } else if l.accounts@[self.maker_ata_a as int].unwrap().owner@ != rec.state.maker@ {
                Some(EscrowError::AssetMismatch)
            } else {
                transfer_error(
                    l.accounts@,
                    l.mints@,
                    rec.vault as int,
                    self.maker_ata_a as int,
                    self.mint_a as int,
                    l.mints@[self.mint_a as int].decimals,
                    l.accounts@[rec.vault as int].unwrap().amount,
                    rec.address@,
                )
            }
        }
    }

    /// `l2` is `l` with the whole custody balance moved to the maker's
    /// account, the custody account closed and the record removed.
    pub open spec fn done(self, l: Ledger, l2: Ledger) -> bool {
        let i = l.record_index(self.maker@, self.seed);
        let rec = l.records@[i];
        let v = rec.vault as int;
        &&& l2.program_id == l.program_id
        &&& l2.mints@ == l.mints@
        &&& l2.records@ == l.records@.remove(i)
        &&& l2.accounts@ == transferred(l.accounts@, v, self.maker_ata_a as int, l.accounts@[v].unwrap().amount).update(v, None)
    }

    /// Returns the custody balance to the maker and resolves the record.
    pub fn refund(&self, ledger: &mut Ledger) -> (r: Result<(), EscrowError>)
        requires
            old(ledger).wf(),
        ensures
            final(ledger).wf(),
            match self.failure(*old(ledger)) {
                Some(e) => r == Err::<(), EscrowError>(e) && final(ledger).same_as(*old(ledger)),
                None => r is Ok && self.done(*old(ledger), *final(ledger)),
            },
    {
        let i = match ledger.find_record(&self.maker, self.seed) {
            Some(i) => i,
            None => return Err(EscrowError::CustodyAlreadyResolved),
        };
        let rec = ledger.records[i];
        proof {
            assert(old(ledger).record_wf(rec));
        }
        if !self.signer.same(&rec.state.maker) {
            return Err(EscrowError::Unauthorized);
        }
        if self.mint_a >= ledger.mints.len() {
            return Err(EscrowError::AccountNotFound);
        }
        let m = ledger.mints[self.mint_a];
        if !m.key.same(&rec.state.mint_a) {
            return Err(EscrowError::AssetMismatch);
        }
        if ledger.custody_account(self.maker_ata_a) {
            return Err(EscrowError::AssetMismatch);
        }
        if !ledger.is_account_open(self.maker_ata_a) {
            return Err(EscrowError::AccountNotFound);
        }
        let dest = ledger.accounts[self.maker_ata_a].unwrap();
        if !dest.owner.same(&rec.state.maker) {
            return Err(EscrowError::AssetMismatch);
        }
        let locked = ledger.accounts[rec.vault].unwrap().amount;
        proof {
            assert(old(ledger).is_custody(rec.vault as int));
        }
        let signer = match derive_authority(&ledger.program_id, &rec.state.maker, rec.state.seed, rec.state.bump) {
            Some(a) => a,
            None => return Err(EscrowError::Unauthorized),
        };
        match transfer_checked(&mut ledger.accounts, &ledger.mints, rec.vault, self.maker_ata_a, self.mint_a, m.decimals, locked, &signer) {
            Ok(()) => {},
            Err(e) => return Err(e),
        }
        let closed = close_account(&mut ledger.accounts, rec.vault, &signer);
        assert(closed is Ok);
        ledger.records.remove(i);
        proof {
            lemma_resolve_wf(*old(ledger), *ledger, i as int);
        }
        Ok(())
    }
}

/// The accounts of a Make operation: the maker locks an amount of an asset
/// in a new custody account.
#[derive(Clone, Copy, Debug)]
pub struct Make {
    /// The maker, who signs.
    pub maker: Address,
    /// The asset to lock, by index.
    pub mint_a: usize,
    /// The maker's account that the locked amount comes from.
    pub maker_ata_a: usize,
}

impl Make {
    /// Why locking `amount` under `seed` is refused on `l`; `None` when it succeeds.
    pub open spec fn failure(self, l: Ledger, seed: u64, amount: u64) -> Option<EscrowError> {
        let src = l.accounts@[self.maker_ata_a as int].unwrap();
        if l.has_record(self.maker@, seed) {
            Some(EscrowError::RecordAlreadyExists)
        } else if !(self.mint_a < l.mints@.len()) {
            Some(EscrowError::AccountNotFound)
        } else if derivation_exhausted(l.program_id@, self.maker@, seed) {
            Some(EscrowError::DerivationExhausted)
        } else if l.is_custody(self.maker_ata_a as int) {
            Some(EscrowError::AssetMismatch)
        } else if !is_open(l.accounts@, self.maker_ata_a as int) {
            Some(EscrowError::AccountNotFound)
        } else if src.mint@ != l.mints@[self.mint_a as int].key@ {
            Some(EscrowError::AssetMismatch)
        } else if src.owner@ != self.maker@ {
            Some(EscrowError::Unauthorized)
        } else if src.amount < amount {
            Some(EscrowError::InsufficientBalance)
        } else {
            None
        }
    }

    /// `l2` is `l` with a new record for the maker and `seed`, under the
    /// authority the downward search finds, and a new custody account owned
    /// by that authority that holds `amount` taken from the maker's account.
    pub open spec fn done(self, l: Ledger, l2: Ledger, seed: u64, amount: u64, receive_amount: u64) -> bool {
        let v = l.accounts@.len() as int;
        let rec = l2.records@.last();
        let key = l.mints@[self.mint_a as int].key;
        &&& l2.program_id == l.program_id
        &&& l2.mints@ == l.mints@
        &&& l2.records@ == l.records@.push(rec)
        &&& rec.vault == v
        &&& is_found_authority(l.program_id@, self.maker@, seed, rec.state.bump, rec.address@)
        &&& rec.state == (EscrowState {
            seed,
            maker: self.maker,
            mint_a: key,
            amount,
            receive_amount,
            bump: rec.state.bump,
            receiver: None,
        })
        &&& l2.accounts@ == transferred(
            l.accounts@.push(Some(TokenAccount { owner: rec.address, mint: key, amount: 0 })),
            self.maker_ata_a as int,
            v,
            amount,
        )
    }

    /// Creates the record of the maker with `seed` and its custody account,
    /// and deposits `amount` into it.
    pub fn make(&self, ledger: &mut Ledger, seed: u64, amount: u64, receive_amount: u64) -> (r: Result<(), EscrowError>)
        requires
            old(ledger).wf(),
        ensures
            final(ledger).wf(),
            match self.failure(*old(ledger), seed, amount) {
                Some(e) => r == Err::<(), EscrowError>(e) && final(ledger).same_as(*old(ledger)),
                None => r is Ok && self.done(*old(ledger), *final(ledger), seed, amount, receive_amount),
            },
    {
        if ledger.find_record(&self.maker, seed).is_some() {
            return Err(EscrowError::RecordAlreadyExists);
        }
        if self.mint_a >= ledger.mints.len() {
            return Err(EscrowError::AccountNotFound);
        }
        let m = ledger.mints[self.mint_a];
        let (authority, bump) = match find_authority(&ledger.program_id, &self.maker, seed) {
            Ok(found) => found,
            Err(e) => return Err(e),
        };
        if ledger.custody_account(self.maker_ata_a) {
            return Err(EscrowError::AssetMismatch);
        }
        if !ledger.is_account_open(self.maker_ata_a) {
            return Err(EscrowError::AccountNotFound);
        }
        let src = ledger.accounts[self.maker_ata_a].unwrap();
        if !src.mint.same(&m.key) {
            return Err(EscrowError::AssetMismatch);
        }
        if !src.owner.same(&self.maker) {
            return Err(EscrowError::Unauthorized);
        }
        if src.amount < amount {
            return Err(EscrowError::InsufficientBalance);
        }
        let vault = ledger.accounts.len();
        ledger.accounts.push(Some(TokenAccount { owner: authority, mint: m.key, amount: 0 }));
        let moved = transfer_checked(&mut ledger.accounts, &ledger.mints, self.maker_ata_a, vault, self.mint_a, m.decimals, amount, &self.maker);
        assert(moved is Ok);
        let state = EscrowState { seed, maker: self.maker, mint_a: m.key, amount, receive_amount, bump, receiver: None };
        ledger.records.push(Record { address: authority, vault, state });
        proof {
            let l = *old(ledger);
            let n = l.records@.len() as int;
            assert(ledger.records@[n].vault == vault);
            assert forall|k: int| 0 <= k < ledger.records@.len() implies ledger.record_wf(#[trigger] ledger.records@[k]) by {
                if k < n {
                    assert(ledger.records@[k] == l.records@[k]);
                    assert(l.record_wf(l.records@[k]));
                    assert(l.is_custody(l.records@[k].vault as int));
                }
            }
            assert forall|k1: int, k2: int|
                0 <= k1 < ledger.records@.len() && 0 <= k2 < ledger.records@.len() && k1 != k2 implies {
                    &&& !(#[trigger] ledger.records@[k1]).is_for((#[trigger] ledger.records@[k2]).state.maker@, ledger.records@[k2].state.seed)
                    &&& ledger.records@[k1].vault != ledger.records@[k2].vault
                } by {
                if k1 < n && k2 < n {
                    assert(!l.records@[k1].is_for(l.records@[k2].state.maker@, l.records@[k2].state.seed));
                } else if k1 < n {
                    assert(l.record_wf(l.records@[k1]));
                    assert(!l.records@[k1].is_for(self.maker@, seed));
                } else {
                    assert(l.record_wf(l.records@[k2]));
                    assert(!l.records@[k2].is_for(self.maker@, seed));
                }
            }
        }
        Ok(())
    }
}

/// The accounts of a Take operation: the taker (or the designated receiver)
/// pays the counter-asset, if the record asks for any, and receives the whole
/// custody balance.
#[derive(Clone, Copy, Debug)]
pub struct Take {
    /// The taker, who signs.
    pub taker: Address,
    /// The maker and nonce of the record.
    pub maker: Address,
    pub seed: u64,
    /// The locked asset, by index, as the caller names it.
    pub mint_a: usize,
    /// The taker's account that receives the custody balance.
    pub taker_ata_a: usize,
    /// The counter-asset amount the taker expects to pay.
    pub receive_amount: u64,
    /// The counter-asset, by index.
    pub mint_b: usize,
    /// The taker's account that pays the counter-asset.
    pub taker_ata_b: usize,
    /// The maker's account that receives the counter-asset.
    pub maker_ata_b: usize,
}

impl Take {
    /// Why the counter-asset payment for `rec` is refused on `l`; `None`
    /// when it goes through or when the record asks for none.
    pub open spec fn counter_failure(self, l: Ledger, rec: Record) -> Option<EscrowError> {
        if rec.state.receive_amount == 0 {
            None
        } else if l.is_custody(self.taker_ata_b as int) || l.is_custody(self.maker_ata_b as int) {
            Some(EscrowError::AssetMismatch)
        } else if !is_open(l.accounts@, self.taker_ata_b as int) || !is_open(l.accounts@, self.maker_ata_b as int)
            || !(self.mint_b < l.mints@.len()) {
            Some(EscrowError::AccountNotFound)
        } else if l.accounts@[self.maker_ata_b as int].unwrap().owner@ != rec.state.maker@ {
            Some(EscrowError::AssetMismatch)
        } else {
            transfer_error(
                l.accounts@,
                l.mints@,
                self.taker_ata_b as int,
                self.maker_ata_b as int,
                self.mint_b as int,
                l.mints@[self.mint_b as int].decimals,
                rec.state.receive_amount,
                self.taker@,
            )
        }
    }

    /// The accounts after the counter-asset payment for `rec`.
    pub open spec fn after_counter(self, l: Ledger, rec: Record) -> Seq<Option<TokenAccount>> {
        if rec.state.receive_amount == 0 {
            l.accounts@
        } else {
            transferred(l.accounts@, self.taker_ata_b as int, self.maker_ata_b as int, rec.state.receive_amount)
        }
    }

    /// Why this operation is refused on `l`; `None` when it succeeds.
    pub open spec fn failure(self, l: Ledger) -> Option<EscrowError> {
        if !l.has_record(self.maker@, self.seed) {
            Some(EscrowError::CustodyAlreadyResolved)
        } else {
            let rec = l.records@[l.record_index(self.maker@, self.seed)];
            let v = rec.vault as int;
            if (match rec.state.receiver {
                Some(x) => x@ != self.taker@,
                None => false,
            }) {
                Some(EscrowError::Unauthorized)
            } else if !(self.mint_a < l.mints@.len()) {
                Some(EscrowError::AccountNotFound)
            } else if l.mints@[self.mint_a as int].key@ != rec.state.mint_a@ {
                Some(EscrowError::AssetMismatch)
            } else if self.receive_amount != rec.state.receive_amount {
                Some(EscrowError::AmountMismatch)
            } else if l.is_custody(self.taker_ata_a as int) {
                Some(EscrowError::AssetMismatch)
            } else if !is_open(l.accounts@, self.taker_ata_a as int) {
                Some(EscrowError::AccountNotFound)
            } else if l.accounts@[self.taker_ata_a as int].unwrap().owner@ != self.taker@ {
                Some(EscrowError::AssetMismatch)
            } else if self.counter_failure(l, rec) is Some {
                self.counter_failure(l, rec)
            } else {
                transfer_error(
                    self.after_counter(l, rec),
                    l.mints@,
                    v,
                    self.taker_ata_a as int,
                    self.mint_a as int,
                    l.mints@[self.mint_a as int].decimals,
                    l.accounts@[v].unwrap().amount,
                    rec.address@,
                )
            }
        }
    }

    /// `l2` is `l` with the counter-asset paid, the whole custody balance
    /// moved to the taker's account, the custody account closed and the
    /// record removed.
    pub open spec fn done(self, l: Ledger, l2: Ledger) -> bool {
        let i = l.record_index(self.maker@, self.seed);
        let rec = l.records@[i];
        let v = rec.vault as int;
        &&& l2.program_id == l.program_id
        &&& l2.mints@ == l.mints@
        &&& l2.records@ == l.records@.remove(i)
        &&& l2.accounts@ == transferred(
            self.after_counter(l, rec),
            v,
            self.taker_ata_a as int,
            l.accounts@[v].unwrap().amount,
        ).update(v, None)
    }

    /// Pays the counter-asset, releases the custody balance to the taker and
    /// resolves the record.
    pub fn release(&self, ledger: &mut Ledger) -> (r: Result<(), EscrowError>)
        requires
            old(ledger).wf(),
        ensures
            final(ledger).wf(),
            match self.failure(*old(ledger)) {
                Some(e) => r == Err::<(), EscrowError>(e) && final(ledger).same_as(*old(ledger)),
                None => r is Ok && self.done(*old(ledger), *final(ledger)),
            },
    {
        let i = match ledger.find_record(&self.maker, self.seed) {
            Some(i) => i,
            None => return Err(EscrowError::CustodyAlreadyResolved),
        };
        let rec = ledger.records[i];
        proof {
            assert(old(ledger).record_wf(rec));
            assert(old(ledger).is_custody(rec.vault as int));
        }
        match rec.state.receiver {
            Some(x) => {
                if !x.same(&self.taker) {
                    return Err(EscrowError::Unauthorized);
                }
            },
            None => {},
        }
        if self.mint_a >= ledger.mints.len() {
            return Err(EscrowError::AccountNotFound);
        }
        let m = ledger.mints[self.mint_a];
        if !m.key.same(&rec.state.mint_a) {
            return Err(EscrowError::AssetMismatch);
        }
        if self.receive_amount != rec.state.receive_amount {
            return Err(EscrowError::AmountMismatch);
        }
        if ledger.custody_account(self.taker_ata_a) {
            return Err(EscrowError::AssetMismatch);
        }
        if !ledger.is_account_open(self.taker_ata_a) {
            return Err(EscrowError::AccountNotFound);
        }
        let dest = ledger.accounts[self.taker_ata_a].unwrap();
        if !dest.owner.same(&self.taker) {
            return Err(EscrowError::AssetMismatch);
        }
        let locked = ledger.accounts[rec.vault].unwrap().amount;
        let signer = match derive_authority(&ledger.program_id, &rec.state.maker, rec.state.seed, rec.state.bump) {
            Some(a) => a,
            None => return Err(EscrowError::Unauthorized),
        };
        let paid = rec.state.receive_amount > 0;
        let mut saved_b: Option<TokenAccount> = None;
        let mut saved_mb: Option<TokenAccount> = None;
        if paid {
            if ledger.custody_account(self.taker_ata_b) || ledger.custody_account(self.maker_ata_b) {
                return Err(EscrowError::AssetMismatch);
            }
            if !ledger.is_account_open(self.taker_ata_b) || !ledger.is_account_open(self.maker_ata_b)
                || self.mint_b >= ledger.mints.len() {
                return Err(EscrowError::AccountNotFound);
            }
            saved_b = ledger.accounts[self.taker_ata_b];
            saved_mb = ledger.accounts[self.maker_ata_b];
            let payee = saved_mb.unwrap();
            if !payee.owner.same(&rec.state.maker) {
                return Err(EscrowError::AssetMismatch);
            }
            let decimals_b = ledger.mints[self.mint_b].decimals;
            match transfer_checked(
                &mut ledger.accounts,
                &ledger.mints,
                self.taker_ata_b,
                self.maker_ata_b,
                self.mint_b,
                decimals_b,
                rec.state.receive_amount,
                &self.taker,
            ) {
                Ok(()) => {},
                Err(e) => return Err(e),
            }
        }
        let ghost counter = ledger.accounts@;
        assert(counter == self.after_counter(*old(ledger), rec));
        assert(counter[rec.vault as int] == old(ledger).accounts@[rec.vault as int]);
        match transfer_checked(&mut ledger.accounts, &ledger.mints, rec.vault, self.taker_ata_a, self.mint_a, m.decimals, locked, &signer) {
            Ok(()) => {},
            Err(e) => {
                if paid {
                    ledger.accounts.set(self.taker_ata_b, saved_b);
                    ledger.accounts.set(self.maker_ata_b, saved_mb);
                    assert(ledger.accounts@ =~= old(ledger).accounts@);
                }
                return Err(e);
            },
        }
        let closed = close_account(&mut ledger.accounts, rec.vault, &signer);
        assert(closed is Ok);
        ledger.records.remove(i);
        proof {
            lemma_resolve_wf(*old(ledger), *ledger, i as int);
        }
        Ok(())
    }
}

} // verus!
