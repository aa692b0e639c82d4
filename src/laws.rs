//! Properties of the protocol that hold across operations.
use vstd::prelude::*;
use crate::derivation::{authority_of, lemma_le_bytes_injective, signer_seeds};
use crate::error::EscrowError;
use crate::instructions::{Make, Refund, SetReceiver, Take};
use crate::ledger::{holding, lemma_held_push, lemma_held_update, lemma_transfer_conserves, Ledger, TokenAccount};

verus! {

/// A successful Make leaves the total of every asset over all accounts unchanged.
pub proof fn lemma_make_conserves(op: Make, l: Ledger, l2: Ledger, seed: u64, amount: u64, receive_amount: u64, m: Seq<u8>)
    requires
        l.wf(),
        op.failure(l, seed, amount) is None,
        op.done(l, l2, seed, amount, receive_amount),
    ensures
        l2.supply(m) == l.supply(m),
{
    let rec = l2.records@.last();
    let key = l.mints@[op.mint_a as int].key;
    let fresh = Some(TokenAccount { owner: rec.address, mint: key, amount: 0 });
    let s = l.accounts@.push(fresh);
    lemma_held_push(l.accounts@, fresh, m);
    lemma_transfer_conserves(
        s,
        l.mints@,
        op.maker_ata_a as int,
        l.accounts@.len() as int,
        op.mint_a as int,
        l.mints@[op.mint_a as int].decimals,
        amount,
        op.maker@,
        m,
    );
}

/// A successful Refund leaves the total of every asset over all accounts unchanged.
pub proof fn lemma_refund_conserves(op: Refund, l: Ledger, l2: Ledger, m: Seq<u8>)
    requires
        l.wf(),
        op.failure(l) is None,
        op.done(l, l2),
    ensures
        l2.supply(m) == l.supply(m),
{
    let rec = l.records@[l.record_index(op.maker@, op.seed)];
    let v = rec.vault as int;
    let amt = l.accounts@[v].unwrap().amount;
    assert(l.is_custody(v));
    lemma_transfer_conserves(
        l.accounts@,
        l.mints@,
        v,
        op.maker_ata_a as int,
        op.mint_a as int,
        l.mints@[op.mint_a as int].decimals,
        amt,
        rec.address@,
        m,
    );
    let t = crate::ledger::transferred(l.accounts@, v, op.maker_ata_a as int, amt);
    lemma_held_update(t, v, None, m);
    assert(holding(t[v], m) == 0);
}

/// A successful Take leaves the total of every asset over all accounts
/// unchanged, the counter-asset included: what the taker pays, the maker gets.
pub proof fn lemma_take_conserves(op: Take, l: Ledger, l2: Ledger, m: Seq<u8>)
    requires
        l.wf(),
        op.failure(l) is None,
        op.done(l, l2),
    ensures
        l2.supply(m) == l.supply(m),
{
    let rec = l.records@[l.record_index(op.maker@, op.seed)];
    let v = rec.vault as int;
    let amt = l.accounts@[v].unwrap().amount;
    assert(l.is_custody(v));
    let c = op.after_counter(l, rec);
    if rec.state.receive_amount != 0 {
        lemma_transfer_conserves(
            l.accounts@,
            l.mints@,
            op.taker_ata_b as int,
            op.maker_ata_b as int,
            op.mint_b as int,
            l.mints@[op.mint_b as int].decimals,
            rec.state.receive_amount,
            op.taker@,
            m,
        );
    }
    assert(c[v] == l.accounts@[v]);
    lemma_transfer_conserves(
        c,
        l.mints@,
        v,
        op.taker_ata_a as int,
        op.mint_a as int,
        l.mints@[op.mint_a as int].decimals,
        amt,
        rec.address@,
        m,
    );
    let t = crate::ledger::transferred(c, v, op.taker_ata_a as int, amt);
    lemma_held_update(t, v, None, m);
    assert(holding(t[v], m) == 0);
}

/// A successful SetReceiver moves no funds.
pub proof fn lemma_set_receiver_conserves(op: SetReceiver, l: Ledger, l2: Ledger, m: Seq<u8>)
    requires
        op.done(l, l2),
    ensures
        l2.supply(m) == l.supply(m),
{
}

/// Conservation over a whole lock: a Make later resolved by a Refund leaves
/// the total of every asset as it was before the Make.
pub proof fn lemma_make_then_refund_conserves(
    mk: Make,
    rf: Refund,
    l0: Ledger,
    l1: Ledger,
    l2: Ledger,
    seed: u64,
    amount: u64,
    receive_amount: u64,
    m: Seq<u8>,
)
    requires
        l0.wf(),
        l1.wf(),
        mk.failure(l0, seed, amount) is None,
        mk.done(l0, l1, seed, amount, receive_amount),
        rf.failure(l1) is None,
        rf.done(l1, l2),
    ensures
        l2.supply(m) == l0.supply(m),
{
    lemma_make_conserves(mk, l0, l1, seed, amount, receive_amount, m);
    lemma_refund_conserves(rf, l1, l2, m);
}

/// Conservation over a whole lock: a Make later resolved by a Take leaves
/// the total of every asset as it was before the Make.
pub proof fn lemma_make_then_take_conserves(
    mk: Make,
    tk: Take,
    l0: Ledger,
    l1: Ledger,
    l2: Ledger,
    seed: u64,
    amount: u64,
    receive_amount: u64,
    m: Seq<u8>,
)
    requires
        l0.wf(),
        l1.wf(),
        mk.failure(l0, seed, amount) is None,
        mk.done(l0, l1, seed, amount, receive_amount),
        tk.failure(l1) is None,
        tk.done(l1, l2),
    ensures
        l2.supply(m) == l0.supply(m),
{
    lemma_make_conserves(mk, l0, l1, seed, amount, receive_amount, m);
    lemma_take_conserves(tk, l1, l2, m);
}

/// Re-deriving a record's authority from the program, its maker, its nonce
/// and its stored proof gives the address recorded for it at creation.
pub proof fn lemma_authority_reproducible(l: Ledger, i: int)
    requires
        l.wf(),
        0 <= i < l.records@.len(),
    ensures
        authority_of(l.program_id@, l.records@[i].state.maker@, l.records@[i].state.seed, l.records@[i].state.bump)
            == Some(l.records@[i].address@),
{
    assert(l.record_wf(l.records@[i]));
}

/// The seeds that sign for a record determine its maker, nonce and proof:
/// two different tuples never hand the derivation the same input.
pub proof fn lemma_signer_seeds_injective(m1: Seq<u8>, n1: u64, p1: u8, m2: Seq<u8>, n2: u64, p2: u8)
    requires
        signer_seeds(m1, n1, p1) == signer_seeds(m2, n2, p2),
    ensures
        m1 == m2,
        n1 == n2,
        p1 == p2,
{
    let s1 = signer_seeds(m1, n1, p1);
    let s2 = signer_seeds(m2, n2, p2);
    assert(s1[1] == s2[1]);
    assert(s1[2] == s2[2]);
    assert(s1[3][0] == s2[3][0]);
    lemma_le_bytes_injective(n1, n2);
}

/// Removing the record of `maker` with `nonce` leaves no record for them.
proof fn lemma_removed_record_gone(l: Ledger, l2: Ledger, maker: Seq<u8>, nonce: u64)
    requires
        l.wf(),
        l.has_record(maker, nonce),
        l2.records@ == l.records@.remove(l.record_index(maker, nonce)),
    ensures
        !l2.has_record(maker, nonce),
{
    let i = l.record_index(maker, nonce);
    if l2.has_record(maker, nonce) {
        let k = choose|k: int| 0 <= k < l2.records@.len() && (#[trigger] l2.records@[k]).is_for(maker, nonce);
        let ko = if k < i { k } else { k + 1 };
        assert(l2.records@[k] == l.records@[ko]);
        assert(!l.records@[ko].is_for(l.records@[i].state.maker@, l.records@[i].state.seed));
    }
}

/// Once a Refund has resolved a record, every later Take or Refund of the
/// same maker and nonce fails with `CustodyAlreadyResolved`.
pub proof fn lemma_refund_resolves_once(rf: Refund, l: Ledger, l2: Ledger, rf2: Refund, tk: Take)
    requires
        l.wf(),
        rf.failure(l) is None,
        rf.done(l, l2),
        rf2.maker@ == rf.maker@,
        rf2.seed == rf.seed,
        tk.maker@ == rf.maker@,
        tk.seed == rf.seed,
    ensures
        rf2.failure(l2) == Some(EscrowError::CustodyAlreadyResolved),
        tk.failure(l2) == Some(EscrowError::CustodyAlreadyResolved),
{
    lemma_removed_record_gone(l, l2, rf.maker@, rf.seed);
}

/// Once a Take has resolved a record, every later Take or Refund of the
/// same maker and nonce fails with `CustodyAlreadyResolved`.
pub proof fn lemma_take_resolves_once(tk: Take, l: Ledger, l2: Ledger, tk2: Take, rf: Refund)
    requires
        l.wf(),
        tk.failure(l) is None,
        tk.done(l, l2),
        tk2.maker@ == tk.maker@,
        tk2.seed == tk.seed,
        rf.maker@ == tk.maker@,
        rf.seed == tk.seed,
    ensures
        tk2.failure(l2) == Some(EscrowError::CustodyAlreadyResolved),
        rf.failure(l2) == Some(EscrowError::CustodyAlreadyResolved),
{
    lemma_removed_record_gone(l, l2, tk.maker@, tk.seed);
}

/// SetReceiver succeeds only on a record whose receiver is unset; after it
/// has, every later SetReceiver on that record fails, and the receiver it
/// set stays.
pub proof fn lemma_receiver_set_once(sr: SetReceiver, l: Ledger, l2: Ledger, sr2: SetReceiver)
    requires
        l.wf(),
        sr.failure(l) is None,
        sr.done(l, l2),
        sr2.maker@ == sr.maker@,
        sr2.seed == sr.seed,
    ensures
        l.records@[l.record_index(sr.maker@, sr.seed)].state.receiver is None,
        l2.has_record(sr.maker@, sr.seed),
        l2.records@[l2.record_index(sr.maker@, sr.seed)].state.receiver == Some(sr.receiver),
        sr2.failure(l2) is Some,
        sr2.signer@ == sr2.maker@ ==> sr2.failure(l2) == Some(EscrowError::ReceiverAlreadySet),
{
    let i = l.record_index(sr.maker@, sr.seed);
    assert(l2.records@[i].is_for(sr.maker@, sr.seed));
    assert(l2.has_record(sr.maker@, sr.seed));
    let k = l2.record_index(sr.maker@, sr.seed);
    if k != i {
        assert(l.records@[k] == l2.records@[k]);
        assert(!l.records@[k].is_for(l.records@[i].state.maker@, l.records@[i].state.seed));
    }
}

/// A Take by anyone but the designated receiver, once one is set, fails with
/// `Unauthorized`; `Take::release` then leaves the ledger as it was.
pub proof fn lemma_take_by_stranger_refused(tk: Take, l: Ledger)
    requires
        l.wf(),
        l.has_record(tk.maker@, tk.seed),
        l.records@[l.record_index(tk.maker@, tk.seed)].state.receiver matches Some(x) && x@ != tk.taker@,
    ensures
        tk.failure(l) == Some(EscrowError::Unauthorized),
{
}

/// A Refund signed by anyone but the maker fails with `Unauthorized`;
/// `Refund::refund` then leaves the ledger as it was.
pub proof fn lemma_refund_by_stranger_refused(rf: Refund, l: Ledger)
    requires
        l.wf(),
        l.has_record(rf.maker@, rf.seed),
        rf.signer@ != rf.maker@,
    ensures
        rf.failure(l) == Some(EscrowError::Unauthorized),
{
    let rec = l.records@[l.record_index(rf.maker@, rf.seed)];
    assert(rec.is_for(rf.maker@, rf.seed));
}

} // verus!
