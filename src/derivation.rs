//! Derivation of the keyless authority that controls a custody account.
//!
//! The authority of a record is the program address derived from the seeds
//! `[namespace, maker, nonce as little-endian bytes, proof]` and the program's
//! own identity. The proof ("bump") is the largest value that gives an
//! address off the signing curve.
use vstd::prelude::*;
use vstd::arithmetic::div_mod::{lemma_breakdown, lemma_small_mod};
use anchor_lang::solana_program::pubkey::Pubkey;
use crate::address::Address;
use crate::error::EscrowError;

verus! {

/// The address that the host derives from `seeds` under `program_id`, or
/// `None` where the candidate lies on the signing curve.
pub uninterp spec fn program_address(seeds: Seq<Seq<u8>>, program_id: Seq<u8>) -> Option<Seq<u8>>;

/// Largest number of seeds the host accepts in one derivation.
pub const MAX_SEEDS: usize = 16;

/// Largest length of one seed.
pub const MAX_SEED_LEN: usize = 32;

/// Seeds the host accepts: at most `MAX_SEEDS` of them, none longer than `MAX_SEED_LEN`.
pub open spec fn seeds_within_limits(seeds: Seq<Seq<u8>>) -> bool {
    &&& seeds.len() <= MAX_SEEDS
    &&& forall|i: int| 0 <= i < seeds.len() ==> #[trigger] seeds[i].len() <= MAX_SEED_LEN
}

/// Relies on `Pubkey::create_program_address` (solana-program, re-exported by
/// anchor-lang): with seeds within the limits, it fails only when the derived
/// candidate is on the curve, and its result depends on the arguments alone.
#[verifier::external_body]
fn create_program_address(seeds: &Vec<Vec<u8>>, program_id: &Address) -> (r: Option<Address>)
    requires
        seeds_within_limits(seeds.deep_view()),
    ensures
        match r {
            Some(a) => program_address(seeds.deep_view(), program_id@) == Some(a@),
            None => program_address(seeds.deep_view(), program_id@) is None,
        },
{
    let s: Vec<&[u8]> = seeds.iter().map(|v| v.as_slice()).collect();
    let pid = Pubkey::new_from_array(program_id.bytes);
    Pubkey::create_program_address(&s, &pid).ok().map(|k| Address { bytes: k.to_bytes() })
}

/// Relies on `Pubkey::try_find_program_address` (solana-program, re-exported
/// by anchor-lang): it tries the proofs 255 down to 1, appended as a last
/// one-byte seed, and returns the first that `create_program_address` accepts.
#[verifier::external_body]
fn try_find_program_address(seeds: &Vec<Vec<u8>>, program_id: &Address) -> (r: Option<(Address, u8)>)
    requires
        seeds_within_limits(seeds.deep_view().push(seq![0u8])),
    ensures
        match r {
            Some((a, b)) => {
                &&& 1 <= b
                &&& program_address(seeds.deep_view().push(seq![b]), program_id@) == Some(a@)
                &&& forall|c: u8|
                    b < c ==> (#[trigger] program_address(seeds.deep_view().push(seq![c]), program_id@)) is None
            },
            None => forall|c: u8|
                1 <= c ==> (#[trigger] program_address(seeds.deep_view().push(seq![c]), program_id@)) is None,
        },
{
    let s: Vec<&[u8]> = seeds.iter().map(|v| v.as_slice()).collect();
    let pid = Pubkey::new_from_array(program_id.bytes);
    Pubkey::try_find_program_address(&s, &pid).map(|(k, b)| (Address { bytes: k.to_bytes() }, b))
}

/// The namespace that opens every record's seeds: the bytes of "escrow".
pub open spec fn namespace() -> Seq<u8> {
    seq![101u8, 115u8, 99u8, 114u8, 111u8, 119u8]
}

/// The `k` low bytes of `n`, least significant first.
pub open spec fn le_bytes(n: nat, k: nat) -> Seq<u8>
    decreases k,
{
    if k == 0 {
        Seq::empty()
    } else {
        seq![(n % 256) as u8] + le_bytes(n / 256, (k - 1) as nat)
    }
}

/// The seeds of the record of `maker` with `nonce`, without the proof.
pub open spec fn record_seeds(maker: Seq<u8>, nonce: u64) -> Seq<Seq<u8>> {
    seq![namespace(), maker, le_bytes(nonce as nat, 8)]
}

/// The same seeds with the proof appended as a last one-byte seed.
pub open spec fn signer_seeds(maker: Seq<u8>, nonce: u64, proof: u8) -> Seq<Seq<u8>> {
    record_seeds(maker, nonce).push(seq![proof])
}

/// The authority of `maker`'s record with `nonce` and `proof` under `program_id`.
pub open spec fn authority_of(program_id: Seq<u8>, maker: Seq<u8>, nonce: u64, proof: u8) -> Option<Seq<u8>> {
    program_address(signer_seeds(maker, nonce, proof), program_id)
}

/// The proof and authority that the downward search settles on: the largest
/// proof from 255 down to 1 whose derivation succeeds.
pub open spec fn is_found_authority(program_id: Seq<u8>, maker: Seq<u8>, nonce: u64, proof: u8, authority: Seq<u8>) -> bool {
    &&& 1 <= proof
    &&& authority_of(program_id, maker, nonce, proof) == Some(authority)
    &&& forall|c: u8| proof < c ==> (#[trigger] authority_of(program_id, maker, nonce, c)) is None
}

/// Whether no proof from 255 down to 1 gives an authority.
pub open spec fn derivation_exhausted(program_id: Seq<u8>, maker: Seq<u8>, nonce: u64) -> bool {
    forall|c: u8| 1 <= c ==> (#[trigger] authority_of(program_id, maker, nonce, c)) is None
}

/// `le_bytes(n, k)` has `k` bytes.
pub proof fn lemma_le_bytes_len(n: nat, k: nat)
    ensures
        le_bytes(n, k).len() == k,
    decreases k,
{
    if k > 0 {
        lemma_le_bytes_len(n / 256, (k - 1) as nat);
    }
}

/// `256` to the power `k`.
pub open spec fn byte_place(k: nat) -> nat
    decreases k,
{
    if k == 0 {
        1
    } else {
        256 * byte_place((k - 1) as nat)
    }
}

/// The number whose little-endian bytes are `s`.
pub open spec fn le_value(s: Seq<u8>) -> nat
    decreases s.len(),
{
    if s.len() == 0 {
        0
    } else {
        (s[0] as nat) + 256 * le_value(s.drop_first())
    }
}

/// The `k` low bytes of `n` read back give `n` modulo `256` to the power `k`.
pub proof fn lemma_le_bytes_value(n: nat, k: nat)
    ensures
        byte_place(k) > 0,
        le_value(le_bytes(n, k)) == n % byte_place(k),
    decreases k,
{
    if k > 0 {
        let s = le_bytes(n, k);
        assert(s.drop_first() =~= le_bytes(n / 256, (k - 1) as nat));
        lemma_le_bytes_value(n / 256, (k - 1) as nat);
        lemma_breakdown(n as int, 256, byte_place((k - 1) as nat) as int);
    }
}

/// Two nonces with the same bytes are the same nonce.
pub proof fn lemma_le_bytes_injective(a: u64, b: u64)
    requires
        le_bytes(a as nat, 8) == le_bytes(b as nat, 8),
    ensures
        a == b,
{
    lemma_le_bytes_value(a as nat, 8);
    lemma_le_bytes_value(b as nat, 8);
    assert(byte_place(8) == 0x1_0000_0000_0000_0000nat) by {
        reveal_with_fuel(byte_place, 9);
    }
    lemma_small_mod(a as nat, byte_place(8));
    lemma_small_mod(b as nat, byte_place(8));
}

/// The record seeds, with a proof of any value appended, are within the host's limits.
pub proof fn lemma_signer_seeds_within_limits(maker: Seq<u8>, nonce: u64, proof: u8)
    requires
        maker.len() == 32,
    ensures
        seeds_within_limits(signer_seeds(maker, nonce, proof)),
{
    lemma_le_bytes_len(nonce as nat, 8);
    let s = signer_seeds(maker, nonce, proof);
    assert(s[0] == namespace());
    assert(s[3] == seq![proof]);
    assert forall|i: int| 0 <= i < s.len() implies #[trigger] s[i].len() <= MAX_SEED_LEN by {}
}

/// Searches the proofs from 255 down to 1 for the first that gives `maker`'s
/// record with `nonce` a keyless authority under `program_id`.
pub fn find_authority(program_id: &Address, maker: &Address, nonce: u64) -> (r: Result<(Address, u8), EscrowError>)
    ensures
        match r {
            Ok((a, b)) => is_found_authority(program_id@, maker@, nonce, b, a@),
            Err(e) => e == EscrowError::DerivationExhausted && derivation_exhausted(program_id@, maker@, nonce),
        },
{
    let seeds = make_record_seeds(maker, nonce);
    proof {
        lemma_signer_seeds_within_limits(maker@, nonce, 0);
    }
    match try_find_program_address(&seeds, program_id) {
        Some((a, b)) => {
            assert forall|c: u8| b < c implies (#[trigger] authority_of(program_id@, maker@, nonce, c)) is None by {
                assert(program_address(seeds.deep_view().push(seq![c]), program_id@) is None);
            }
            Ok((a, b))
        },
        None => {
            assert forall|c: u8| 1 <= c implies (#[trigger] authority_of(program_id@, maker@, nonce, c)) is None by {
                assert(program_address(seeds.deep_view().push(seq![c]), program_id@) is None);
            }
            Err(EscrowError::DerivationExhausted)
        },
    }
}

/// The seeds that sign for `maker`'s record with `nonce` and `proof`.
pub fn signer_seed_bytes(maker: &Address, nonce: u64, proof: u8) -> (r: Vec<Vec<u8>>)
    ensures
        r.deep_view() == signer_seeds(maker@, nonce, proof),
{
    let mut seeds = make_record_seeds(maker, nonce);
    let bump = vec![proof];
    assert(bump@ =~= seq![proof]);
    let ghost before = seeds.deep_view();
    seeds.push(bump);
    proof {
        assert(seeds.deep_view()[0] == before[0]);
        assert(seeds.deep_view()[1] == before[1]);
        assert(seeds.deep_view()[2] == before[2]);
        assert(seeds@[3].deep_view() =~= seq![proof]);
        assert(seeds.deep_view() =~= signer_seeds(maker@, nonce, proof));
    }
    seeds
}

/// Re-derives the authority of `maker`'s record with `nonce` from a stored `proof`.
pub fn derive_authority(program_id: &Address, maker: &Address, nonce: u64, proof: u8) -> (r: Option<Address>)
    ensures
        match r {
            Some(a) => authority_of(program_id@, maker@, nonce, proof) == Some(a@),
            None => authority_of(program_id@, maker@, nonce, proof) is None,
        },
{
    let seeds = signer_seed_bytes(maker, nonce, proof);
    proof {
        lemma_signer_seeds_within_limits(maker@, nonce, proof);
    }
    create_program_address(&seeds, program_id)
}

/// The bytes of the namespace.
pub fn namespace_bytes() -> (r: Vec<u8>)
    ensures
        r@ == namespace(),
{
    let r = vec![101u8, 115u8, 99u8, 114u8, 111u8, 119u8];
    assert(r@ =~= namespace());
    r
}

/// The eight bytes of `n`, least significant first.
pub fn nonce_bytes(n: u64) -> (r: Vec<u8>)
    ensures
        r@ == le_bytes(n as nat, 8),
{
    let mut r: Vec<u8> = Vec::new();
    let mut v: u64 = n;
    let mut i: usize = 0;
    while i < 8
        invariant
            0 <= i <= 8,
            r@ + le_bytes(v as nat, (8 - i) as nat) == le_bytes(n as nat, 8),
        decreases 8 - i,
    {
        let ghost old_r = r@;
        r.push((v % 256) as u8);
        assert(le_bytes(v as nat, (8 - i) as nat) == seq![(v % 256) as u8] + le_bytes(
            (v / 256) as nat,
            (8 - i - 1) as nat,
        ));
        assert(r@ + le_bytes((v / 256) as nat, (8 - i - 1) as nat) =~= old_r + le_bytes(
            v as nat,
            (8 - i) as nat,
        ));
        v = v / 256;
        i = i + 1;
    }
    assert(r@ =~= r@ + le_bytes(v as nat, 0));
    r
}

/// The seeds of the record of `maker` with `nonce`, without the proof.
pub fn make_record_seeds(maker: &Address, nonce: u64) -> (r: Vec<Vec<u8>>)
    ensures
        r@.len() == 3,
        r.deep_view() == record_seeds(maker@, nonce),
{
    let mut r: Vec<Vec<u8>> = Vec::new();
    r.push(namespace_bytes());
    r.push(maker.to_vec());
    r.push(nonce_bytes(nonce));
    assert(r@[0].deep_view() =~= r@[0]@);
    assert(r@[1].deep_view() =~= r@[1]@);
    assert(r@[2].deep_view() =~= r@[2]@);
    assert(r.deep_view() =~= record_seeds(maker@, nonce));
    r
}

} // verus!
