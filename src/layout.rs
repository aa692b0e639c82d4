//! The stored form of an escrow record: an eight-byte type tag, then the
//! fields in declaration order, integers little-endian, the receiver as a
//! presence byte followed by its bytes when present.
use vstd::prelude::*;
use vstd::arithmetic::div_mod::{lemma_fundamental_div_mod_converse};
use anchor_lang::solana_program::hash::hash;
use crate::address::Address;
use crate::derivation::{byte_place, le_bytes, lemma_le_bytes_injective, lemma_le_bytes_len, nonce_bytes};
use crate::state::EscrowState;

verus! {

/// The SHA-256 digest of `data`.
pub uninterp spec fn sha256_of(data: Seq<u8>) -> Seq<u8>;

/// Relies on `hash::hash` (solana-program, re-exported by anchor-lang): the
/// SHA-256 digest of `data`, which depends on `data` alone.
#[verifier::external_body]
fn sha256(data: &Vec<u8>) -> (r: [u8; 32])
    ensures
        r@ == sha256_of(data@),
{
    hash(data.as_slice()).to_bytes()
}

/// The bytes of "account:EscrowState", whose digest names the record type.
pub open spec fn tag_preimage() -> Seq<u8> {
    seq![97u8, 99u8, 99u8, 111u8, 117u8, 110u8, 116u8, 58u8, 69u8, 115u8, 99u8, 114u8, 111u8, 119u8, 83u8, 116u8, 97u8, 116u8, 101u8]
}

/// The type tag of a stored record: the first eight bytes of the digest of its name.
pub open spec fn record_tag() -> Seq<u8> {
    sha256_of(tag_preimage()).subrange(0, 8)
}

/// The stored form of the receiver.
pub open spec fn receiver_bytes(r: Option<Address>) -> Seq<u8> {
    match r {
        None => seq![0u8],
        Some(a) => seq![1u8] + a@,
    }
}

/// The stored form of `s` under the type tag `tag`.
pub open spec fn encoding(s: EscrowState, tag: Seq<u8>) -> Seq<u8> {
    tag + le_bytes(s.seed as nat, 8) + s.maker@ + s.mint_a@ + le_bytes(s.amount as nat, 8) + le_bytes(
        s.receive_amount as nat,
        8,
    ) + seq![s.bump] + receiver_bytes(s.receiver)
}

/// The record that `data` stores under `tag`, if it stores one.
pub open spec fn decoding(data: Seq<u8>, tag: Seq<u8>) -> Option<EscrowState> {
    if exists|s: EscrowState| encoding(s, tag) == data {
        Some(choose|s: EscrowState| encoding(s, tag) == data)
    } else {
        None
    }
}

/// The length, tag and presence byte of a stored record.
pub proof fn lemma_encoding_shape(s: EscrowState, tag: Seq<u8>)
    requires
        tag.len() == 8,
    ensures
        encoding(s, tag).len() == if s.receiver is None { 98int } else { 130int },
        encoding(s, tag).subrange(0, 8) == tag,
        encoding(s, tag)[97] == if s.receiver is None { 0u8 } else { 1u8 },
{
    lemma_le_bytes_len(s.seed as nat, 8);
    lemma_le_bytes_len(s.amount as nat, 8);
    lemma_le_bytes_len(s.receive_amount as nat, 8);
    assert(encoding(s, tag).subrange(0, 8) =~= tag);
}

/// Different records never share a stored form.
pub proof fn lemma_encoding_injective(s1: EscrowState, s2: EscrowState, tag: Seq<u8>)
    requires
        tag.len() == 8,
        encoding(s1, tag) == encoding(s2, tag),
    ensures
        s1 == s2,
{
    let e = encoding(s1, tag);
    lemma_encoding_shape(s1, tag);
    lemma_encoding_shape(s2, tag);
    lemma_le_bytes_len(s1.seed as nat, 8);
    lemma_le_bytes_len(s1.amount as nat, 8);
    lemma_le_bytes_len(s1.receive_amount as nat, 8);
    lemma_le_bytes_len(s2.seed as nat, 8);
    lemma_le_bytes_len(s2.amount as nat, 8);
    lemma_le_bytes_len(s2.receive_amount as nat, 8);
    assert(e.subrange(8, 16) =~= le_bytes(s1.seed as nat, 8));
    assert(e.subrange(8, 16) =~= le_bytes(s2.seed as nat, 8));
    lemma_le_bytes_injective(s1.seed, s2.seed);
    assert(e.subrange(16, 48) =~= s1.maker@);
    assert(e.subrange(16, 48) =~= s2.maker@);
    assert(s1.maker.bytes =~= s2.maker.bytes);
    assert(e.subrange(48, 80) =~= s1.mint_a@);
    assert(e.subrange(48, 80) =~= s2.mint_a@);
    assert(s1.mint_a.bytes =~= s2.mint_a.bytes);
    assert(e.subrange(80, 88) =~= le_bytes(s1.amount as nat, 8));
    assert(e.subrange(80, 88) =~= le_bytes(s2.amount as nat, 8));
    lemma_le_bytes_injective(s1.amount, s2.amount);
    assert(e.subrange(88, 96) =~= le_bytes(s1.receive_amount as nat, 8));
    assert(e.subrange(88, 96) =~= le_bytes(s2.receive_amount as nat, 8));
    lemma_le_bytes_injective(s1.receive_amount, s2.receive_amount);
    assert(e[96] == s1.bump);
    assert(e[96] == s2.bump);
    match (s1.receiver, s2.receiver) {
        (Some(a1), Some(a2)) => {
            assert(e.subrange(98, 130) =~= a1@);
            assert(e.subrange(98, 130) =~= a2@);
            assert(a1.bytes =~= a2.bytes);
        },
        _ => {},
    }
}

/// Decoding the stored form of a record gives the record back.
pub proof fn lemma_record_round_trip(s: EscrowState, tag: Seq<u8>)
    requires
        tag.len() == 8,
    ensures
        decoding(encoding(s, tag), tag) == Some(s),
{
    let data = encoding(s, tag);
    assert(exists|t: EscrowState| encoding(t, tag) == data);
    let t = choose|t: EscrowState| encoding(t, tag) == data;
    lemma_encoding_injective(s, t, tag);
}

/// Appends `bytes` to `out`.
fn extend(out: &mut Vec<u8>, bytes: &Vec<u8>)
    ensures
        final(out)@ == old(out)@ + bytes@,
{
    let mut i: usize = 0;
    while i < bytes.len()
        invariant
            0 <= i <= bytes@.len(),
            out@ == old(out)@ + bytes@.subrange(0, i as int),
        decreases bytes@.len() - i,
    {
        out.push(bytes[i]);
        i = i + 1;
        assert(out@ =~= old(out)@ + bytes@.subrange(0, i as int));
    }
    assert(bytes@.subrange(0, bytes@.len() as int) =~= bytes@);
}

/// The type tag of a stored record.
pub fn record_discriminator() -> (r: Vec<u8>)
    ensures
        r@ == record_tag(),
        r@.len() == 8,
{
    let pre: Vec<u8> = vec![97u8, 99u8, 99u8, 111u8, 117u8, 110u8, 116u8, 58u8, 69u8, 115u8, 99u8, 114u8, 111u8, 119u8, 83u8, 116u8, 97u8, 116u8, 101u8];
    assert(pre@ =~= tag_preimage());
    let digest = sha256(&pre);
    let mut r: Vec<u8> = Vec::new();
    let mut i: usize = 0;
    while i < 8
        invariant
            0 <= i <= 8,
            digest@.len() == 32,
            r@ == digest@.subrange(0, i as int),
        decreases 8 - i,
    {
        r.push(digest[i]);
        i = i + 1;
        assert(r@ =~= digest@.subrange(0, i as int));
    }
    r
}

/// The stored form of `state` under the type tag `tag`.
pub fn encode_record(state: &EscrowState, tag: &Vec<u8>) -> (r: Vec<u8>)
    ensures
        r@ == encoding(*state, tag@),
{
    let mut r: Vec<u8> = Vec::new();
    extend(&mut r, tag);
    extend(&mut r, &nonce_bytes(state.seed));
    extend(&mut r, &state.maker.to_vec());
    extend(&mut r, &state.mint_a.to_vec());
    extend(&mut r, &nonce_bytes(state.amount));
    extend(&mut r, &nonce_bytes(state.receive_amount));
    r.push(state.bump);
    match state.receiver {
        None => r.push(0u8),
        Some(a) => {
            r.push(1u8);
            extend(&mut r, &a.to_vec());
        },
    }
    assert(r@ =~= encoding(*state, tag@));
    r
}

/// Powers of 256 grow with the exponent.
proof fn lemma_byte_place_le(k: nat, m: nat)
    requires
        k <= m,
    ensures
        0 < byte_place(k) <= byte_place(m),
    decreases m - k,
{
    if k < m {
        lemma_byte_place_le(k, (m - 1) as nat);
    } else {
        crate::derivation::lemma_le_bytes_value(0, k);
    }
}

/// Reads the eight little-endian bytes at `at`.
fn read_u64(data: &Vec<u8>, at: usize) -> (r: u64)
    requires
        at + 8 <= data@.len(),
    ensures
        le_bytes(r as nat, 8) == data@.subrange(at as int, at + 8),
{
    assert(byte_place(8) == 0x1_0000_0000_0000_0000nat) by {
        reveal_with_fuel(byte_place, 9);
    }
    let len = data.len();
    let mut v: u64 = 0;
    let mut i: usize = 8;
    while i > 0
        invariant
            0 <= i <= 8,
            at + 8 <= data@.len(),
            data@.len() == len,
            byte_place(8) == 0x1_0000_0000_0000_0000nat,
            (v as nat) < byte_place((8 - i) as nat),
            le_bytes(v as nat, (8 - i) as nat) == data@.subrange(at + i, at + 8),
        decreases i,
    {
        i = i - 1;
        let b = data[at + i];
        let ghost k = (8 - i - 1) as nat;
        proof {
            lemma_byte_place_le(k + 1, 8);
            let p = byte_place(k);
            assert(byte_place(k + 1) == 256 * p);
            assert((v as nat) * 256 + (b as nat) < 256 * p) by (nonlinear_arith)
                requires
                    (v as nat) < p,
                    (b as nat) < 256,
            ;
        }
        let ghost old_v = v;
        v = v * 256 + b as u64;
        proof {
            lemma_fundamental_div_mod_converse(v as int, 256, old_v as int, b as int);
            assert(le_bytes(v as nat, k + 1) == seq![b] + le_bytes(old_v as nat, k));
            assert(data@.subrange(at + i, at + 8) =~= seq![b] + data@.subrange(at + i + 1, at + 8));
        }
    }
    v
}

/// Reads the thirty-two bytes at `at` as an identity.
fn read_address(data: &Vec<u8>, at: usize) -> (r: Address)
    requires
        at + 32 <= data@.len(),
    ensures
        r@ == data@.subrange(at as int, at + 32),
{
    let len = data.len();
    let mut bytes = [0u8; 32];
    let mut i: usize = 0;
    while i < 32
        invariant
            0 <= i <= 32,
            at + 32 <= data@.len(),
            data@.len() == len,
            bytes@.len() == 32,
            forall|j: int| 0 <= j < i ==> bytes@[j] == data@[at + j],
        decreases 32 - i,
    {
        bytes[i] = data[at + i];
        i = i + 1;
    }
    assert(bytes@ =~= data@.subrange(at as int, at + 32));
    Address { bytes }
}

/// The record stored in `data` under the type tag `tag`, if `data` is the
/// stored form of one.
pub fn decode_record(data: &Vec<u8>, tag: &Vec<u8>) -> (r: Option<EscrowState>)
    requires
        tag@.len() == 8,
    ensures
        r == decoding(data@, tag@),
{
    let n = data.len();
    if n != 98 && n != 130 {
        proof {
            assert forall|s: EscrowState| encoding(s, tag@) != data@ by {
                lemma_encoding_shape(s, tag@);
            }
        }
        return None;
    }
    let mut i: usize = 0;
    while i < 8
        invariant
            0 <= i <= 8,
            tag@.len() == 8,
            data@.len() == n,
            n == 98 || n == 130,
            forall|j: int| 0 <= j < i ==> data@[j] == tag@[j],
        decreases 8 - i,
    {
        if data[i] != tag[i] {
            proof {
                assert forall|s: EscrowState| encoding(s, tag@) != data@ by {
                    lemma_encoding_shape(s, tag@);
                    assert(encoding(s, tag@).subrange(0, 8)[i as int] == tag@[i as int]);
                }
            }
            return None;
        }
        i = i + 1;
    }
    let presence = data[97];
    if (n == 98 && presence != 0) || (n == 130 && presence != 1) {
        proof {
            assert forall|s: EscrowState| encoding(s, tag@) != data@ by {
                lemma_encoding_shape(s, tag@);
            }
        }
        return None;
    }
    let seed = read_u64(data, 8);
    let maker = read_address(data, 16);
    let mint_a = read_address(data, 48);
    let amount = read_u64(data, 80);
    let receive_amount = read_u64(data, 88);
    let bump = data[96];
    let receiver = if n == 98 {
        None
    } else {
        Some(read_address(data, 98))
    };
    let s = EscrowState { seed, maker, mint_a, amount, receive_amount, bump, receiver };
    proof {
        assert(data@.subrange(0, 8) =~= tag@);
        lemma_le_bytes_len(seed as nat, 8);
        lemma_le_bytes_len(amount as nat, 8);
        lemma_le_bytes_len(receive_amount as nat, 8);
        let tail = if n == 98 {
            seq![0u8]
        } else {
            seq![1u8] + data@.subrange(98, 130)
        };
        assert(receiver_bytes(receiver) =~= tail);
        assert(data@ =~= data@.subrange(0, 8) + data@.subrange(8, 16) + data@.subrange(16, 48) + data@.subrange(48, 80)
            + data@.subrange(80, 88) + data@.subrange(88, 96) + seq![data@[96]] + tail);
        assert(encoding(s, tag@) == data@);
        let t = choose|t: EscrowState| encoding(t, tag@) == data@;
        lemma_encoding_injective(s, t, tag@);
    }
    Some(s)
}

impl EscrowState {
    /// The stored form of this record, under its type tag.
    pub fn to_bytes(&self) -> (r: Vec<u8>)
        ensures
            r@ == encoding(*self, record_tag()),
    {
        let tag = record_discriminator();
        encode_record(self, &tag)
    }

    /// The record stored in `data`, if `data` is the stored form of one.
    pub fn from_bytes(data: &Vec<u8>) -> (r: Option<EscrowState>)
        ensures
            r == decoding(data@, record_tag()),
    {
        let tag = record_discriminator();
        decode_record(data, &tag)
    }
}

} // verus!
