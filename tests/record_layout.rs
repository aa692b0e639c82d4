use anchor_lang::solana_program::hash::hash;
use escrow::address::Address;
use escrow::layout::{decode_record, encode_record, record_discriminator};
use escrow::state::EscrowState;

fn sample(receiver: Option<Address>) -> EscrowState {
    EscrowState {
        seed: 0x0102,
        maker: Address::new([1; 32]),
        mint_a: Address::new([10; 32]),
        amount: 1000,
        receive_amount: 200,
        bump: 254,
        receiver,
    }
}

fn same_state(a: &EscrowState, b: &EscrowState) -> bool {
    a.seed == b.seed
        && a.maker.same(&b.maker)
        && a.mint_a.same(&b.mint_a)
        && a.amount == b.amount
        && a.receive_amount == b.receive_amount
        && a.bump == b.bump
        && match (a.receiver, b.receiver) {
            (None, None) => true,
            (Some(x), Some(y)) => x.same(&y),
            _ => false,
        }
}

#[test]
fn discriminator_is_digest_prefix_of_type_name() {
    let digest = hash(b"account:EscrowState").to_bytes();
    assert_eq!(record_discriminator(), digest[..8].to_vec());
}

#[test]
fn encoding_layout_is_exact() {
    let tag = vec![9u8; 8];
    let bytes = encode_record(&sample(None), &tag);
    let mut expected = vec![9u8; 8];
    expected.extend_from_slice(&0x0102u64.to_le_bytes());
    expected.extend_from_slice(&[1; 32]);
    expected.extend_from_slice(&[10; 32]);
    expected.extend_from_slice(&1000u64.to_le_bytes());
    expected.extend_from_slice(&200u64.to_le_bytes());
    expected.push(254);
    expected.push(0);
    assert_eq!(bytes.len(), 98);
    assert_eq!(bytes, expected);
}

#[test]
fn encoding_with_receiver_appends_it() {
    let tag = vec![0u8; 8];
    let bytes = encode_record(&sample(Some(Address::new([2; 32]))), &tag);
    assert_eq!(bytes.len(), 130);
    assert_eq!(bytes[97], 1);
    assert_eq!(bytes[98..].to_vec(), vec![2u8; 32]);
}

#[test]
fn stored_record_round_trips() {
    for receiver in [None, Some(Address::new([2; 32]))] {
        let state = sample(receiver);
        let bytes = state.to_bytes();
        assert_eq!(bytes[..8].to_vec(), record_discriminator());
        let back = EscrowState::from_bytes(&bytes).unwrap();
        assert!(same_state(&back, &state));
    }
}

#[test]
fn malformed_records_are_rejected() {
    let tag = vec![3u8; 8];
    let good = encode_record(&sample(None), &tag);
    assert!(decode_record(&good, &tag).is_some());
    let mut wrong_tag = good.clone();
    wrong_tag[0] = 4;
    assert!(decode_record(&wrong_tag, &tag).is_none());
    let mut bad_presence = good.clone();
    bad_presence[97] = 1;
    assert!(decode_record(&bad_presence, &tag).is_none());
    let short = good[..97].to_vec();
    assert!(decode_record(&short, &tag).is_none());
    assert!(decode_record(&Vec::new(), &tag).is_none());
    assert!(EscrowState::from_bytes(&good).is_none());
}
