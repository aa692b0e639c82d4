use escrow::address::Address;
use escrow::error::EscrowError;
use escrow::instructions::{Make, Refund, SetReceiver, Take};
use escrow::ledger::Ledger;

fn addr(b: u8) -> Address {
    Address::new([b; 32])
}

struct World {
    ledger: Ledger,
    maker: Address,
    mint_a: usize,
    mint_b: usize,
    maker_ata_a: usize,
    maker_ata_b: usize,
}

fn world(maker_funds: u64) -> World {
    let mut ledger = Ledger::new(addr(7));
    let maker = addr(1);
    let mint_a = ledger.add_mint(addr(10), 6);
    let mint_b = ledger.add_mint(addr(11), 9);
    let maker_ata_a = ledger.open_account(maker, addr(10));
    let maker_ata_b = ledger.open_account(maker, addr(11));
    ledger.mint_to(maker_ata_a, maker_funds).unwrap();
    World { ledger, maker, mint_a, mint_b, maker_ata_a, maker_ata_b }
}

fn make_op(w: &World) -> Make {
    Make { maker: w.maker, mint_a: w.mint_a, maker_ata_a: w.maker_ata_a }
}

fn refund_op(w: &World, signer: Address, seed: u64) -> Refund {
    Refund { signer, maker: w.maker, seed, mint_a: w.mint_a, maker_ata_a: w.maker_ata_a }
}

fn take_op(w: &World, taker: Address, seed: u64, taker_ata_a: usize, receive_amount: u64, taker_ata_b: usize) -> Take {
    Take {
        taker,
        maker: w.maker,
        seed,
        mint_a: w.mint_a,
        taker_ata_a,
        receive_amount,
        mint_b: w.mint_b,
        taker_ata_b,
        maker_ata_b: w.maker_ata_b,
    }
}

fn vault_of(w: &World, seed: u64) -> usize {
    let i = w.ledger.find_record(&w.maker, seed).unwrap();
    w.ledger.records[i].vault
}

fn total(l: &Ledger, accounts: &[usize]) -> u64 {
    accounts.iter().map(|a| l.balance(*a).unwrap_or(0)).sum()
}

#[test]
fn make_locks_funds_in_custody() {
    let mut w = world(5000);
    assert_eq!(make_op(&w).make(&mut w.ledger, 1, 1000, 0), Ok(()));
    assert_eq!(w.ledger.balance(w.maker_ata_a), Some(4000));
    let vault = vault_of(&w, 1);
    assert_eq!(w.ledger.balance(vault), Some(1000));
    let state = w.ledger.record(&w.maker, 1).unwrap();
    assert!(state.receiver.is_none());
    assert_eq!(state.amount, 1000);
    assert_eq!(state.receive_amount, 0);
    assert_eq!(state.seed, 1);
    assert!(state.maker.same(&w.maker));
    assert!(state.mint_a.same(&addr(10)));
}

#[test]
fn refund_restores_maker_balance() {
    let mut w = world(5000);
    make_op(&w).make(&mut w.ledger, 1, 1000, 0).unwrap();
    let vault = vault_of(&w, 1);
    assert_eq!(refund_op(&w, w.maker, 1).refund(&mut w.ledger), Ok(()));
    assert_eq!(w.ledger.balance(w.maker_ata_a), Some(5000));
    assert_eq!(w.ledger.balance(vault), None);
    assert!(!w.ledger.is_account_open(vault));
    assert!(w.ledger.record(&w.maker, 1).is_none());
}

#[test]
fn release_pays_designated_receiver() {
    let mut w = world(1000);
    make_op(&w).make(&mut w.ledger, 1, 1000, 0).unwrap();
    let vault = vault_of(&w, 1);
    let bob = addr(2);
    let set = SetReceiver { signer: w.maker, maker: w.maker, seed: 1, receiver: bob };
    assert_eq!(set.set_receiver(&mut w.ledger), Ok(()));
    let bob_ata = w.ledger.open_account(bob, addr(10));
    let take = take_op(&w, bob, 1, bob_ata, 0, bob_ata);
    assert_eq!(take.release(&mut w.ledger), Ok(()));
    assert_eq!(w.ledger.balance(bob_ata), Some(1000));
    assert_eq!(w.ledger.balance(vault), None);
    assert!(w.ledger.record(&w.maker, 1).is_none());
    assert_eq!(take.release(&mut w.ledger), Err(EscrowError::CustodyAlreadyResolved));
    assert_eq!(w.ledger.balance(bob_ata), Some(1000));
}

#[test]
fn take_without_counter_funds_fails() {
    let mut w = world(500);
    make_op(&w).make(&mut w.ledger, 2, 500, 200).unwrap();
    let vault = vault_of(&w, 2);
    let taker = addr(3);
    let taker_ata_a = w.ledger.open_account(taker, addr(10));
    let taker_ata_b = w.ledger.open_account(taker, addr(11));
    w.ledger.mint_to(taker_ata_b, 199).unwrap();
    let take = take_op(&w, taker, 2, taker_ata_a, 200, taker_ata_b);
    assert_eq!(take.release(&mut w.ledger), Err(EscrowError::InsufficientBalance));
    assert_eq!(w.ledger.balance(vault), Some(500));
    assert_eq!(w.ledger.balance(taker_ata_b), Some(199));
    assert_eq!(w.ledger.balance(taker_ata_a), Some(0));
    assert!(w.ledger.record(&w.maker, 2).is_some());
}

#[test]
fn exchange_conserves_both_assets() {
    let mut w = world(800);
    let taker = addr(3);
    let taker_ata_a = w.ledger.open_account(taker, addr(10));
    let taker_ata_b = w.ledger.open_account(taker, addr(11));
    w.ledger.mint_to(taker_ata_b, 300).unwrap();
    let a_accounts = [w.maker_ata_a, taker_ata_a];
    let b_accounts = [w.maker_ata_b, taker_ata_b];
    let a_before = total(&w.ledger, &a_accounts);
    let b_before = total(&w.ledger, &b_accounts);
    make_op(&w).make(&mut w.ledger, 2, 500, 200).unwrap();
    let vault = vault_of(&w, 2);
    assert_eq!(total(&w.ledger, &[w.maker_ata_a, taker_ata_a, vault]), a_before);
    let take = take_op(&w, taker, 2, taker_ata_a, 200, taker_ata_b);
    assert_eq!(take.release(&mut w.ledger), Ok(()));
    assert_eq!(w.ledger.balance(taker_ata_a), Some(500));
    assert_eq!(w.ledger.balance(w.maker_ata_a), Some(300));
    assert_eq!(w.ledger.balance(taker_ata_b), Some(100));
    assert_eq!(w.ledger.balance(w.maker_ata_b), Some(200));
    assert_eq!(total(&w.ledger, &a_accounts), a_before);
    assert_eq!(total(&w.ledger, &b_accounts), b_before);
}

#[test]
fn refund_conserves_locked_asset() {
    let mut w = world(900);
    let before = total(&w.ledger, &[w.maker_ata_a]);
    make_op(&w).make(&mut w.ledger, 4, 900, 0).unwrap();
    refund_op(&w, w.maker, 4).refund(&mut w.ledger).unwrap();
    assert_eq!(total(&w.ledger, &[w.maker_ata_a]), before);
}

#[test]
fn second_resolution_is_refused() {
    let mut w = world(1000);
    make_op(&w).make(&mut w.ledger, 1, 1000, 0).unwrap();
    refund_op(&w, w.maker, 1).refund(&mut w.ledger).unwrap();
    assert_eq!(refund_op(&w, w.maker, 1).refund(&mut w.ledger), Err(EscrowError::CustodyAlreadyResolved));
    let taker = addr(3);
    let taker_ata_a = w.ledger.open_account(taker, addr(10));
    let take = take_op(&w, taker, 1, taker_ata_a, 0, taker_ata_a);
    assert_eq!(take.release(&mut w.ledger), Err(EscrowError::CustodyAlreadyResolved));
    assert_eq!(w.ledger.balance(w.maker_ata_a), Some(1000));
}

#[test]
fn receiver_is_set_once() {
    let mut w = world(1000);
    make_op(&w).make(&mut w.ledger, 1, 1000, 0).unwrap();
    let bob = addr(2);
    let carol = addr(4);
    SetReceiver { signer: w.maker, maker: w.maker, seed: 1, receiver: bob }.set_receiver(&mut w.ledger).unwrap();
    let again = SetReceiver { signer: w.maker, maker: w.maker, seed: 1, receiver: carol };
    assert_eq!(again.set_receiver(&mut w.ledger), Err(EscrowError::ReceiverAlreadySet));
    let receiver = w.ledger.record(&w.maker, 1).unwrap().receiver.unwrap();
    assert!(receiver.same(&bob));
}

#[test]
fn receiver_set_only_by_maker() {
    let mut w = world(1000);
    make_op(&w).make(&mut w.ledger, 1, 1000, 0).unwrap();
    let stranger = addr(5);
    let set = SetReceiver { signer: stranger, maker: w.maker, seed: 1, receiver: stranger };
    assert_eq!(set.set_receiver(&mut w.ledger), Err(EscrowError::Unauthorized));
    assert!(w.ledger.record(&w.maker, 1).unwrap().receiver.is_none());
    let missing = SetReceiver { signer: w.maker, maker: w.maker, seed: 9, receiver: stranger };
    assert_eq!(missing.set_receiver(&mut w.ledger), Err(EscrowError::CustodyAlreadyResolved));
}

#[test]
fn take_by_stranger_is_refused() {
    let mut w = world(1000);
    make_op(&w).make(&mut w.ledger, 1, 1000, 0).unwrap();
    let vault = vault_of(&w, 1);
    SetReceiver { signer: w.maker, maker: w.maker, seed: 1, receiver: addr(2) }.set_receiver(&mut w.ledger).unwrap();
    let mallory = addr(6);
    let mallory_ata = w.ledger.open_account(mallory, addr(10));
    let take = take_op(&w, mallory, 1, mallory_ata, 0, mallory_ata);
    assert_eq!(take.release(&mut w.ledger), Err(EscrowError::Unauthorized));
    assert_eq!(w.ledger.balance(vault), Some(1000));
    assert_eq!(w.ledger.balance(mallory_ata), Some(0));
}

#[test]
fn take_without_receiver_is_open_to_anyone() {
    let mut w = world(1000);
    make_op(&w).make(&mut w.ledger, 1, 1000, 0).unwrap();
    let taker = addr(3);
    let taker_ata = w.ledger.open_account(taker, addr(10));
    assert_eq!(take_op(&w, taker, 1, taker_ata, 0, taker_ata).release(&mut w.ledger), Ok(()));
    assert_eq!(w.ledger.balance(taker_ata), Some(1000));
}

#[test]
fn refund_by_stranger_is_refused() {
    let mut w = world(1000);
    make_op(&w).make(&mut w.ledger, 1, 1000, 0).unwrap();
    let vault = vault_of(&w, 1);
    assert_eq!(refund_op(&w, addr(6), 1).refund(&mut w.ledger), Err(EscrowError::Unauthorized));
    assert_eq!(w.ledger.balance(vault), Some(1000));
    assert_eq!(w.ledger.balance(w.maker_ata_a), Some(0));
}

#[test]
fn refund_after_receiver_named_is_allowed() {
    let mut w = world(1000);
    make_op(&w).make(&mut w.ledger, 1, 1000, 0).unwrap();
    SetReceiver { signer: w.maker, maker: w.maker, seed: 1, receiver: addr(2) }.set_receiver(&mut w.ledger).unwrap();
    assert_eq!(refund_op(&w, w.maker, 1).refund(&mut w.ledger), Ok(()));
    assert_eq!(w.ledger.balance(w.maker_ata_a), Some(1000));
}

#[test]
fn nonce_reuse_is_refused_until_resolved() {
    let mut w = world(1000);
    make_op(&w).make(&mut w.ledger, 3, 400, 0).unwrap();
    assert_eq!(make_op(&w).make(&mut w.ledger, 3, 100, 0), Err(EscrowError::RecordAlreadyExists));
    assert_eq!(w.ledger.balance(w.maker_ata_a), Some(600));
    refund_op(&w, w.maker, 3).refund(&mut w.ledger).unwrap();
    assert_eq!(make_op(&w).make(&mut w.ledger, 3, 100, 0), Ok(()));
    assert_eq!(w.ledger.balance(w.maker_ata_a), Some(900));
}

#[test]
fn make_errors() {
    let mut w = world(100);
    assert_eq!(make_op(&w).make(&mut w.ledger, 1, 101, 0), Err(EscrowError::InsufficientBalance));
    let wrong_asset = Make { maker: w.maker, mint_a: w.mint_a, maker_ata_a: w.maker_ata_b };
    assert_eq!(wrong_asset.make(&mut w.ledger, 1, 10, 0), Err(EscrowError::AssetMismatch));
    let other = w.ledger.open_account(addr(8), addr(10));
    w.ledger.mint_to(other, 50).unwrap();
    let not_owner = Make { maker: w.maker, mint_a: w.mint_a, maker_ata_a: other };
    assert_eq!(not_owner.make(&mut w.ledger, 1, 10, 0), Err(EscrowError::Unauthorized));
    let no_account = Make { maker: w.maker, mint_a: w.mint_a, maker_ata_a: 99 };
    assert_eq!(no_account.make(&mut w.ledger, 1, 10, 0), Err(EscrowError::AccountNotFound));
    let no_mint = Make { maker: w.maker, mint_a: 42, maker_ata_a: w.maker_ata_a };
    assert_eq!(no_mint.make(&mut w.ledger, 1, 10, 0), Err(EscrowError::AccountNotFound));
    assert!(w.ledger.records.is_empty());
    assert_eq!(w.ledger.balance(w.maker_ata_a), Some(100));
}

#[test]
fn make_refuses_a_custody_account_as_source() {
    let mut w = world(100);
    make_op(&w).make(&mut w.ledger, 1, 100, 0).unwrap();
    let vault = vault_of(&w, 1);
    let from_vault = Make { maker: w.maker, mint_a: w.mint_a, maker_ata_a: vault };
    assert_eq!(from_vault.make(&mut w.ledger, 2, 10, 0), Err(EscrowError::AssetMismatch));
}

#[test]
fn take_errors() {
    let mut w = world(500);
    make_op(&w).make(&mut w.ledger, 2, 500, 200).unwrap();
    let vault = vault_of(&w, 2);
    let taker = addr(3);
    let taker_ata_a = w.ledger.open_account(taker, addr(10));
    let taker_ata_b = w.ledger.open_account(taker, addr(11));
    w.ledger.mint_to(taker_ata_b, 1000).unwrap();
    let wrong_amount = take_op(&w, taker, 2, taker_ata_a, 150, taker_ata_b);
    assert_eq!(wrong_amount.release(&mut w.ledger), Err(EscrowError::AmountMismatch));
    let mut wrong_mint = take_op(&w, taker, 2, taker_ata_a, 200, taker_ata_b);
    wrong_mint.mint_a = w.mint_b;
    assert_eq!(wrong_mint.release(&mut w.ledger), Err(EscrowError::AssetMismatch));
    let into_vault = take_op(&w, taker, 2, vault, 200, taker_ata_b);
    assert_eq!(into_vault.release(&mut w.ledger), Err(EscrowError::AssetMismatch));
    let not_taker_account = take_op(&w, taker, 2, w.maker_ata_a, 200, taker_ata_b);
    assert_eq!(not_taker_account.release(&mut w.ledger), Err(EscrowError::AssetMismatch));
    let mut payee_not_maker = take_op(&w, taker, 2, taker_ata_a, 200, taker_ata_b);
    payee_not_maker.maker_ata_b = taker_ata_b;
    assert_eq!(payee_not_maker.release(&mut w.ledger), Err(EscrowError::AssetMismatch));
    let missing = take_op(&w, taker, 2, 77, 200, taker_ata_b);
    assert_eq!(missing.release(&mut w.ledger), Err(EscrowError::AccountNotFound));
    assert_eq!(w.ledger.balance(vault), Some(500));
    assert_eq!(w.ledger.balance(taker_ata_b), Some(1000));
    assert_eq!(w.ledger.balance(w.maker_ata_b), Some(0));
}

#[test]
fn failed_release_rolls_back_counter_payment() {
    let mut w = world(500);
    make_op(&w).make(&mut w.ledger, 2, 500, 200).unwrap();
    let vault = vault_of(&w, 2);
    let taker = addr(3);
    let taker_ata_a = w.ledger.open_account(taker, addr(10));
    w.ledger.mint_to(taker_ata_a, u64::MAX - 100).unwrap();
    let taker_ata_b = w.ledger.open_account(taker, addr(11));
    w.ledger.mint_to(taker_ata_b, 200).unwrap();
    let take = take_op(&w, taker, 2, taker_ata_a, 200, taker_ata_b);
    assert_eq!(take.release(&mut w.ledger), Err(EscrowError::Overflow));
    assert_eq!(w.ledger.balance(taker_ata_b), Some(200));
    assert_eq!(w.ledger.balance(w.maker_ata_b), Some(0));
    assert_eq!(w.ledger.balance(vault), Some(500));
    assert!(w.ledger.record(&w.maker, 2).is_some());
}
