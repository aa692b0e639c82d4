//! The host's ledger as this library models it: asset kinds, token accounts
//! and escrow records, with the checked transfer primitive.
use vstd::prelude::*;
use crate::address::Address;
use crate::derivation::authority_of;
use crate::error::EscrowError;
use crate::state::{EscrowState, Record};

verus! {

/// An account that holds an amount of one asset for one owner.
#[derive(Clone, Copy, Debug)]
pub struct TokenAccount {
    /// The identity that may move the funds.
    pub owner: Address,
    /// The asset held.
    pub mint: Address,
    pub amount: u64,
}

/// An asset kind and its declared precision.
#[derive(Clone, Copy, Debug)]
pub struct Mint {
    pub key: Address,
    pub decimals: u8,
}

/// The accounts and records of one program.
pub struct Ledger {
    /// The program whose records these are; every authority is derived under it.
    pub program_id: Address,
    pub mints: Vec<Mint>,
    /// Token accounts by index; `None` marks a closed account.
    pub accounts: Vec<Option<TokenAccount>>,
    /// The unresolved escrow records.
    pub records: Vec<Record>,
}

/// Whether index `i` names an open account.
pub open spec fn is_open(s: Seq<Option<TokenAccount>>, i: int) -> bool {
    0 <= i < s.len() && s[i] is Some
}

/// The account `a` with its amount replaced.
pub open spec fn with_amount(a: TokenAccount, amount: u64) -> TokenAccount {
    TokenAccount { owner: a.owner, mint: a.mint, amount }
}

/// Why a checked transfer of `amount` from `from` to `to`, signed by
/// `authority`, is refused; `None` when it goes through.
pub open spec fn transfer_error(
    s: Seq<Option<TokenAccount>>,
    mints: Seq<Mint>,
    from: int,
    to: int,
    mint: int,
    decimals: u8,
    amount: u64,
    authority: Seq<u8>,
) -> Option<EscrowError> {
    if !is_open(s, from) || !is_open(s, to) || !(0 <= mint < mints.len()) {
        Some(EscrowError::AccountNotFound)
    } else if s[from].unwrap().mint@ != mints[mint].key@ || s[to].unwrap().mint@ != mints[mint].key@
        || mints[mint].decimals != decimals {
        Some(EscrowError::AssetMismatch)
    } else if s[from].unwrap().owner@ != authority {
        Some(EscrowError::Unauthorized)
    } else if s[from].unwrap().amount < amount {
        Some(EscrowError::InsufficientBalance)
    } else if from != to && s[to].unwrap().amount + amount > u64::MAX {
        Some(EscrowError::Overflow)
    } else {
        None
    }
}

/// The accounts after `amount` moved from `from` to `to`.
pub open spec fn transferred(s: Seq<Option<TokenAccount>>, from: int, to: int, amount: u64) -> Seq<Option<TokenAccount>> {
    if from == to {
        s
    } else {
        let f = s[from].unwrap();
        let t = s[to].unwrap();
        s.update(from, Some(with_amount(f, (f.amount - amount) as u64))).update(
            to,
            Some(with_amount(t, (t.amount + amount) as u64)),
        )
    }
}

/// What account `a` holds of asset `mint`.
pub open spec fn holding(a: Option<TokenAccount>, mint: Seq<u8>) -> int {
    match a {
        Some(t) => if t.mint@ == mint {
            t.amount as int
        } else {
            0
        },
        None => 0,
    }
}

/// The total of asset `mint` held over all open accounts.
pub open spec fn held(s: Seq<Option<TokenAccount>>, mint: Seq<u8>) -> int
    decreases s.len(),
{
    if s.len() == 0 {
        0
    } else {
        held(s.drop_last(), mint) + holding(s.last(), mint)
    }
}

/// Replacing one account changes the total by the difference of the two holdings.
pub proof fn lemma_held_update(s: Seq<Option<TokenAccount>>, i: int, x: Option<TokenAccount>, mint: Seq<u8>)
    requires
        0 <= i < s.len(),
    ensures
        held(s.update(i, x), mint) == held(s, mint) - holding(s[i], mint) + holding(x, mint),
    decreases s.len(),
{
    let u = s.update(i, x);
    if i == s.len() - 1 {
        assert(u.drop_last() =~= s.drop_last());
    } else {
        assert(u.drop_last() =~= s.drop_last().update(i, x));
        lemma_held_update(s.drop_last(), i, x, mint);
    }
}

/// Adding an account adds its holding to the total.
pub proof fn lemma_held_push(s: Seq<Option<TokenAccount>>, x: Option<TokenAccount>, mint: Seq<u8>)
    ensures
        held(s.push(x), mint) == held(s, mint) + holding(x, mint),
{
    assert(s.push(x).drop_last() =~= s);
}

/// A transfer that goes through leaves the total of every asset unchanged.
pub proof fn lemma_transfer_conserves(
    s: Seq<Option<TokenAccount>>,
    mints: Seq<Mint>,
    from: int,
    to: int,
    mint: int,
    decimals: u8,
    amount: u64,
    authority: Seq<u8>,
    m: Seq<u8>,
)
    requires
        transfer_error(s, mints, from, to, mint, decimals, amount, authority) is None,
    ensures
        held(transferred(s, from, to, amount), m) == held(s, m),
{
    if from != to {
        let f = s[from].unwrap();
        let t = s[to].unwrap();
        let s1 = s.update(from, Some(with_amount(f, (f.amount - amount) as u64)));
        lemma_held_update(s, from, Some(with_amount(f, (f.amount - amount) as u64)), m);
        lemma_held_update(s1, to, Some(with_amount(t, (t.amount + amount) as u64)), m);
    }
}

/// Why closing account `i` by `authority` is refused; `None` when it goes through.
pub open spec fn close_error(s: Seq<Option<TokenAccount>>, i: int, authority: Seq<u8>) -> Option<EscrowError> {
    if !is_open(s, i) {
        Some(EscrowError::AccountNotFound)
    } else if s[i].unwrap().owner@ != authority {
        Some(EscrowError::Unauthorized)
    } else if s[i].unwrap().amount != 0 {
        Some(EscrowError::NonZeroBalance)
    } else {
        None
    }
}

/// Closes an empty account, signed by its owner `authority`. A refused
/// closure changes nothing.
pub fn close_account(accounts: &mut Vec<Option<TokenAccount>>, i: usize, authority: &Address) -> (r: Result<(), EscrowError>)
    ensures
        match close_error(old(accounts)@, i as int, authority@) {
            Some(e) => r == Err::<(), EscrowError>(e) && final(accounts)@ == old(accounts)@,
            None => r is Ok && final(accounts)@ == old(accounts)@.update(i as int, None),
        },
{
    if i >= accounts.len() {
        return Err(EscrowError::AccountNotFound);
    }
    let a = match accounts[i] {
        Some(a) => a,
        None => return Err(EscrowError::AccountNotFound),
    };
    if !a.owner.same(authority) {
        return Err(EscrowError::Unauthorized);
    }
    if a.amount != 0 {
        return Err(EscrowError::NonZeroBalance);
    }
    accounts.set(i, None);
    Ok(())
}

/// Moves `amount` of asset `mint` from account `from` to account `to`, signed
/// by `authority`, checking that both accounts hold that asset and that
/// `decimals` is its declared precision. A refused transfer changes nothing.
pub fn transfer_checked(
    accounts: &mut Vec<Option<TokenAccount>>,
    mints: &Vec<Mint>,
    from: usize,
    to: usize,
    mint: usize,
    decimals: u8,
    amount: u64,
    authority: &Address,
) -> (r: Result<(), EscrowError>)
    ensures
        match transfer_error(old(accounts)@, mints@, from as int, to as int, mint as int, decimals, amount, authority@) {
            Some(e) => r == Err::<(), EscrowError>(e) && final(accounts)@ == old(accounts)@,
            None => r is Ok && final(accounts)@ == transferred(old(accounts)@, from as int, to as int, amount),
        },
{
    if from >= accounts.len() || to >= accounts.len() || mint >= mints.len() {
        return Err(EscrowError::AccountNotFound);
    }
    let src = match accounts[from] {
        Some(a) => a,
        None => return Err(EscrowError::AccountNotFound),
    };
    let dst = match accounts[to] {
        Some(a) => a,
        None => return Err(EscrowError::AccountNotFound),
    };
    let m = mints[mint];
    if !src.mint.same(&m.key) || !dst.mint.same(&m.key) || m.decimals != decimals {
        return Err(EscrowError::AssetMismatch);
    }
    if !src.owner.same(authority) {
        return Err(EscrowError::Unauthorized);
    }
    if src.amount < amount {
        return Err(EscrowError::InsufficientBalance);
    }
    if from == to {
        return Ok(());
    }
    if dst.amount > u64::MAX - amount {
        return Err(EscrowError::Overflow);
    }
    accounts.set(from, Some(TokenAccount { owner: src.owner, mint: src.mint, amount: src.amount - amount }));
    accounts.set(to, Some(TokenAccount { owner: dst.owner, mint: dst.mint, amount: dst.amount + amount }));
    Ok(())
}

impl Ledger {
    /// Record `r`'s custody account is open, owned by its authority and holds
    /// its asset, and the authority is the one derived from its maker, nonce
    /// and proof.
    pub open spec fn record_wf(self, r: Record) -> bool {
        &&& is_open(self.accounts@, r.vault as int)
        &&& self.accounts@[r.vault as int].unwrap().owner@ == r.address@
        &&& self.accounts@[r.vault as int].unwrap().mint@ == r.state.mint_a@
        &&& authority_of(self.program_id@, r.state.maker@, r.state.seed, r.state.bump) == Some(r.address@)
    }

    /// Every record is well formed, no two share a maker and nonce, and no
    /// two share a custody account.
    pub open spec fn wf(self) -> bool {
        &&& forall|i: int| 0 <= i < self.records@.len() ==> self.record_wf(#[trigger] self.records@[i])
        &&& forall|i: int, j: int|
            0 <= i < self.records@.len() && 0 <= j < self.records@.len() && i != j ==> {
                &&& !(#[trigger] self.records@[i]).is_for((#[trigger] self.records@[j]).state.maker@, self.records@[j].state.seed)
                &&& self.records@[i].vault != self.records@[j].vault
            }
    }

    /// Whether `maker` has an unresolved record with `nonce`.
    pub open spec fn has_record(self, maker: Seq<u8>, nonce: u64) -> bool {
        exists|i: int| 0 <= i < self.records@.len() && (#[trigger] self.records@[i]).is_for(maker, nonce)
    }

    /// The index of `maker`'s record with `nonce`, where there is one.
    pub open spec fn record_index(self, maker: Seq<u8>, nonce: u64) -> int {
        choose|i: int| 0 <= i < self.records@.len() && (#[trigger] self.records@[i]).is_for(maker, nonce)
    }

    /// Whether account `i` is the custody account of some record.
    pub open spec fn is_custody(self, i: int) -> bool {
        exists|k: int| 0 <= k < self.records@.len() && (#[trigger] self.records@[k]).vault == i
    }

    /// Whether `other` holds the same accounts, records, assets and program.
    pub open spec fn same_as(self, other: Ledger) -> bool {
        &&& self.program_id == other.program_id
        &&& self.mints@ == other.mints@
        &&& self.accounts@ == other.accounts@
        &&& self.records@ == other.records@
    }

    /// The total of asset `mint` over all open accounts.
    pub open spec fn supply(self, mint: Seq<u8>) -> int {
        held(self.accounts@, mint)
    }

    /// An empty ledger for the program `program_id`.
    pub fn new(program_id: Address) -> (r: Ledger)
        ensures
            r.wf(),
            r.program_id@ == program_id@,
            r.mints@.len() == 0,
            r.accounts@.len() == 0,
            r.records@.len() == 0,
    {
        Ledger { program_id, mints: Vec::new(), accounts: Vec::new(), records: Vec::new() }
    }

    /// Declares an asset kind; returns its index.
    pub fn add_mint(&mut self, key: Address, decimals: u8) -> (r: usize)
        requires
            old(self).wf(),
            old(self).mints@.len() < usize::MAX,
        ensures
            final(self).wf(),
            r == old(self).mints@.len(),
            final(self).mints@ == old(self).mints@.push(Mint { key, decimals }),
            final(self).accounts@ == old(self).accounts@,
            final(self).records@ == old(self).records@,
            final(self).program_id == old(self).program_id,
    {
        let r = self.mints.len();
        self.mints.push(Mint { key, decimals });
        r
    }

    /// Opens an empty account of asset `mint` for `owner`; returns its index.
    pub fn open_account(&mut self, owner: Address, mint: Address) -> (r: usize)
        requires
            old(self).wf(),
            old(self).accounts@.len() < usize::MAX,
        ensures
            final(self).wf(),
            r == old(self).accounts@.len(),
            final(self).accounts@ == old(self).accounts@.push(Some(TokenAccount { owner, mint, amount: 0 })),
            final(self).mints@ == old(self).mints@,
            final(self).records@ == old(self).records@,
            final(self).program_id == old(self).program_id,
    {
        let r = self.accounts.len();
        self.accounts.push(Some(TokenAccount { owner, mint, amount: 0 }));
        proof {
            assert forall|i: int| 0 <= i < self.records@.len() implies self.record_wf(#[trigger] self.records@[i]) by {
                assert(old(self).record_wf(self.records@[i]));
            }
        }
        r
    }

    /// Issues `amount` new units into an open account.
    pub fn mint_to(&mut self, account: usize, amount: u64) -> (r: Result<(), EscrowError>)
        requires
            old(self).wf(),
        ensures
            final(self).wf(),
            final(self).mints@ == old(self).mints@,
            final(self).records@ == old(self).records@,
            final(self).program_id == old(self).program_id,
            !is_open(old(self).accounts@, account as int) ==> r == Err::<(), EscrowError>(EscrowError::AccountNotFound)
                && final(self).accounts@ == old(self).accounts@,
            is_open(old(self).accounts@, account as int) ==> {
                let a = old(self).accounts@[account as int].unwrap();
                if a.amount + amount > u64::MAX {
                    r == Err::<(), EscrowError>(EscrowError::Overflow) && final(self).accounts@ == old(self).accounts@
                } else {
                    r is Ok && final(self).accounts@ == old(self).accounts@.update(
                        account as int,
                        Some(with_amount(a, (a.amount + amount) as u64)),
                    )
                }
            },
    {
        if account >= self.accounts.len() {
            return Err(EscrowError::AccountNotFound);
        }
        let a = match self.accounts[account] {
            Some(a) => a,
            None => return Err(EscrowError::AccountNotFound),
        };
        if a.amount > u64::MAX - amount {
            return Err(EscrowError::Overflow);
        }
        self.accounts.set(account, Some(TokenAccount { owner: a.owner, mint: a.mint, amount: a.amount + amount }));
        proof {
            assert forall|i: int| 0 <= i < self.records@.len() implies self.record_wf(#[trigger] self.records@[i]) by {
                assert(old(self).record_wf(self.records@[i]));
            }
        }
        Ok(())
    }

    /// The amount held by an open account.
    pub fn balance(&self, account: usize) -> (r: Option<u64>)
        ensures
            is_open(self.accounts@, account as int) ==> r == Some(self.accounts@[account as int].unwrap().amount),
            !is_open(self.accounts@, account as int) ==> r is None,
    {
        if account >= self.accounts.len() {
            return None;
        }
        match self.accounts[account] {
            Some(a) => Some(a.amount),
            None => None,
        }
    }

    /// Whether an index names an open account.
    pub fn is_account_open(&self, account: usize) -> (r: bool)
        ensures
            r == is_open(self.accounts@, account as int),
    {
        account < self.accounts.len() && self.accounts[account].is_some()
    }

    /// The index of `maker`'s unresolved record with `nonce`.
    pub fn find_record(&self, maker: &Address, nonce: u64) -> (r: Option<usize>)
        requires
            self.wf(),
        ensures
            match r {
                Some(i) => {
                    &&& self.has_record(maker@, nonce)
                    &&& i == self.record_index(maker@, nonce)
                    &&& i < self.records@.len()
                    &&& self.records@[i as int].is_for(maker@, nonce)
                },
                None => !self.has_record(maker@, nonce),
            },
    {
        let mut i: usize = 0;
        while i < self.records.len()
            invariant
                0 <= i <= self.records@.len(),
                self.wf(),
                forall|j: int| 0 <= j < i ==> !(#[trigger] self.records@[j]).is_for(maker@, nonce),
            decreases self.records@.len() - i,
        {
            let r = &self.records[i];
            if r.state.maker.same(maker) && r.state.seed == nonce {
                proof {
                    assert(self.records@[i as int].is_for(maker@, nonce));
                    assert(self.has_record(maker@, nonce));
                    let k = self.record_index(maker@, nonce);
                    if k != i as int {
                        assert(!self.records@[k].is_for(self.records@[i as int].state.maker@, self.records@[i as int].state.seed));
                    }
                }
                return Some(i);
            }
            i = i + 1;
        }
        None
    }

    /// Whether account `account` is the custody account of some record.
    pub fn custody_account(&self, account: usize) -> (r: bool)
        ensures
            r == self.is_custody(account as int),
    {
        let mut k: usize = 0;
        while k < self.records.len()
            invariant
                0 <= k <= self.records@.len(),
                forall|j: int| 0 <= j < k ==> (#[trigger] self.records@[j]).vault != account,
            decreases self.records@.len() - k,
        {
            if self.records[k].vault == account {
                return true;
            }
            k = k + 1;
        }
        false
    }

    /// The state of `maker`'s unresolved record with `nonce`, if any.
    pub fn record(&self, maker: &Address, nonce: u64) -> (r: Option<EscrowState>)
        requires
            self.wf(),
        ensures
            match r {
                Some(s) => self.has_record(maker@, nonce) && s == self.records@[self.record_index(maker@, nonce)].state,
                None => !self.has_record(maker@, nonce),
            },
    {
        match self.find_record(maker, nonce) {
            Some(i) => Some(self.records[i].state),
            None => None,
        }
    }
}

} // verus!
