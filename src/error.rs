//! Why an escrow operation was refused.
use vstd::prelude::*;

verus! {

/// The reasons an operation fails. A failed operation changes nothing.
#[derive(Clone, Copy, Debug, PartialEq, Eq, Structural)]
pub enum EscrowError {
    /// The signer is not the party the operation requires.
    Unauthorized,
    /// An account or asset named by the caller disagrees with the record or with another account.
    AssetMismatch,
    /// An amount supplied by the caller disagrees with the record.
    AmountMismatch,
    /// The maker already has an unresolved record with this nonce.
    RecordAlreadyExists,
    /// No unresolved record exists for this maker and nonce.
    CustodyAlreadyResolved,
    /// A source balance holds less than the amount to move.
    InsufficientBalance,
    /// No proof value gives a keyless authority for these seeds.
    DerivationExhausted,
    /// The record already names a receiver.
    ReceiverAlreadySet,
    /// An account index names no open account.
    AccountNotFound,
    /// A destination balance would exceed the largest representable amount.
    Overflow,
    /// A custody account still holds tokens and cannot be closed.
    NonZeroBalance,
}

} // verus!
