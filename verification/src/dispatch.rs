//! Who calls an operation and how a refused operation is answered.

use vstd::prelude::*;
use crate::ledger::{AccountId, TransferError};

verus! {

/// The caller of an operation.
#[derive(Clone, Copy, PartialEq, Eq, Structural, Debug)]
pub enum Origin {
    /// A call signed by an account.
    Signed(AccountId),
    /// The root authority.
    Root,
    /// An unsigned call.
    Unsigned,
}

/// Why an operation was refused: its origin is not a signed account, a rule
/// of the pallet `E` refused it, or the currency refused a transfer.
#[derive(PartialEq, Eq, Debug)]
pub enum DispatchError<E> {
    BadOrigin,
    Module(E),
    Currency(TransferError),
}

/// The account that signed `origin`.
pub fn ensure_signed<E>(origin: Origin) -> (r: Result<AccountId, DispatchError<E>>)
    ensures
        match origin {
            Origin::Signed(a) => r == Ok::<AccountId, DispatchError<E>>(a),
            _ => r == Err::<AccountId, DispatchError<E>>(DispatchError::BadOrigin),
        },
{
    match origin {
        Origin::Signed(a) => Ok(a),
        _ => Err(DispatchError::BadOrigin),
    }
}

} // verus!
