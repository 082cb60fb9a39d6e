//! What the state database answers to a transfer.

use vstd::prelude::*;

use crate::error::ExecutionError;
use crate::intent::Intent;
use crate::reserved;
use crate::substrate::{Address, Balance};

verus! {

/// Why the state database rejects a submission.
#[derive(Debug, Clone, Copy, PartialEq, Eq, Structural)]
pub enum RejectReason {
    /// The source balance is too small.
    InsufficientBalance,
    /// The target balance would overflow.
    AmountOverflow,
    /// The submission is a call and needs a registry.
    CallRequiresRegistry,
}

/// What an intent asks of the database: the source, the target and the amount of
/// a transfer, nothing for other intents. A transfer from or to a protocol-owned
/// account is refused before the database sees it.
pub fn transfer_of(intent: &Intent) -> (r: Result<
    Option<(Address, Address, Balance)>,
    ExecutionError,
>)
    ensures
        r == match *intent {
            Intent::Transfer { from, to, amount } => if reserved::is_reserved(&from) {
                Err::<Option<(Address, Address, Balance)>, ExecutionError>(
                    ExecutionError::ReservedAddressTransferDenied { addr: from },
                )
            } else if reserved::is_reserved(&to) {
                Err(ExecutionError::ReservedAddressTransferDenied { addr: to })
            } else {
                Ok(Some((from, to, amount)))
            },
            _ => Ok(None),
        },
{
    match intent {
        Intent::Transfer { from, to, amount } => {
            if reserved::is_reserved(from) {
                return Err(ExecutionError::ReservedAddressTransferDenied { addr: *from });
            }
            if reserved::is_reserved(to) {
                return Err(ExecutionError::ReservedAddressTransferDenied { addr: *to });
            }
            Ok(Some((*from, *to, *amount)))
        },
        _ => Ok(None),
    }
}

/// The answer to a transfer on which the database gave `verdict`, where `have`
/// is the source balance after the submission. A transfer is no call, so the
/// database never asks for a registry.
pub fn transfer_answer(
    verdict: Result<(), RejectReason>,
    from: Address,
    to: Address,
    amount: Balance,
    have: Balance,
) -> (r: Result<(), ExecutionError>)
    requires
        verdict != Err::<(), RejectReason>(RejectReason::CallRequiresRegistry),
    ensures
        r == match verdict {
            Ok(()) => Ok::<(), ExecutionError>(()),
            Err(RejectReason::InsufficientBalance) => Err(
                ExecutionError::InsufficientBalance { from, have, need: amount },
            ),
            _ => Err(ExecutionError::BalanceOverflow { to }),
        },
{
    match verdict {
        Ok(()) => Ok(()),
        Err(RejectReason::InsufficientBalance) => Err(
            ExecutionError::InsufficientBalance { from, have, need: amount },
        ),
        _ => Err(ExecutionError::BalanceOverflow { to }),
    }
}

} // verus!
