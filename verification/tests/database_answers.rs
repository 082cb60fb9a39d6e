use gsx_dag::database::{transfer_answer, transfer_of, RejectReason};
use gsx_dag::error::ExecutionError;
use gsx_dag::intent::Intent;
use gsx_dag::reserved;
use gsx_dag::DEFAULT_CHECKPOINT_CADENCE_ROUNDS;

#[test]
fn checkpoint_cadence_default_is_one_round() {
    assert_eq!(DEFAULT_CHECKPOINT_CADENCE_ROUNDS, 1);
}

#[test]
fn insufficient_balance_rejected() {
    let err = transfer_answer(
        Err(RejectReason::InsufficientBalance),
        [1; 20],
        [2; 20],
        100,
        0,
    );
    assert_eq!(
        err,
        Err(ExecutionError::InsufficientBalance {
            from: [1; 20],
            have: 0,
            need: 100,
        })
    );
}

#[test]
fn overflow_names_the_target() {
    let err = transfer_answer(Err(RejectReason::AmountOverflow), [1; 20], [2; 20], 100, 7);
    assert_eq!(err, Err(ExecutionError::BalanceOverflow { to: [2; 20] }));
    assert_eq!(transfer_answer(Ok(()), [1; 20], [2; 20], 100, 7), Ok(()));
}

#[test]
fn only_transfers_reach_the_database() {
    let intent = Intent::Transfer {
        from: [1; 20],
        to: [2; 20],
        amount: 3,
    };
    assert_eq!(transfer_of(&intent), Ok(Some(([1; 20], [2; 20], 3))));
    let intent = Intent::ExitAuthority { authority_id: 3 };
    assert_eq!(transfer_of(&intent), Ok(None));
}

#[test]
fn protocol_accounts_do_not_reach_the_database() {
    let treasury = reserved::treasury_address();
    let escrow = reserved::bridge_escrow_address();
    for (from, to, addr) in [
        (treasury, [2; 20], treasury),
        ([1; 20], escrow, escrow),
        (treasury, escrow, treasury),
    ] {
        let intent = Intent::Transfer {
            from,
            to,
            amount: 3,
        };
        assert_eq!(
            transfer_of(&intent),
            Err(ExecutionError::ReservedAddressTransferDenied { addr })
        );
    }
}
