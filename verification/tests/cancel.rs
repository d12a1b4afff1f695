use wager_exchange::bet::cancel::{CancelStatus, Cancellation, RefundRequest, UnstakeRequest};
use wager_exchange::bet::{
    CancelledStake, Contract, ContractMetadata, Error, Position, Prediction, Settings,
};
use wager_exchange::context::{Context, PromiseOutcome};

const UNIT: u128 = 1_000_000_000_000_000_000_000_000;
const BET: &str = "bet-0000000000000000A";
const BACK: &str = "stake_00000000000back";
const LAY: &str = "stake_000000000000lay";

fn cancel_context(caller: &str, epoch: u64, deposit: u128) -> Context {
    Context {
        current_account_id: "exchange.near".to_string(),
        predecessor_account_id: caller.to_string(),
        signer_account_id: caller.to_string(),
        attached_deposit: deposit,
        block_timestamp: 1_000,
        block_height: 10,
        epoch_height: epoch,
        storage_byte_cost: 0,
    }
}

fn cancel_stake_on(contract: &mut Contract, caller: &str, stake: &str, position: Position, amount: u128) {
    let ctx = cancel_context(caller, 50, amount);
    let request = contract
        .new_stake(
            &ctx,
            BET.to_string(),
            stake.to_string(),
            Prediction::Reduction,
            position,
            "subject".to_string(),
            u64::MAX,
            None,
        )
        .expect("accepted");
    contract.deposit_and_stake_callback(
        &ctx,
        request.stake_id,
        request.stake,
        PromiseOutcome::Successful,
    );
}

fn cancel_exchange(back: u128, lay: u128) -> Contract {
    let metadata = ContractMetadata {
        spec: "1.0.0".to_string(),
        name: "exchange".to_string(),
        symbol: "EXC".to_string(),
        icon: None,
        base_uri: None,
        reference: None,
        reference_hash: None,
        pool: Some("pool.near".to_string()),
        admins: None,
    };
    let mut contract = Contract::new("owner.near".to_string(), metadata, Settings::mainnet());
    cancel_stake_on(&mut contract, "a.near", BACK, Position::Back, back);
    if lay > 0 {
        cancel_stake_on(&mut contract, "b.near", LAY, Position::Lay, lay);
    }
    contract
}

#[test]
fn status_messages() {
    assert_eq!(CancelStatus::NotNeeded.message(), "no cancellation needed");
    assert_eq!(CancelStatus::Partial.message(), "partial cancellation pending");
    assert_eq!(CancelStatus::Full.message(), "full cancellation pending");
}

#[test]
fn cancelling_an_unmatched_stake_takes_all_of_it_back() {
    let mut contract = cancel_exchange(100 * UNIT, 0);
    let answer = contract
        .cancel_stake(&cancel_context("a.near", 57, 0), &BET.to_string(), &BACK.to_string())
        .expect("accepted");
    assert_eq!(
        answer,
        Cancellation {
            status: CancelStatus::Full,
            unstake: Some(UnstakeRequest {
                pool: "pool.near".to_string(),
                amount: 100 * UNIT,
                stake_id: BACK.to_string(),
            }),
        }
    );
    assert_eq!(
        contract.cancelled_stakes.get(&BACK.to_string()),
        Some(&CancelledStake {
            bet_id: BET.to_string(),
            amount: 100 * UNIT,
            staker: "a.near".to_string(),
            epoch: 57,
            cancelled: false,
        })
    );
    assert_eq!(contract.stakes.get(&BACK.to_string()).expect("kept").unmatched, 100 * UNIT);
}

#[test]
fn cancelling_a_part_matched_stake_takes_the_rest_back() {
    let mut contract = cancel_exchange(100 * UNIT, 60 * UNIT);
    let answer = contract
        .cancel_stake(&cancel_context("a.near", 57, 0), &BET.to_string(), &BACK.to_string())
        .expect("accepted");
    assert_eq!(answer.status, CancelStatus::Partial);
    assert_eq!(answer.unstake.expect("something to unstake").amount, 40 * UNIT);
    assert_eq!(contract.cancelled_stakes.get(&BACK.to_string()).expect("recorded").amount, 40 * UNIT);
}

#[test]
fn cancelling_a_matched_stake_needs_nothing() {
    let mut contract = cancel_exchange(100 * UNIT, 60 * UNIT);
    let answer = contract
        .cancel_stake(&cancel_context("b.near", 57, 0), &BET.to_string(), &LAY.to_string())
        .expect("accepted");
    assert_eq!(answer, Cancellation { status: CancelStatus::NotNeeded, unstake: None });
    assert_eq!(contract.cancelled_stakes.len(), 0);
}

#[test]
fn cancelling_is_refused_in_the_order_of_the_checks() {
    let mut contract = cancel_exchange(100 * UNIT, 60 * UNIT);
    let owner = cancel_context("a.near", 57, 0);
    let stranger = cancel_context("z.near", 57, 0);
    assert_eq!(
        contract.cancel_stake(&stranger, &"no-such-bet".to_string(), &"no-such-stake".to_string()),
        Err(Error::StakeMissing)
    );
    assert_eq!(
        contract.cancel_stake(&stranger, &"no-such-bet".to_string(), &BACK.to_string()),
        Err(Error::BetMissing)
    );
    assert_eq!(
        contract.cancel_stake(&stranger, &BET.to_string(), &BACK.to_string()),
        Err(Error::NotAuthorized)
    );
    assert_eq!(contract.cancelled_stakes.len(), 0);
    assert!(contract.cancel_stake(&owner, &BET.to_string(), &BACK.to_string()).is_ok());
    assert_eq!(
        contract.cancel_stake(&owner, &BET.to_string(), &BACK.to_string()),
        Err(Error::AlreadyCancelled)
    );
    assert_eq!(
        contract.cancel_stake(&stranger, &BET.to_string(), &BACK.to_string()),
        Err(Error::NotAuthorized)
    );
    assert_eq!(contract.cancelled_stakes.len(), 1);
}

#[test]
fn a_failed_unstaking_makes_the_stake_cancellable_again() {
    let mut contract = cancel_exchange(100 * UNIT, 60 * UNIT);
    let owner = cancel_context("a.near", 57, 0);
    let first = contract.cancel_stake(&owner, &BET.to_string(), &BACK.to_string()).expect("accepted");
    assert_eq!(contract.unstake_callback(&BACK.to_string(), PromiseOutcome::Failed), "oops!");
    assert_eq!(contract.cancelled_stakes.len(), 0);
    let later = cancel_context("a.near", 58, 0);
    let second = contract.cancel_stake(&later, &BET.to_string(), &BACK.to_string()).expect("accepted");
    assert_eq!(first, second);
    assert_eq!(contract.cancelled_stakes.get(&BACK.to_string()).expect("recorded").epoch, 58);
}

#[test]
fn a_successful_unstaking_keeps_the_cancellation() {
    let mut contract = cancel_exchange(100 * UNIT, 60 * UNIT);
    let owner = cancel_context("a.near", 57, 0);
    contract.cancel_stake(&owner, &BET.to_string(), &BACK.to_string()).expect("accepted");
    assert_eq!(contract.unstake_callback(&BACK.to_string(), PromiseOutcome::Successful), "ok");
    assert_eq!(contract.cancelled_stakes.len(), 1);
    assert_eq!(
        contract.cancel_stake(&owner, &BET.to_string(), &BACK.to_string()),
        Err(Error::AlreadyCancelled)
    );
}

#[test]
fn a_failed_unstaking_of_one_stake_keeps_the_other_cancellations() {
    let mut contract = cancel_exchange(100 * UNIT, 0);
    cancel_stake_on(&mut contract, "c.near", "stake_00000000000more", Position::Back, 70 * UNIT);
    contract
        .cancel_stake(&cancel_context("a.near", 57, 0), &BET.to_string(), &BACK.to_string())
        .expect("accepted");
    contract
        .cancel_stake(
            &cancel_context("c.near", 58, 0),
            &BET.to_string(),
            &"stake_00000000000more".to_string(),
        )
        .expect("accepted");
    contract.unstake_callback(&BACK.to_string(), PromiseOutcome::Failed);
    assert_eq!(contract.cancelled_stakes.len(), 1);
    assert_eq!(
        contract
            .cancelled_stakes
            .get(&"stake_00000000000more".to_string())
            .expect("kept")
            .amount,
        70 * UNIT
    );
    assert_eq!(contract.unstake_callback(&"unknown".to_string(), PromiseOutcome::Failed), "oops!");
    assert_eq!(contract.cancelled_stakes.len(), 1);
}

#[test]
fn a_refund_waits_for_the_delay_and_is_paid_once() {
    let mut contract = cancel_exchange(100 * UNIT, 60 * UNIT);
    contract
        .cancel_stake(&cancel_context("a.near", 57, 0), &BET.to_string(), &BACK.to_string())
        .expect("accepted");
    for epoch in [0, 56, 57, 58, 60] {
        assert_eq!(
            contract.refund_cancelled_stake(&cancel_context("anyone.near", epoch, 0), &BACK.to_string()),
            Err(Error::Locked),
            "epoch {}",
            epoch
        );
    }
    let due = RefundRequest {
        staker: "a.near".to_string(),
        amount: 40 * UNIT,
        stake_id: BACK.to_string(),
    };
    assert_eq!(
        contract.refund_cancelled_stake(&cancel_context("anyone.near", 61, 0), &BACK.to_string()),
        Ok(RefundRequest {
            staker: "a.near".to_string(),
            amount: 40 * UNIT,
            stake_id: BACK.to_string()
        })
    );
    assert_eq!(
        contract.refund_cancelled_stake(&cancel_context("anyone.near", u64::MAX, 0), &BACK.to_string()),
        Ok(due)
    );
    assert_eq!(
        contract.refund_cancelled_stake_callback(&BACK.to_string(), PromiseOutcome::Failed),
        "oops!"
    );
    assert!(contract
        .refund_cancelled_stake(&cancel_context("anyone.near", 61, 0), &BACK.to_string())
        .is_ok());
    assert_eq!(
        contract.refund_cancelled_stake_callback(&BACK.to_string(), PromiseOutcome::Successful),
        "ok"
    );
    assert!(contract.cancelled_stakes.get(&BACK.to_string()).expect("kept").cancelled);
    assert_eq!(
        contract.refund_cancelled_stake(&cancel_context("anyone.near", 61, 0), &BACK.to_string()),
        Err(Error::Cancelled)
    );
    assert_eq!(
        contract.refund_cancelled_stake(&cancel_context("anyone.near", 0, 0), &BACK.to_string()),
        Err(Error::Cancelled)
    );
}

#[test]
fn a_refund_without_delay_is_due_at_once() {
    let mut contract = cancel_exchange(100 * UNIT, 0);
    contract.settings.refund_delay_epochs = 0;
    contract
        .cancel_stake(&cancel_context("a.near", 57, 0), &BET.to_string(), &BACK.to_string())
        .expect("accepted");
    assert!(contract
        .refund_cancelled_stake(&cancel_context("anyone.near", 57, 0), &BACK.to_string())
        .is_ok());
    assert_eq!(
        contract.refund_cancelled_stake(&cancel_context("anyone.near", 56, 0), &BACK.to_string()),
        Err(Error::Locked)
    );
}

#[test]
fn a_refund_of_nothing_cancelled_is_refused() {
    let mut contract = cancel_exchange(100 * UNIT, 0);
    assert_eq!(
        contract.refund_cancelled_stake(&cancel_context("anyone.near", 99, 0), &BACK.to_string()),
        Err(Error::StakeMissing)
    );
    assert_eq!(
        contract.refund_cancelled_stake_callback(&BACK.to_string(), PromiseOutcome::Successful),
        "oops!"
    );
    assert_eq!(contract.cancelled_stakes.len(), 0);
}
