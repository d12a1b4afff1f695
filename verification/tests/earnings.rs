use wager_exchange::bet::earnings::compute_yield_per_epoch;
use wager_exchange::bet::{
    Contract, ContractMetadata, Error, Position, Prediction, Settings, StakeEarning,
    WrappedStakeEarning, APY, EPOCHS_PER_YEAR,
};
use wager_exchange::context::{Context, PromiseOutcome};

const UNIT: u128 = 1_000_000_000_000_000_000_000_000;
const STAKE: &str = "stake_000000000000001";
const OTHER: &str = "stake_000000000000002";

fn earnings_context(epoch: u64, deposit: u128) -> Context {
    Context {
        current_account_id: "exchange.near".to_string(),
        predecessor_account_id: "a.near".to_string(),
        signer_account_id: "a.near".to_string(),
        attached_deposit: deposit,
        block_timestamp: 1_000,
        block_height: 10,
        epoch_height: epoch,
        storage_byte_cost: 0,
    }
}

fn earnings_exchange(amount: u128, epoch: u64) -> Contract {
    let metadata = ContractMetadata {
        spec: "1.0.0".to_string(),
        name: "exchange".to_string(),
        symbol: "EXC".to_string(),
        icon: None,
        base_uri: None,
        reference: None,
        reference_hash: None,
        pool: None,
        admins: None,
    };
    let mut settings = Settings::testnet();
    settings.epoch_offset = 0;
    let mut contract = Contract::new("owner.near".to_string(), metadata, settings);
    earnings_stake(&mut contract, STAKE, amount, epoch);
    contract
}

fn earnings_stake(contract: &mut Contract, stake: &str, amount: u128, epoch: u64) {
    let ctx = earnings_context(epoch, amount);
    let request = contract
        .new_stake(
            &ctx,
            "bet-0000000000000000A".to_string(),
            stake.to_string(),
            Prediction::Reduction,
            Position::Back,
            "subject".to_string(),
            5_000,
            None,
        )
        .expect("accepted");
    contract.deposit_and_stake_callback(
        &ctx,
        request.stake_id,
        request.stake,
        PromiseOutcome::Successful,
    );
}

#[test]
fn yield_per_epoch_is_the_floored_share() {
    assert_eq!(APY, (45, 100));
    assert_eq!(EPOCHS_PER_YEAR, 730);
    assert_eq!(compute_yield_per_epoch(0), 0);
    assert_eq!(compute_yield_per_epoch(1_622), 0);
    assert_eq!(compute_yield_per_epoch(1_623), 1);
    assert_eq!(compute_yield_per_epoch(100 * UNIT), 61_643_835_616_438_356_164_383);
    assert_eq!(compute_yield_per_epoch(1_000_000), 616);
    assert_eq!(compute_yield_per_epoch(u128::MAX), 209_763_102_896_468_915_833_587_086_773_007_801);
}

#[test]
fn yield_grows_by_the_same_amount_every_epoch() {
    let mut contract = earnings_exchange(100 * UNIT, 10);
    let per_epoch = 61_643_835_616_438_356_164_383u128;
    let earning = contract
        .internal_calculate_stake_earning(&earnings_context(17, 0), &STAKE.to_string())
        .expect("computed");
    assert_eq!(earning, StakeEarning { epochs: (10, 17), yield_balance: 7 * per_epoch });
    let earning = contract
        .internal_calculate_stake_earning(&earnings_context(30, 0), &STAKE.to_string())
        .expect("computed");
    assert_eq!(earning, StakeEarning { epochs: (17, 30), yield_balance: 20 * per_epoch });
    let mut direct = earnings_exchange(100 * UNIT, 10);
    let at_once = direct
        .internal_calculate_stake_earning(&earnings_context(30, 0), &STAKE.to_string())
        .expect("computed");
    assert_eq!(at_once, StakeEarning { epochs: (10, 30), yield_balance: 20 * per_epoch });
}

#[test]
fn earnings_at_the_same_epoch_are_returned_unchanged() {
    let mut contract = earnings_exchange(100 * UNIT, 10);
    let first = contract
        .internal_calculate_stake_earning(&earnings_context(12, 0), &STAKE.to_string())
        .expect("computed");
    let second = contract
        .internal_calculate_stake_earning(&earnings_context(12, 0), &STAKE.to_string())
        .expect("computed");
    assert_eq!(first, second);
    let earlier = contract
        .internal_calculate_stake_earning(&earnings_context(11, 0), &STAKE.to_string())
        .expect("computed");
    assert_eq!(earlier, first);
    let fresh = earnings_exchange(100 * UNIT, 10)
        .internal_calculate_stake_earning(&earnings_context(10, 0), &STAKE.to_string())
        .expect("computed");
    assert_eq!(fresh, StakeEarning { epochs: (10, 10), yield_balance: 0 });
}

#[test]
fn looking_at_earnings_records_nothing() {
    let contract = earnings_exchange(100 * UNIT, 10);
    let seen = contract
        .calculate_stake_earning(&earnings_context(12, 0), &STAKE.to_string())
        .expect("computed");
    assert_eq!(seen.epochs, (10, 12));
    let account = contract.accounts.get(&"a.near".to_string()).expect("the account is opened");
    assert_eq!(
        account.earnings.get(&STAKE.to_string()),
        Some(&StakeEarning { epochs: (10, 10), yield_balance: 0 })
    );
}

#[test]
fn the_offset_of_the_network_is_added_to_the_epoch() {
    let mut contract = earnings_exchange(100 * UNIT, 10);
    contract.settings.epoch_offset = 60;
    let earning = contract
        .internal_calculate_stake_earning(&earnings_context(10, 0), &STAKE.to_string())
        .expect("computed");
    assert_eq!(
        earning,
        StakeEarning { epochs: (10, 70), yield_balance: 60 * 61_643_835_616_438_356_164_383 }
    );
}

#[test]
fn earnings_of_an_unknown_stake_are_refused() {
    let mut contract = earnings_exchange(100 * UNIT, 10);
    assert_eq!(
        contract.internal_calculate_stake_earning(&earnings_context(12, 0), &OTHER.to_string()),
        Err(Error::StakeMissing)
    );
}

#[test]
fn earnings_without_an_account_or_a_record_are_refused() {
    let mut contract = earnings_exchange(100 * UNIT, 10);
    let kept = contract.accounts.entries[0].1.earnings.remove(&STAKE.to_string());
    assert!(kept.is_some());
    assert_eq!(
        contract.internal_calculate_stake_earning(&earnings_context(12, 0), &STAKE.to_string()),
        Err(Error::EarningMissing)
    );
    contract.accounts.remove(&"a.near".to_string());
    assert_eq!(
        contract.internal_calculate_stake_earning(&earnings_context(12, 0), &STAKE.to_string()),
        Err(Error::AccountMissing)
    );
}

#[test]
fn a_yield_beyond_the_balance_type_is_refused_and_nothing_changes() {
    let mut contract = earnings_exchange(u128::MAX, 0);
    assert_eq!(
        contract.internal_calculate_stake_earning(&earnings_context(u64::MAX, 0), &STAKE.to_string()),
        Err(Error::YieldOverflow)
    );
    let account = contract.accounts.get(&"a.near".to_string()).expect("the account is opened");
    assert_eq!(
        account.earnings.get(&STAKE.to_string()),
        Some(&StakeEarning { epochs: (0, 0), yield_balance: 0 })
    );
    assert!(contract
        .internal_calculate_stake_earning(&earnings_context(1_000, 0), &STAKE.to_string())
        .is_ok());
}

#[test]
fn listed_earnings_carry_the_amount_of_the_stake() {
    let mut contract = earnings_exchange(1_000_000 + 69 * UNIT / 1000, 10);
    earnings_stake(&mut contract, OTHER, 100 * UNIT, 12);
    let listed = contract
        .stake_earnings(&earnings_context(20, 0), vec![OTHER.to_string(), STAKE.to_string()])
        .expect("listed");
    assert_eq!(listed.len(), 2);
    assert_eq!(
        listed[0],
        WrappedStakeEarning {
            stake_id: OTHER.to_string(),
            epochs: (12, 20),
            yield_balance: 8 * 61_643_835_616_438_356_164_383,
            total_balance: 100 * UNIT,
        }
    );
    assert_eq!(listed[1].stake_id, STAKE);
    assert_eq!(listed[1].epochs, (10, 20));
    assert_eq!(listed[1].total_balance, 1_000_000 + 69 * UNIT / 1000);
    assert_eq!(
        contract.stake_earnings(
            &earnings_context(20, 0),
            vec![STAKE.to_string(), "stake_000000000000009".to_string()]
        ),
        Err(Error::StakeMissing)
    );
    assert_eq!(contract.stake_earnings(&earnings_context(20, 0), Vec::new()), Ok(Vec::new()));
}
