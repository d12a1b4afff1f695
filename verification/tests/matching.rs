use wager_exchange::bet::matching::match_in;
use wager_exchange::bet::staking::StakeRequest;
use wager_exchange::bet::{Contract, ContractMetadata, Error, Position, Prediction, Settings, Stake};
use wager_exchange::context::{Context, PromiseOutcome};
use wager_exchange::table::Table;

const UNIT: u128 = 1_000_000_000_000_000_000_000_000;

fn matching_metadata() -> ContractMetadata {
    ContractMetadata {
        spec: "1.0.0".to_string(),
        name: "exchange".to_string(),
        symbol: "EXC".to_string(),
        icon: None,
        base_uri: None,
        reference: None,
        reference_hash: None,
        pool: None,
        admins: None,
    }
}

fn matching_context(caller: &str, deposit: u128) -> Context {
    Context {
        current_account_id: "exchange.near".to_string(),
        predecessor_account_id: caller.to_string(),
        signer_account_id: caller.to_string(),
        attached_deposit: deposit,
        block_timestamp: 1_000,
        block_height: 10,
        epoch_height: 100,
        storage_byte_cost: 0,
    }
}

fn matching_id(tag: &str) -> String {
    let mut text = tag.to_string();
    while text.len() < 21 {
        text.push('0');
    }
    text
}

fn matching_place(
    contract: &mut Contract,
    staker: &str,
    bet: &str,
    stake: &str,
    position: Position,
    amount: u128,
    gentlemans: Option<bool>,
) {
    let ctx = matching_context(staker, amount);
    let request: StakeRequest = contract
        .new_stake(
            &ctx,
            matching_id(bet),
            matching_id(stake),
            Prediction::Reduction,
            position,
            "subject".to_string(),
            5_000,
            gentlemans,
        )
        .expect("the stake is accepted");
    assert_eq!(request.amount, amount);
    let answer = contract.deposit_and_stake_callback(
        &ctx,
        request.stake_id,
        request.stake,
        PromiseOutcome::Successful,
    );
    assert_eq!(answer, "ok");
}

fn matching_unmatched(contract: &Contract, stake: &str) -> u128 {
    contract.stakes.get(&matching_id(stake)).expect("the stake is recorded").unmatched
}

fn matching_exchange() -> Contract {
    Contract::new("owner.near".to_string(), matching_metadata(), Settings::testnet())
}

fn matching_row(bet: &str, position: Position, amount: u128, unmatched: u128, gentlemans: bool) -> Stake {
    Stake {
        bet_id: bet.to_string(),
        position,
        amount,
        staker: "someone.near".to_string(),
        unmatched,
        gentlemans,
        epoch: 1,
    }
}

fn matching_amounts(table: &Table<Stake>) -> Vec<u128> {
    table.entries.iter().map(|row| row.1.unmatched).collect()
}

#[test]
fn end_to_end_matching_of_three_stakes() {
    let mut contract = matching_exchange();
    matching_place(&mut contract, "a.near", "B1", "SA", Position::Back, 100 * UNIT, None);
    assert_eq!(matching_unmatched(&contract, "SA"), 100 * UNIT);
    matching_place(&mut contract, "b.near", "B1", "SB", Position::Lay, 60 * UNIT, None);
    assert_eq!(matching_unmatched(&contract, "SA"), 40 * UNIT);
    assert_eq!(matching_unmatched(&contract, "SB"), 0);
    matching_place(&mut contract, "c.near", "B1", "SC", Position::Lay, 50 * UNIT, None);
    assert_eq!(matching_unmatched(&contract, "SA"), 0);
    assert_eq!(matching_unmatched(&contract, "SB"), 0);
    assert_eq!(matching_unmatched(&contract, "SC"), 10 * UNIT);
}

#[test]
fn matched_totals_are_equal_on_both_sides_and_within_the_stakes() {
    let mut contract = matching_exchange();
    matching_place(&mut contract, "a.near", "B1", "S1", Position::Back, 70 * UNIT, None);
    matching_place(&mut contract, "b.near", "B1", "S2", Position::Back, 90 * UNIT, None);
    matching_place(&mut contract, "c.near", "B1", "S3", Position::Lay, 100 * UNIT, None);
    matching_place(&mut contract, "d.near", "B1", "S4", Position::Lay, 200 * UNIT, None);
    let mut matched_back = 0;
    let mut matched_lay = 0;
    let mut staked_back = 0;
    let mut staked_lay = 0;
    for row in contract.stakes.entries.iter() {
        let stake = &row.1;
        assert!(stake.unmatched <= stake.amount);
        match stake.position {
            Position::Back => {
                matched_back += stake.amount - stake.unmatched;
                staked_back += stake.amount;
            }
            Position::Lay => {
                matched_lay += stake.amount - stake.unmatched;
                staked_lay += stake.amount;
            }
        }
    }
    assert_eq!(matched_back, matched_lay);
    assert_eq!(matched_back, 160 * UNIT);
    assert!(matched_back <= staked_back.min(staked_lay));
    assert_eq!(matching_unmatched(&contract, "S1"), 0);
    assert_eq!(matching_unmatched(&contract, "S2"), 0);
    assert_eq!(matching_unmatched(&contract, "S3"), 0);
    assert_eq!(matching_unmatched(&contract, "S4"), 140 * UNIT);
}

#[test]
fn the_smallest_opposing_stake_is_filled_first() {
    let mut stakes: Table<Stake> = Table::new();
    stakes.push("big".to_string(), matching_row("B", Position::Lay, 80, 80, false));
    stakes.push("small".to_string(), matching_row("B", Position::Lay, 30, 30, false));
    stakes.push("middle".to_string(), matching_row("B", Position::Lay, 50, 50, false));
    stakes.push("new".to_string(), matching_row("B", Position::Back, 100, 100, false));
    match_in(&mut stakes, &"new".to_string());
    assert_eq!(matching_amounts(&stakes), vec![60, 0, 0, 0]);
}

#[test]
fn equal_opposing_stakes_are_filled_in_table_order() {
    let mut stakes: Table<Stake> = Table::new();
    stakes.push("first".to_string(), matching_row("B", Position::Lay, 40, 40, false));
    stakes.push("second".to_string(), matching_row("B", Position::Lay, 40, 40, false));
    stakes.push("new".to_string(), matching_row("B", Position::Back, 50, 50, false));
    match_in(&mut stakes, &"new".to_string());
    assert_eq!(matching_amounts(&stakes), vec![0, 30, 0]);
}

#[test]
fn an_exactly_used_up_stake_stops_the_walk() {
    let mut stakes: Table<Stake> = Table::new();
    stakes.push("one".to_string(), matching_row("B", Position::Lay, 20, 20, false));
    stakes.push("two".to_string(), matching_row("B", Position::Lay, 30, 30, false));
    stakes.push("three".to_string(), matching_row("B", Position::Lay, 90, 90, false));
    stakes.push("new".to_string(), matching_row("B", Position::Back, 50, 50, false));
    match_in(&mut stakes, &"new".to_string());
    assert_eq!(matching_amounts(&stakes), vec![0, 0, 90, 0]);
}

#[test]
fn stakes_on_other_bets_or_on_the_same_side_are_left_alone() {
    let mut stakes: Table<Stake> = Table::new();
    stakes.push("other bet".to_string(), matching_row("C", Position::Lay, 10, 10, false));
    stakes.push("same side".to_string(), matching_row("B", Position::Back, 10, 10, false));
    stakes.push("spent".to_string(), matching_row("B", Position::Lay, 10, 0, false));
    stakes.push("new".to_string(), matching_row("B", Position::Back, 50, 50, false));
    match_in(&mut stakes, &"new".to_string());
    assert_eq!(matching_amounts(&stakes), vec![10, 10, 0, 50]);
}

#[test]
fn a_gentlemans_stake_is_never_matched() {
    let mut contract = matching_exchange();
    matching_place(&mut contract, "a.near", "B1", "G1", Position::Back, 100 * UNIT, Some(true));
    matching_place(&mut contract, "b.near", "B1", "S2", Position::Lay, 60 * UNIT, None);
    assert_eq!(matching_unmatched(&contract, "G1"), 100 * UNIT);
    assert_eq!(matching_unmatched(&contract, "S2"), 60 * UNIT);
    matching_place(&mut contract, "c.near", "B1", "G3", Position::Back, 10 * UNIT, Some(true));
    assert_eq!(matching_unmatched(&contract, "G1"), 100 * UNIT);
    assert_eq!(matching_unmatched(&contract, "S2"), 60 * UNIT);
    assert_eq!(matching_unmatched(&contract, "G3"), 10 * UNIT);
    matching_place(&mut contract, "d.near", "B1", "S4", Position::Back, 25 * UNIT, Some(false));
    assert_eq!(matching_unmatched(&contract, "G1"), 100 * UNIT);
    assert_eq!(matching_unmatched(&contract, "S2"), 35 * UNIT);
    assert_eq!(matching_unmatched(&contract, "S4"), 0);
}

#[test]
fn a_gentlemans_stake_in_the_table_is_skipped_by_the_walk() {
    let mut stakes: Table<Stake> = Table::new();
    stakes.push("gentle".to_string(), matching_row("B", Position::Lay, 10, 10, true));
    stakes.push("open".to_string(), matching_row("B", Position::Lay, 40, 40, false));
    stakes.push("new".to_string(), matching_row("B", Position::Back, 30, 30, false));
    match_in(&mut stakes, &"new".to_string());
    assert_eq!(matching_amounts(&stakes), vec![10, 10, 0]);
}

#[test]
fn matching_again_changes_nothing() {
    let mut stakes: Table<Stake> = Table::new();
    stakes.push("one".to_string(), matching_row("B", Position::Lay, 20, 20, false));
    stakes.push("two".to_string(), matching_row("B", Position::Lay, 70, 70, false));
    stakes.push("new".to_string(), matching_row("B", Position::Back, 50, 50, false));
    match_in(&mut stakes, &"new".to_string());
    let once = matching_amounts(&stakes);
    assert_eq!(once, vec![0, 40, 0]);
    match_in(&mut stakes, &"new".to_string());
    assert_eq!(matching_amounts(&stakes), once);
    match_in(&mut stakes, &"two".to_string());
    assert_eq!(matching_amounts(&stakes), once);
    match_in(&mut stakes, &"absent".to_string());
    assert_eq!(matching_amounts(&stakes), once);
}

#[test]
fn match_stake_on_the_exchange_is_a_no_op() {
    let mut contract = matching_exchange();
    matching_place(&mut contract, "a.near", "B1", "SA", Position::Back, 100 * UNIT, None);
    matching_place(&mut contract, "b.near", "B1", "SB", Position::Lay, 60 * UNIT, None);
    assert_eq!(contract.match_stake(&matching_id("SA")), Ok(()));
    assert_eq!(contract.match_stake(&matching_id("SB")), Ok(()));
    assert_eq!(matching_unmatched(&contract, "SA"), 40 * UNIT);
    assert_eq!(matching_unmatched(&contract, "SB"), 0);
    assert_eq!(contract.match_stake(&matching_id("none")), Err(Error::StakeMissing));
}

#[test]
fn matched_amounts_never_shrink() {
    let mut contract = matching_exchange();
    let steps = [
        ("a.near", "S1", Position::Back, 30u128),
        ("b.near", "S2", Position::Lay, 10),
        ("c.near", "S3", Position::Lay, 40),
        ("d.near", "S4", Position::Back, 15),
        ("e.near", "S5", Position::Back, 50),
        ("f.near", "S6", Position::Lay, 45),
    ];
    let mut matched_before: Vec<u128> = Vec::new();
    for (staker, stake, position, amount) in steps {
        matching_place(&mut contract, staker, "B1", stake, position, amount * UNIT, None);
        let matched: Vec<u128> =
            contract.stakes.entries.iter().map(|row| row.1.amount - row.1.unmatched).collect();
        for (i, earlier) in matched_before.iter().enumerate() {
            assert!(matched[i] >= *earlier);
        }
        matched_before = matched;
    }
    assert_eq!(
        matched_before,
        vec![30 * UNIT, 10 * UNIT, 40 * UNIT, 15 * UNIT, 50 * UNIT, 45 * UNIT]
    );
}

fn matching_table(contract: &mut Contract, rows: &[(&str, Position, u128, u128, bool)]) {
    for (key, position, amount, unmatched, gentlemans) in rows {
        contract
            .stakes
            .push(key.to_string(), matching_row("B1", *position, *amount, *unmatched, *gentlemans));
    }
}

fn matching_left(contract: &Contract) -> Vec<u128> {
    matching_amounts(&contract.stakes)
}

#[test]
fn match_stake_matches_a_confirmed_stake_against_open_opposition() {
    let mut contract = matching_exchange();
    matching_table(
        &mut contract,
        &[("A", Position::Back, 100, 100, false), ("B", Position::Lay, 60, 60, false)],
    );
    assert!(!contract.is_wf());
    assert_eq!(contract.match_stake(&"B".to_string()), Ok(()));
    assert_eq!(matching_left(&contract), vec![40, 0]);
    assert!(contract.is_wf());
    matching_table(&mut contract, &[("C", Position::Lay, 50, 50, false)]);
    assert_eq!(contract.match_stake(&"C".to_string()), Ok(()));
    assert_eq!(matching_left(&contract), vec![0, 0, 10]);
    assert_eq!(contract.stakes.entries[0].1.amount, 100);
    assert_eq!(contract.stakes.entries[2].1.amount, 50);
    assert!(contract.is_wf());
}

#[test]
fn match_stake_closes_the_smaller_opposition_first() {
    let mut contract = matching_exchange();
    matching_table(
        &mut contract,
        &[
            ("X", Position::Back, 40, 40, false),
            ("Y", Position::Back, 30, 30, false),
            ("S", Position::Lay, 50, 50, false),
        ],
    );
    assert_eq!(contract.match_stake(&"S".to_string()), Ok(()));
    assert_eq!(matching_left(&contract), vec![20, 0, 0]);
    assert!(contract.is_wf());
}

#[test]
fn match_stake_fills_at_most_one_stake_in_part() {
    let mut contract = matching_exchange();
    matching_table(
        &mut contract,
        &[
            ("a", Position::Lay, 90, 90, false),
            ("b", Position::Lay, 10, 10, false),
            ("c", Position::Lay, 40, 40, false),
            ("d", Position::Lay, 25, 25, false),
            ("e", Position::Lay, 70, 70, false),
            ("S", Position::Back, 100, 100, false),
        ],
    );
    let before = matching_left(&contract);
    assert_eq!(contract.match_stake(&"S".to_string()), Ok(()));
    let after = matching_left(&contract);
    assert_eq!(after, vec![90, 0, 0, 0, 45, 0]);
    let taken: u128 = (0..5).map(|i| before[i] - after[i]).sum();
    assert_eq!(taken, before[5] - after[5]);
    let part = (0..5).filter(|i| after[*i] > 0 && after[*i] < before[*i]).count();
    assert_eq!(part, 1);
}

#[test]
fn match_stake_gives_no_more_than_is_asked_for() {
    let mut contract = matching_exchange();
    matching_table(
        &mut contract,
        &[
            ("a", Position::Lay, 20, 20, false),
            ("g", Position::Lay, 500, 500, true),
            ("b", Position::Lay, 30, 5, false),
            ("S", Position::Back, 100, 100, false),
        ],
    );
    assert_eq!(contract.match_stake(&"S".to_string()), Ok(()));
    assert_eq!(matching_left(&contract), vec![0, 500, 0, 75]);
}

#[test]
fn a_state_of_the_exchange_is_checked() {
    let mut contract = matching_exchange();
    assert!(contract.is_wf());
    matching_place(&mut contract, "a.near", "B1", "SA", Position::Back, 100 * UNIT, None);
    matching_place(&mut contract, "b.near", "B1", "SB", Position::Lay, 60 * UNIT, None);
    assert!(contract.is_wf());
    contract.stakes.entries[0].1.unmatched += 1;
    assert!(!contract.is_wf());
    contract.stakes.entries[0].1.unmatched -= 1;
    assert!(contract.is_wf());
    contract.stakes.entries[1].1.unmatched = 61 * UNIT;
    assert!(!contract.is_wf());
    contract.stakes.entries[1].1.unmatched = 0;
    contract.persons.push("subject".to_string());
    assert!(!contract.is_wf());
    contract.persons.pop();
    contract.stakes.push(matching_id("SA"), matching_row("other", Position::Back, 1, 1, false));
    assert!(!contract.is_wf());
    contract.stakes.entries.pop();
    contract.stakes.push("G".to_string(), matching_row("other", Position::Back, 5, 4, true));
    assert!(!contract.is_wf());
    contract.stakes.entries.pop();
    contract.stakes.push("H".to_string(), matching_row("other", Position::Back, 5, 5, true));
    contract.stakes.push("I".to_string(), matching_row("other", Position::Lay, u128::MAX, u128::MAX, false));
    assert!(contract.is_wf());
    contract.stakes.push("J".to_string(), matching_row("other", Position::Back, 7, 7, false));
    assert!(!contract.is_wf());
}

#[test]
fn balance_is_checked_beyond_one_machine_word() {
    let mut contract = matching_exchange();
    for key in ["a", "b", "c"] {
        contract
            .stakes
            .push(key.to_string(), matching_row("B1", Position::Back, u128::MAX, 0, false));
    }
    for key in ["d", "e", "f"] {
        contract
            .stakes
            .push(key.to_string(), matching_row("B1", Position::Lay, u128::MAX, 0, false));
    }
    assert!(contract.is_wf());
    contract.stakes.entries[5].1.amount = u128::MAX - 1;
    assert!(!contract.is_wf());
    contract.stakes.entries.pop();
    assert!(!contract.is_wf());
}
