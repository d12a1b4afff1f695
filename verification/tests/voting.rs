use wager_exchange::context::{Context, Transfer, ONE_NEAR};
use wager_exchange::voting::motion::MotionParams;
use wager_exchange::voting::tally::{
    count_votes, decide, find_motion, registration_description, update_motion_status,
};
use wager_exchange::voting::views::json_motion;
use wager_exchange::voting::vote::{find_voter, hash_account_id};
use wager_exchange::voting::{
    Contract, Log, Motion, MotionStatus, Vote, Voter, VoterStatus, VotingError, DELAY,
};

fn voting_context(signer: &str, now: u64, deposit: u128) -> Context {
    Context {
        current_account_id: "voting.near".to_string(),
        predecessor_account_id: signer.to_string(),
        signer_account_id: signer.to_string(),
        attached_deposit: deposit,
        block_timestamp: now,
        block_height: 0,
        epoch_height: 1,
        storage_byte_cost: 0,
    }
}

fn voting_member(n: usize) -> String {
    format!("member{}.near", n)
}

/// A module with `count` admitted members: three admitted at once, the
/// others by hand.
fn voting_module(count: usize) -> Contract {
    let mut contract = Contract::new("owner.near".to_string(), 1_000);
    for n in 0..count {
        contract.register(&voting_context(&voting_member(n), 1, ONE_NEAR)).expect("registered");
    }
    for voter in contract.voters.iter_mut() {
        voter.status = VoterStatus::REGISTERED;
    }
    contract.motions.clear();
    contract
}

fn voting_status(contract: &Contract, id: &str) -> MotionStatus {
    let at = find_motion(&contract.motions, &id.to_string()).expect("the motion exists");
    contract.motions[at].status
}

const SHA256_OF_ABC: [u8; 32] = [
    0xba, 0x78, 0x16, 0xbf, 0x8f, 0x01, 0xcf, 0xea, 0x41, 0x41, 0x40, 0xde, 0x5d, 0xae, 0x22,
    0x23, 0xb0, 0x03, 0x61, 0xa3, 0x96, 0x17, 0x7a, 0x9c, 0xb4, 0x10, 0xff, 0x61, 0xf2, 0x00,
    0x15, 0xad,
];

const SHA256_OF_NOTHING: [u8; 32] = [
    0xe3, 0xb0, 0xc4, 0x42, 0x98, 0xfc, 0x1c, 0x14, 0x9a, 0xfb, 0xf4, 0xc8, 0x99, 0x6f, 0xb9,
    0x24, 0x27, 0xae, 0x41, 0xe4, 0x64, 0x9b, 0x93, 0x4c, 0xa4, 0x95, 0x99, 0x1b, 0x78, 0x52,
    0xb8, 0x55,
];

#[test]
fn a_vote_carries_the_digest_of_the_account() {
    assert_eq!(hash_account_id(&"abc".to_string()), SHA256_OF_ABC);
    assert_eq!(hash_account_id(&"".to_string()), SHA256_OF_NOTHING);
    let vote = Vote::new(&"abc".to_string(), Some(true));
    assert_eq!(vote, Vote { voter_id_hash: SHA256_OF_ABC, value: Some(true) });
    assert_eq!(Vote::new(&"abc".to_string(), None).value, None);
    assert_ne!(
        Vote::new(&"a.near".to_string(), Some(false)).voter_id_hash,
        Vote::new(&"b.near".to_string(), Some(false)).voter_id_hash
    );
    assert_eq!(
        Vote::with_hash([7; 32], Some(false)),
        Vote { voter_id_hash: [7; 32], value: Some(false) }
    );
}

#[test]
fn a_voting_member_is_a_copy_with_the_vote() {
    let voters = vec![
        Voter { account_id: "x.near".to_string(), vote: None, status: VoterStatus::UNREGISTERED },
        Voter { account_id: "abc".to_string(), vote: None, status: VoterStatus::REGISTERED },
        Voter { account_id: "abc".to_string(), vote: None, status: VoterStatus::UNREGISTERED },
    ];
    assert_eq!(
        Voter::vote(&voters, &"abc".to_string(), Some(false)),
        Some(Voter {
            account_id: "abc".to_string(),
            vote: Some(Vote { voter_id_hash: SHA256_OF_ABC, value: Some(false) }),
            status: VoterStatus::REGISTERED,
        })
    );
    assert_eq!(Voter::vote(&voters, &"y.near".to_string(), Some(false)), None);
    assert_eq!(voters[1].vote, None);
    assert_eq!(find_voter(&voters, &"abc".to_string()), Some(1));
    assert_eq!(find_voter(&voters, &"ab".to_string()), None);
}

#[test]
fn a_new_module_is_empty() {
    let contract = Contract::new("owner.near".to_string(), DELAY);
    assert_eq!(contract.owner_id, "owner.near");
    assert_eq!(contract.delay, 86_400_000_000_000);
    assert!(contract.voters.is_empty());
    assert!(contract.motions.is_empty());
    assert_eq!(contract.voters_per_motion.len(), 0);
    assert!(contract.registered().is_empty());
}

#[test]
fn the_first_three_members_are_admitted_at_once() {
    let mut contract = Contract::new("owner.near".to_string(), DELAY);
    for n in 0..3 {
        let answer = contract
            .register(&voting_context(&voting_member(n), 5, ONE_NEAR))
            .expect("registered");
        assert_eq!(answer.voters.len(), n + 1);
        assert_eq!(answer.voters[0].account_id, voting_member(n));
        assert_eq!(answer.voters[0].status, VoterStatus::REGISTERED);
        assert_eq!(answer.voters[0].vote, None);
        assert_eq!(
            answer.transfers,
            vec![Transfer { receiver: "voting.near".to_string(), amount: ONE_NEAR }]
        );
        assert!(contract.is_registered(&voting_member(n)));
    }
    assert!(contract.motions.is_empty());
    assert_eq!(contract.registered(), contract.voters);
}

#[test]
fn a_fourth_member_waits_for_a_motion() {
    let mut contract = Contract::new("owner.near".to_string(), DELAY);
    for n in 0..3 {
        contract.register(&voting_context(&voting_member(n), 5, ONE_NEAR)).expect("registered");
    }
    let answer = contract
        .register(&voting_context("late.near", 777, ONE_NEAR + 10))
        .expect("registered");
    assert_eq!(answer.voters[0].account_id, "late.near");
    assert_eq!(answer.voters[0].status, VoterStatus::UNREGISTERED);
    assert_eq!(
        answer.transfers,
        vec![
            Transfer { receiver: "voting.near".to_string(), amount: ONE_NEAR },
            Transfer { receiver: "late.near".to_string(), amount: 10 },
        ]
    );
    assert!(contract.user_exists(&"late.near".to_string()));
    assert!(!contract.is_registered(&"late.near".to_string()));
    assert_eq!(
        contract.motions,
        vec![Motion {
            motion_id: "777".to_string(),
            category: None,
            description: "Add late.near as a registered user.".to_string(),
            status: MotionStatus::OPEN,
            registered: vec![voting_member(0), voting_member(1), voting_member(2)],
            log: Vec::new(),
            quorum: None,
            end: None,
        }]
    );
    assert_eq!(contract.voters_per_motion.len(), 0);
}

#[test]
fn a_registration_needs_one_token() {
    let mut contract = Contract::new("owner.near".to_string(), DELAY);
    assert_eq!(
        contract.register(&voting_context("a.near", 5, ONE_NEAR - 1)).err(),
        Some(VotingError::MinOneNear)
    );
    assert!(contract.voters.is_empty());
    let answer = contract.register(&voting_context("a.near", 5, ONE_NEAR + 1)).expect("registered");
    assert_eq!(answer.transfers.len(), 1);
    let answer = contract.register(&voting_context("b.near", 5, ONE_NEAR + 2)).expect("registered");
    assert_eq!(answer.transfers[1], Transfer { receiver: "b.near".to_string(), amount: 2 });
}

#[test]
fn a_member_who_registers_again_gets_the_deposit_back() {
    let mut contract = Contract::new("owner.near".to_string(), DELAY);
    contract.register(&voting_context("a.near", 5, ONE_NEAR)).expect("registered");
    let mut ctx = voting_context("a.near", 6, ONE_NEAR + 3);
    ctx.predecessor_account_id = "payer.near".to_string();
    let answer = contract.register(&ctx).expect("registered");
    assert_eq!(answer.voters.len(), 1);
    assert_eq!(
        answer.transfers,
        vec![Transfer { receiver: "payer.near".to_string(), amount: ONE_NEAR + 3 }]
    );
    assert_eq!(contract.voters.len(), 1);
}

#[test]
fn the_registration_text_names_the_account() {
    assert_eq!(
        registration_description(&"late.near".to_string()),
        "Add late.near as a registered user."
    );
    assert_eq!(registration_description(&"".to_string()), "Add  as a registered user.");
}

#[test]
fn the_majority_of_a_pool_of_five_is_three() {
    for yes in 0..=5usize {
        for no in 0..=(5 - yes) {
            let expected = if yes >= 3 {
                Some(MotionStatus::ADOPTED)
            } else if no >= 3 {
                Some(MotionStatus::REJECTED)
            } else {
                None
            };
            assert_eq!(decide(None, 5, yes, no, 0, 0), expected, "{} yes, {} no", yes, no);
        }
    }
    assert_eq!(decide(None, 5, 2, 2, 0, 0), None);
    assert_eq!(decide(None, 4, 2, 2, 0, 0), None);
    assert_eq!(decide(None, 4, 3, 1, 0, 0), Some(MotionStatus::ADOPTED));
    assert_eq!(decide(None, 1, 1, 0, 0, 0), Some(MotionStatus::ADOPTED));
    assert_eq!(decide(None, 0, 0, 0, 0, 0), None);
    assert_eq!(decide(None, 0, 1, 0, 0, 0), Some(MotionStatus::ADOPTED));
}

#[test]
fn a_quorum_waits_for_the_votes_and_for_the_time() {
    assert_eq!(decide(Some(3), 5, 2, 0, 100, 50), None);
    assert_eq!(decide(Some(3), 5, 0, 2, 100, 50), None);
    assert_eq!(decide(Some(3), 5, 5, 0, 49, 50), None);
    assert_eq!(decide(Some(3), 5, 3, 0, 50, 50), Some(MotionStatus::ADOPTED));
    assert_eq!(decide(Some(3), 5, 2, 1, 50, 50), Some(MotionStatus::ADOPTED));
    assert_eq!(decide(Some(3), 5, 1, 2, 51, 50), Some(MotionStatus::REJECTED));
    assert_eq!(decide(Some(3), 5, 2, 2, 51, 50), Some(MotionStatus::REJECTED));
    assert_eq!(decide(Some(0), 5, 0, 0, 51, 50), Some(MotionStatus::REJECTED));
    assert_eq!(decide(Some(u32::MAX), 5, usize::MAX, usize::MAX, 51, 50), Some(MotionStatus::REJECTED));
}

#[test]
fn votes_are_counted_with_missing_values_against() {
    let voter = |value: Option<Option<bool>>| Voter {
        account_id: "v.near".to_string(),
        vote: value.map(|value| Vote { voter_id_hash: [0; 32], value }),
        status: VoterStatus::REGISTERED,
    };
    let ballots = vec![
        voter(Some(Some(true))),
        voter(Some(Some(false))),
        voter(Some(None)),
        voter(None),
        voter(Some(Some(true))),
    ];
    assert_eq!(count_votes(&ballots), (2, 2));
    assert_eq!(count_votes(&Vec::new()), (0, 0));
}

#[test]
fn a_status_change_is_logged() {
    let mut motion = Motion {
        motion_id: "1".to_string(),
        category: None,
        description: "d".to_string(),
        status: MotionStatus::OPEN,
        registered: Vec::new(),
        log: Vec::new(),
        quorum: None,
        end: None,
    };
    update_motion_status(&mut motion, MotionStatus::ADOPTED, 42);
    assert_eq!(motion.status, MotionStatus::ADOPTED);
    assert_eq!(motion.log, vec![Log { status: MotionStatus::ADOPTED, timestamp: 42 }]);
}

#[test]
fn a_motion_of_five_is_adopted_by_the_third_yes() {
    let mut contract = voting_module(5);
    let opened = contract
        .motion(&voting_context(&voting_member(0), 100, 1), None, "plan".to_string(), Some(true), None, None)
        .expect("opened");
    assert_eq!(opened.motion_id, "100");
    assert_eq!(opened.status, MotionStatus::OPEN);
    assert_eq!(opened.registered.len(), 5);
    assert_eq!(opened.registered[0], voting_member(0));
    assert_eq!(opened.registered[4], voting_member(4));
    assert_eq!(voting_status(&contract, "100"), MotionStatus::OPEN);
    contract.vote(&voting_context(&voting_member(1), 101, 1), &"100".to_string(), false).expect("cast");
    contract.vote(&voting_context(&voting_member(2), 102, 1), &"100".to_string(), false).expect("cast");
    contract.vote(&voting_context(&voting_member(3), 103, 1), &"100".to_string(), true).expect("cast");
    assert_eq!(voting_status(&contract, "100"), MotionStatus::OPEN);
    assert!(contract.motions[0].log.is_empty());
    let vote = contract
        .vote(&voting_context(&voting_member(4), 104, 1), &"100".to_string(), true)
        .expect("cast");
    assert_eq!(vote, Vote::new(&voting_member(4), Some(true)));
    assert_eq!(voting_status(&contract, "100"), MotionStatus::ADOPTED);
    assert_eq!(contract.motions[0].log, vec![Log { status: MotionStatus::ADOPTED, timestamp: 104 }]);
    assert_eq!(contract.motions[0].end, None);
}

#[test]
fn a_motion_of_five_is_rejected_by_the_third_no() {
    let mut contract = voting_module(5);
    contract
        .motion(&voting_context(&voting_member(0), 100, 1), None, "plan".to_string(), None, None, None)
        .expect("opened");
    contract.vote(&voting_context(&voting_member(1), 101, 1), &"100".to_string(), true).expect("cast");
    contract.vote(&voting_context(&voting_member(2), 102, 1), &"100".to_string(), true).expect("cast");
    contract.vote(&voting_context(&voting_member(3), 103, 1), &"100".to_string(), false).expect("cast");
    assert_eq!(voting_status(&contract, "100"), MotionStatus::OPEN);
    contract.vote(&voting_context(&voting_member(4), 104, 1), &"100".to_string(), false).expect("cast");
    assert_eq!(voting_status(&contract, "100"), MotionStatus::REJECTED);
    assert_eq!(contract.motions[0].log, vec![Log { status: MotionStatus::REJECTED, timestamp: 104 }]);
}

#[test]
fn a_decided_motion_takes_no_more_votes_and_is_not_reopened() {
    let mut contract = voting_module(3);
    contract
        .motion(&voting_context(&voting_member(0), 100, 1), None, "plan".to_string(), Some(true), None, None)
        .expect("opened");
    contract.vote(&voting_context(&voting_member(1), 101, 1), &"100".to_string(), true).expect("cast");
    assert_eq!(voting_status(&contract, "100"), MotionStatus::ADOPTED);
    assert_eq!(
        contract.vote(&voting_context(&voting_member(2), 102, 1), &"100".to_string(), false),
        Err(VotingError::MotionNotOpen)
    );
    assert_eq!(contract.tally_votes(&voting_context("anyone.near", 500, 0), &"100".to_string()), Ok(()));
    assert_eq!(voting_status(&contract, "100"), MotionStatus::ADOPTED);
    assert_eq!(contract.motions[0].log.len(), 1);
}

#[test]
fn a_vote_is_refused_in_the_order_of_the_checks() {
    let mut contract = voting_module(3);
    contract.register(&voting_context("late.near", 50, ONE_NEAR)).expect("registered");
    contract
        .motion(
            &voting_context(&voting_member(0), 100, 1),
            None,
            "plan".to_string(),
            None,
            None,
            Some(vec![voting_member(0), voting_member(1), "late.near".to_string()]),
        )
        .expect("opened");
    let id = "100".to_string();
    assert_eq!(contract.motions[1].registered, vec![voting_member(0), voting_member(1)]);
    assert_eq!(
        contract.vote(&voting_context("late.near", 101, 0), &"none".to_string(), true),
        Err(VotingError::OneYocto)
    );
    assert_eq!(
        contract.vote(&voting_context("late.near", 101, 1), &"none".to_string(), true),
        Err(VotingError::NotRegistered)
    );
    assert_eq!(
        contract.vote(&voting_context("stranger.near", 101, 1), &id, true),
        Err(VotingError::NotRegistered)
    );
    assert_eq!(
        contract.vote(&voting_context(&voting_member(2), 101, 1), &"none".to_string(), true),
        Err(VotingError::MotionMissing)
    );
    assert_eq!(
        contract.vote(&voting_context(&voting_member(2), 101, 1), &id, true),
        Err(VotingError::NotInPool)
    );
    assert_eq!(
        contract.vote(&voting_context(&voting_member(0), 101, 1), &id, true),
        Err(VotingError::AlreadyVoted)
    );
    assert_eq!(contract.voters_per_motion.get(&id).expect("ballots").voters.len(), 1);
    assert!(contract.vote(&voting_context(&voting_member(1), 101, 1), &id, true).is_ok());
    assert_eq!(
        contract.vote(&voting_context(&voting_member(1), 102, 1), &id, true),
        Err(VotingError::AlreadyVoted)
    );
}

#[test]
fn a_vote_is_kept_with_the_member_and_with_the_motion() {
    let mut contract = voting_module(3);
    contract
        .motion(&voting_context(&voting_member(0), 100, 1), None, "plan".to_string(), None, Some(9), None)
        .expect("opened");
    let vote = contract
        .vote(&voting_context(&voting_member(1), 101, 1), &"100".to_string(), true)
        .expect("cast");
    let at = find_voter(&contract.voters, &voting_member(1)).expect("member");
    assert_eq!(contract.voters[at].vote, Some(vote));
    let ballots = &contract.voters_per_motion.get(&"100".to_string()).expect("ballots").voters;
    assert_eq!(ballots.len(), 2);
    assert_eq!(ballots[0].account_id, voting_member(0));
    assert_eq!(ballots[0].vote, Some(Vote::new(&voting_member(0), None)));
    assert_eq!(ballots[1].account_id, voting_member(1));
    assert_eq!(ballots[1].vote, Some(vote));
    let opener = find_voter(&contract.voters, &voting_member(0)).expect("member");
    assert_eq!(contract.voters[opener].vote, None);
}

#[test]
fn an_adopted_registration_motion_admits_the_member() {
    let mut contract = Contract::new("owner.near".to_string(), DELAY);
    for n in 0..3 {
        contract.register(&voting_context(&voting_member(n), 5, ONE_NEAR)).expect("registered");
    }
    contract.register(&voting_context("late.near", 777, ONE_NEAR)).expect("registered");
    contract.register(&voting_context("later.near", 778, ONE_NEAR)).expect("registered");
    let id = "777".to_string();
    contract.vote(&voting_context(&voting_member(0), 800, 1), &id, true).expect("cast");
    assert!(!contract.is_registered(&"late.near".to_string()));
    contract.vote(&voting_context(&voting_member(1), 801, 1), &id, true).expect("cast");
    assert_eq!(voting_status(&contract, "777"), MotionStatus::ADOPTED);
    assert!(contract.is_registered(&"late.near".to_string()));
    assert!(!contract.is_registered(&"later.near".to_string()));
    let other = "778".to_string();
    contract.vote(&voting_context(&voting_member(0), 802, 1), &other, false).expect("cast");
    contract.vote(&voting_context(&voting_member(1), 803, 1), &other, false).expect("cast");
    assert_eq!(voting_status(&contract, "778"), MotionStatus::REJECTED);
    assert!(!contract.is_registered(&"later.near".to_string()));
}

#[test]
fn a_motion_with_a_quorum_waits_for_three_votes_and_for_its_time() {
    let mut contract = voting_module(5);
    let id = "100".to_string();
    contract
        .motion(
            &voting_context(&voting_member(0), 100, 1),
            Some("bet".to_string()),
            "bet-0000000000000000A".to_string(),
            Some(true),
            Some(3),
            Some(vec![voting_member(0), voting_member(1), voting_member(2), voting_member(3)]),
        )
        .expect("opened");
    assert_eq!(contract.motions[0].end, Some(1_100));
    assert_eq!(contract.motions[0].registered.len(), 4);
    contract.vote(&voting_context(&voting_member(1), 5_000, 1), &id, true).expect("cast");
    assert_eq!(voting_status(&contract, "100"), MotionStatus::OPEN);
    assert_eq!(contract.motions[0].end, Some(1_100));
    let mut early = voting_module(5);
    early
        .motion(&voting_context(&voting_member(0), 100, 1), None, "x".to_string(), Some(true), Some(3), None)
        .expect("opened");
    early.vote(&voting_context(&voting_member(1), 200, 1), &id, true).expect("cast");
    early.vote(&voting_context(&voting_member(2), 300, 1), &id, true).expect("cast");
    early.vote(&voting_context(&voting_member(3), 1_099, 1), &id, true).expect("cast");
    assert_eq!(voting_status(&early, "100"), MotionStatus::OPEN);
    early.vote(&voting_context(&voting_member(4), 1_100, 1), &id, false).expect("cast");
    assert_eq!(voting_status(&early, "100"), MotionStatus::ADOPTED);
    assert_eq!(early.motions[0].log, vec![Log { status: MotionStatus::ADOPTED, timestamp: 1_100 }]);
    contract.vote(&voting_context(&voting_member(2), 5_001, 1), &id, false).expect("cast");
    assert_eq!(voting_status(&contract, "100"), MotionStatus::ADOPTED);
}

#[test]
fn a_tally_after_the_time_decides_a_motion_with_a_quorum() {
    let mut contract = voting_module(3);
    let id = "100".to_string();
    contract
        .motion(&voting_context(&voting_member(0), 100, 1), None, "x".to_string(), Some(false), Some(2), None)
        .expect("opened");
    contract.vote(&voting_context(&voting_member(1), 200, 1), &id, true).expect("cast");
    assert_eq!(voting_status(&contract, "100"), MotionStatus::OPEN);
    assert_eq!(contract.tally_votes(&voting_context("anyone.near", 1_099, 0), &id), Ok(()));
    assert_eq!(voting_status(&contract, "100"), MotionStatus::OPEN);
    assert_eq!(contract.tally_votes(&voting_context("anyone.near", 1_100, 0), &id), Ok(()));
    assert_eq!(voting_status(&contract, "100"), MotionStatus::REJECTED);
}

#[test]
fn a_tally_needs_ballots_and_a_motion() {
    let mut contract = voting_module(4);
    contract.register(&voting_context("late.near", 777, ONE_NEAR)).expect("registered");
    assert_eq!(
        contract.tally_votes(&voting_context("anyone.near", 800, 0), &"777".to_string()),
        Err(VotingError::BallotsMissing)
    );
    contract
        .motion(&voting_context(&voting_member(0), 900, 1), None, "x".to_string(), None, None, None)
        .expect("opened");
    contract.motions.pop();
    assert_eq!(
        contract.tally_votes(&voting_context("anyone.near", 901, 0), &"900".to_string()),
        Err(VotingError::MotionMissing)
    );
}

#[test]
fn opening_a_motion_needs_an_admitted_member_and_one_unit() {
    let mut contract = voting_module(3);
    contract.register(&voting_context("late.near", 50, ONE_NEAR)).expect("registered");
    assert_eq!(
        contract
            .motion(&voting_context(&voting_member(0), 100, 2), None, "x".to_string(), None, None, None)
            .err(),
        Some(VotingError::OneYocto)
    );
    assert_eq!(
        contract
            .motion(&voting_context("late.near", 100, 1), None, "x".to_string(), None, None, None)
            .err(),
        Some(VotingError::NotRegistered)
    );
    assert_eq!(
        contract.motions(&voting_context("stranger.near", 100, 1), Vec::new()).err(),
        Some(VotingError::NotRegistered)
    );
    assert_eq!(
        contract
            .internal_post_assert_motion(
                &voting_context("stranger.near", 100, 1),
                None,
                "x".to_string(),
                None,
                None,
                None
            )
            .err(),
        Some(VotingError::VoterMissing)
    );
    assert_eq!(contract.motions.len(), 1);
    assert!(contract
        .internal_post_assert_motion(
            &voting_context("late.near", 100, 0),
            None,
            "x".to_string(),
            None,
            None,
            None
        )
        .is_ok());
    assert_eq!(contract.motions.len(), 2);
}

#[test]
fn a_batch_opens_its_motions_in_order() {
    let mut contract = voting_module(3);
    let params = |description: &str, quorum: Option<u32>| MotionParams {
        category: Some("bet".to_string()),
        description: description.to_string(),
        value: None,
        quorum,
        pool: Some(vec![voting_member(1), voting_member(2)]),
    };
    let opened = contract
        .motions(
            &voting_context(&voting_member(0), 100, 1),
            vec![params("first", Some(2)), params("second", Some(1)), params("third", None)],
        )
        .expect("opened");
    assert_eq!(opened.len(), 3);
    assert_eq!(opened[0].description, "first");
    assert_eq!(opened[1].description, "second");
    assert_eq!(opened[2].description, "third");
    assert_eq!(opened[0].motion_id, "100");
    assert_eq!(opened[1].motion_id, "101");
    assert_eq!(opened[2].motion_id, "102");
    assert_eq!(opened[0].registered, vec![voting_member(1), voting_member(2)]);
    assert_eq!(opened[1].end, None);
    assert_eq!(contract.motions.len(), 3);
    assert_eq!(contract.motions[0].end, Some(1_100));
    assert_eq!(contract.motions[1].end, Some(1_100));
    assert_eq!(contract.motions[2].end, None);
    assert_eq!(contract.voters_per_motion.len(), 3);
    assert_eq!(contract.motion_clock, 103);
    assert_eq!(
        contract.motions(&voting_context(&voting_member(0), 101, 1), Vec::new()),
        Ok(Vec::new())
    );
    assert_eq!(contract.motion_clock, 103);
}

#[test]
fn every_motion_of_a_batch_is_voted_on_by_itself() {
    let mut contract = voting_module(3);
    let params = |description: &str| MotionParams {
        category: None,
        description: description.to_string(),
        value: Some(true),
        quorum: None,
        pool: None,
    };
    contract
        .motions(&voting_context(&voting_member(0), 100, 1), vec![params("first"), params("second")])
        .expect("opened");
    contract.vote(&voting_context(&voting_member(1), 200, 1), &"101".to_string(), true).expect("cast");
    assert_eq!(voting_status(&contract, "100"), MotionStatus::OPEN);
    assert_eq!(voting_status(&contract, "101"), MotionStatus::ADOPTED);
    contract.vote(&voting_context(&voting_member(1), 201, 1), &"100".to_string(), false).expect("cast");
    contract.vote(&voting_context(&voting_member(2), 202, 1), &"100".to_string(), false).expect("cast");
    assert_eq!(voting_status(&contract, "100"), MotionStatus::REJECTED);
    assert_eq!(voting_status(&contract, "101"), MotionStatus::ADOPTED);
}

#[test]
fn motions_opened_at_one_time_get_identifiers_of_their_own() {
    let mut contract = voting_module(3);
    let open = |contract: &mut Contract, now: u64| {
        contract
            .motion(&voting_context(&voting_member(0), now, 1), None, "x".to_string(), None, None, None)
            .expect("opened")
            .motion_id
    };
    assert_eq!(open(&mut contract, 100), "100");
    assert_eq!(open(&mut contract, 100), "101");
    assert_eq!(open(&mut contract, 100), "102");
    assert_eq!(open(&mut contract, 102), "103");
    assert_eq!(open(&mut contract, 500), "500");
    assert_eq!(open(&mut contract, 90), "501");
    contract.register(&voting_context("late.near", 7, ONE_NEAR)).expect("registered");
    assert_eq!(contract.motions[6].motion_id, "502");
    let mut ids: Vec<String> = contract.motions.iter().map(|m| m.motion_id.clone()).collect();
    ids.sort();
    ids.dedup();
    assert_eq!(ids.len(), 7);
}

#[test]
fn no_motion_is_opened_when_the_clock_is_at_its_end() {
    let mut contract = voting_module(3);
    contract.motion_clock = u64::MAX;
    assert_eq!(
        contract
            .motion(&voting_context(&voting_member(0), 100, 1), None, "x".to_string(), None, None, None)
            .err(),
        Some(VotingError::IdentifiersExhausted)
    );
    assert_eq!(
        contract.register(&voting_context("late.near", 100, ONE_NEAR)).err(),
        Some(VotingError::IdentifiersExhausted)
    );
    assert!(!contract.user_exists(&"late.near".to_string()));
    assert!(contract.register(&voting_context(&voting_member(0), 100, ONE_NEAR)).is_ok());
    assert!(contract.motions.is_empty());
    contract.motion_clock = u64::MAX - 2;
    let one = |description: &str| MotionParams {
        category: None,
        description: description.to_string(),
        value: None,
        quorum: None,
        pool: None,
    };
    assert_eq!(
        contract
            .motions(&voting_context(&voting_member(0), 100, 1), vec![one("a"), one("b"), one("c")])
            .err(),
        Some(VotingError::IdentifiersExhausted)
    );
    assert!(contract.motions.is_empty());
    assert_eq!(contract.motion_clock, u64::MAX - 2);
    let opened = contract
        .motions(&voting_context(&voting_member(0), 100, 1), vec![one("a"), one("b")])
        .expect("opened");
    assert_eq!(opened[1].motion_id, "18446744073709551614");
    assert_eq!(contract.motion_clock, u64::MAX);
}

#[test]
fn a_motion_without_a_quorum_is_tallied_at_the_end_of_time() {
    let mut contract = Contract::new("owner.near".to_string(), u64::MAX);
    for n in 0..3 {
        contract.register(&voting_context(&voting_member(n), 5, ONE_NEAR)).expect("registered");
    }
    let late = u64::MAX - 10;
    contract
        .motion(&voting_context(&voting_member(0), late, 1), None, "x".to_string(), Some(true), None, None)
        .expect("opened");
    let id = late.to_string();
    contract.vote(&voting_context(&voting_member(1), late + 1, 1), &id, true).expect("cast");
    assert_eq!(voting_status(&contract, &id), MotionStatus::ADOPTED);
    assert_eq!(contract.tally_votes(&voting_context("anyone.near", u64::MAX, 0), &id), Ok(()));
}

#[test]
fn a_state_put_together_by_hand_is_checked() {
    let mut contract = voting_module(3);
    assert!(contract.is_wf());
    contract
        .motion(&voting_context(&voting_member(0), 100, 1), None, "x".to_string(), None, None, None)
        .expect("opened");
    assert!(contract.is_wf());
    let ballots = wager_exchange::voting::Ballots { voters: Vec::new() };
    contract.voters_per_motion.push("100".to_string(), ballots);
    assert!(!contract.is_wf());
}

#[test]
fn motions_are_viewed_with_their_voters() {
    let mut contract = voting_module(3);
    contract.register(&voting_context("late.near", 50, ONE_NEAR)).expect("registered");
    contract
        .motion(&voting_context(&voting_member(0), 100, 1), Some("bet".to_string()), "first".to_string(), Some(true), Some(5), None)
        .expect("opened");
    contract
        .motion(&voting_context(&voting_member(1), 200, 1), Some("other".to_string()), "second".to_string(), None, Some(5), None)
        .expect("opened");
    let found = contract.view_motion_by_description(&"second".to_string()).expect("found");
    assert_eq!(found.motion.motion_id, "200");
    assert_eq!(found.voters.len(), 1);
    assert_eq!(found.voters[0].account_id, voting_member(1));
    assert!(contract.view_motion_by_description(&"third".to_string()).is_none());
    let waiting = contract
        .view_motion_by_description(&"Add late.near as a registered user.".to_string())
        .expect("found");
    assert!(waiting.voters.is_empty());
    assert_eq!(waiting.motion, contract.motions[0]);
    let all = contract.view_motions(None, None, None, None).expect("listed");
    assert_eq!(all.len(), 3);
    let page = contract.view_motions(Some(1), Some(1), None, None).expect("listed");
    assert_eq!(page.len(), 1);
    assert_eq!(page[0].motion.motion_id, "100");
    let bets = contract.view_motions(None, None, None, Some("bet".to_string())).expect("listed");
    assert_eq!(bets.len(), 1);
    assert_eq!(bets[0].motion.description, "first");
    let named = contract
        .view_motions(None, None, Some(vec!["200".to_string(), "50".to_string()]), None)
        .expect("listed");
    assert_eq!(named.len(), 2);
    let none = contract
        .view_motions(None, None, Some(vec!["50".to_string()]), Some("bet".to_string()))
        .expect("listed");
    assert!(none.is_empty());
}

#[test]
fn a_motion_with_or_without_voters_is_wrapped() {
    let motion = || Motion {
        motion_id: "1".to_string(),
        category: None,
        description: "d".to_string(),
        status: MotionStatus::OPEN,
        registered: vec!["a.near".to_string()],
        log: vec![Log { status: MotionStatus::CLOSED, timestamp: 3 }],
        quorum: Some(1),
        end: Some(2),
    };
    let voter = Voter { account_id: "a.near".to_string(), vote: None, status: VoterStatus::REGISTERED };
    let with = json_motion(Some(motion()), Some(vec![voter.clone()])).expect("wrapped");
    assert_eq!(with.motion, motion());
    assert_eq!(with.voters, vec![voter]);
    let without = json_motion(Some(motion()), None).expect("wrapped");
    assert!(without.voters.is_empty());
    assert!(json_motion(None, Some(Vec::new())).is_none());
    assert_eq!(motion().clone(), motion());
}
