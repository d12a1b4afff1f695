//! Motions and the voters who decide them.
//!
//! Members register, open motions and vote on them. Every vote is followed
//! by a tally, which decides the motion once enough votes are in: by an
//! absolute majority of the motion's pool, or, for a motion with a quorum, by
//! the majority of the votes cast once the quorum is met and the time to
//! decide has passed.

use vstd::prelude::*;
use crate::context::{AccountId, Timestamp};
use crate::digest::CryptoHash;
use crate::seqs::texts;
use crate::table::Table;

pub mod tally;
pub mod vote;
pub mod registration;
pub mod motion;
pub mod views;

verus! {

/// What a voter says to a motion: yes or no.
pub type VoteValue = bool;

/// The name of a voter.
pub type VoterId = AccountId;

/// The identifier of a motion.
pub type MotionId = String;

/// The time that a motion with a quorum stays open at least, in
/// nanoseconds: one day.
pub const DELAY: u64 = 86_400_000_000_000;

/// Whether a voter has been admitted.
#[allow(non_camel_case_types)]
#[derive(Clone, Copy, PartialEq, Eq, Structural, Debug)]
pub enum VoterStatus {
    REGISTERED,
    UNREGISTERED,
}

/// A vote: who cast it, by the digest of the name, and what it says. A vote
/// without a value is counted against the motion.
#[derive(Clone, Copy, PartialEq, Eq, Debug)]
pub struct Vote {
    pub voter_id_hash: CryptoHash,
    pub value: Option<VoteValue>,
}

/// The model of a [`Vote`].
pub struct VoteView {
    pub voter_id_hash: Seq<u8>,
    pub value: Option<VoteValue>,
}

impl View for Vote {
    type V = VoteView;

    open spec fn view(&self) -> VoteView {
        VoteView { voter_id_hash: self.voter_id_hash@, value: self.value }
    }
}

/// The view of an optional vote.
pub open spec fn opt_vote(vote: Option<Vote>) -> Option<VoteView> {
    match vote {
        Some(v) => Some(v@),
        None => None,
    }
}

/// A member: the account, its latest vote, and whether it has been admitted.
#[derive(PartialEq, Eq, Debug)]
pub struct Voter {
    pub account_id: AccountId,
    pub vote: Option<Vote>,
    pub status: VoterStatus,
}

/// The model of a [`Voter`].
pub struct VoterView {
    pub account_id: Seq<char>,
    pub vote: Option<VoteView>,
    pub status: VoterStatus,
}

impl View for Voter {
    type V = VoterView;

    open spec fn view(&self) -> VoterView {
        VoterView { account_id: self.account_id@, vote: opt_vote(self.vote), status: self.status }
    }
}

impl Clone for Voter {
    fn clone(&self) -> (copy: Self)
        ensures
            copy == *self,
    {
        Voter { account_id: self.account_id.clone(), vote: self.vote, status: self.status }
    }
}

/// The models of a list of voters.
pub open spec fn voters_view(voters: Seq<Voter>) -> Seq<VoterView> {
    Seq::new(voters.len(), |i: int| voters[i]@)
}

/// The voters who have voted on one motion, in the order of their votes.
#[derive(Debug)]
pub struct Ballots {
    pub voters: Vec<Voter>,
}

impl View for Ballots {
    type V = Seq<VoterView>;

    open spec fn view(&self) -> Seq<VoterView> {
        voters_view(self.voters@)
    }
}

/// Where a motion stands.
#[allow(non_camel_case_types)]
#[derive(Clone, Copy, PartialEq, Eq, Structural, Debug)]
pub enum MotionStatus {
    OPEN,
    CLOSED,
    ADOPTED,
    REJECTED,
}

/// An entry of a motion's log: the status it got, and when.
#[derive(Clone, Copy, PartialEq, Eq, Structural, Debug)]
pub struct Log {
    pub status: MotionStatus,
    pub timestamp: Timestamp,
}

/// A proposal that the members of its pool vote on.
#[derive(PartialEq, Eq, Debug)]
pub struct Motion {
    pub motion_id: MotionId,
    pub category: Option<String>,
    pub description: String,
    pub status: MotionStatus,
    pub registered: Vec<VoterId>,
    pub log: Vec<Log>,
    pub quorum: Option<u32>,
    pub end: Option<Timestamp>,
}

/// The model of a [`Motion`].
pub struct MotionView {
    pub motion_id: Seq<char>,
    pub category: Option<Seq<char>>,
    pub description: Seq<char>,
    pub status: MotionStatus,
    pub registered: Seq<Seq<char>>,
    pub log: Seq<Log>,
    pub quorum: Option<u32>,
    pub end: Option<Timestamp>,
}

impl View for Motion {
    type V = MotionView;

    open spec fn view(&self) -> MotionView {
        MotionView {
            motion_id: self.motion_id@,
            category: match self.category {
                Some(c) => Some(c@),
                None => None,
            },
            description: self.description@,
            status: self.status,
            registered: texts(self.registered@),
            log: self.log@,
            quorum: self.quorum,
            end: self.end,
        }
    }
}

/// The models of a list of motions.
pub open spec fn motions_view(motions: Seq<Motion>) -> Seq<MotionView> {
    Seq::new(motions.len(), |i: int| motions[i]@)
}

/// A motion together with the voters who have voted on it.
#[derive(Debug)]
pub struct JsonMotion {
    pub motion: Motion,
    pub voters: Vec<Voter>,
}

/// What can make an operation of the voting module fail. A failed operation
/// leaves the state as it was.
#[derive(Clone, Copy, PartialEq, Eq, Structural, Debug)]
pub enum VotingError {
    /// The deposit is not exactly one unit.
    OneYocto,
    /// The deposit is less than one whole token.
    MinOneNear,
    /// The caller is not an admitted member.
    NotRegistered,
    /// No motion has this identifier.
    MotionMissing,
    /// The motion has been decided.
    MotionNotOpen,
    /// The caller is not in the motion's pool.
    NotInPool,
    /// The caller has voted on the motion.
    AlreadyVoted,
    /// The caller is not a member.
    VoterMissing,
    /// Nobody has voted on the motion.
    BallotsMissing,
    /// The clock has reached its end: no identifier is left for a motion.
    IdentifiersExhausted,
}

/// The state of the voting module.
pub struct Contract {
    pub owner_id: AccountId,
    pub voters: Vec<Voter>,
    pub motions: Vec<Motion>,
    pub voters_per_motion: Table<Ballots>,
    /// The storage size in bytes for one motion.
    pub extra_storage_in_bytes_per_motion: u64,
    /// The time that a motion with a quorum stays open at least.
    pub delay: u64,
    /// The earliest time that the identifier of the next motion may be
    /// derived from: one more than the time of the latest identifier.
    pub motion_clock: u64,
}

/// The model of a [`Contract`].
pub struct ContractView {
    pub owner_id: Seq<char>,
    pub voters: Seq<VoterView>,
    pub motions: Seq<MotionView>,
    pub voters_per_motion: Seq<(Seq<char>, Seq<VoterView>)>,
    pub extra_storage_in_bytes_per_motion: u64,
    pub delay: u64,
    pub motion_clock: u64,
}

impl View for Contract {
    type V = ContractView;

    open spec fn view(&self) -> ContractView {
        ContractView {
            owner_id: self.owner_id@,
            voters: voters_view(self.voters@),
            motions: motions_view(self.motions@),
            voters_per_motion: self.voters_per_motion@,
            extra_storage_in_bytes_per_motion: self.extra_storage_in_bytes_per_motion,
            delay: self.delay,
            motion_clock: self.motion_clock,
        }
    }
}

impl Contract {
    /// The ballots are kept under unique motion identifiers.
    pub open spec fn wf(&self) -> bool {
        self.voters_per_motion.wf()
    }

    /// Whether the state is one that the operations keep.
    pub fn is_wf(&self) -> (ok: bool)
        ensures
            ok == self.wf(),
    {
        self.voters_per_motion.keys_distinct()
    }

    /// A new voting module, with no members and no motions, in which a
    /// motion with a quorum stays open for `delay` nanoseconds at least.
    pub fn new(owner_id: AccountId, delay: u64) -> (contract: Contract)
        ensures
            contract.wf(),
            crate::voting::tally::ids_in_order(contract@),
            contract@ == (ContractView {
                owner_id: owner_id@,
                voters: Seq::empty(),
                motions: Seq::empty(),
                voters_per_motion: Seq::empty(),
                extra_storage_in_bytes_per_motion: 0,
                delay,
                motion_clock: 0,
            }),
    {
        let contract = Contract {
            owner_id,
            voters: Vec::new(),
            motions: Vec::new(),
            voters_per_motion: Table::new(),
            extra_storage_in_bytes_per_motion: 0,
            delay,
            motion_clock: 0,
        };
        assert(voters_view(contract.voters@) =~= Seq::<VoterView>::empty());
        assert(motions_view(contract.motions@) =~= Seq::<MotionView>::empty());
        contract
    }
}

} // verus!
