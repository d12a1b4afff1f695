//! Casting votes.

use vstd::prelude::*;
use crate::context::{AccountId, Context, assert_one_yocto};
use crate::digest::{CryptoHash, sha256, sha256_digest};
use crate::seqs::{first_hit, lemma_first_hit, contains_string};
use crate::table::{has_key, index_of, value_of, lemma_index_of, lemma_push_row, lemma_same_keys};
use crate::voting::{Ballots, Contract, ContractView, MotionId, MotionStatus, Vote, VoteValue, VoteView, Voter, VoterStatus, VoterView, VotingError, voters_view};
use crate::voting::tally::{find_motion, has_motion, ids_in_order, lemma_tally_keeps_ids, motion_index, sets_deadline, tally_outcome};

verus! {

/// The digest that stands for an account in its votes.
pub open spec fn account_digest(account: Seq<char>) -> Seq<u8> {
    sha256_digest(vstd::utf8::encode_utf8(account))
}

/// The digest of an account's name.
pub fn hash_account_id(account_id: &AccountId) -> (hash: CryptoHash)
    ensures
        hash@ == account_digest(account_id@),
{
    sha256(account_id.as_str().as_bytes())
}

/// The position of the first member with the account `account`, or the
/// number of members when there is none.
pub open spec fn voter_index(voters: Seq<VoterView>, account: Seq<char>) -> int {
    first_hit(voters.len() as int, |i: int| voters[i].account_id == account, 0)
}

/// Some member has the account `account`.
pub open spec fn is_member(voters: Seq<VoterView>, account: Seq<char>) -> bool {
    voter_index(voters, account) < voters.len()
}

/// Some admitted member has the account `account`.
pub open spec fn is_admitted(voters: Seq<VoterView>, account: Seq<char>) -> bool {
    exists|i: int|
        0 <= i < voters.len() && (#[trigger] voters[i]).account_id == account && voters[i].status
            == VoterStatus::REGISTERED
}

/// The vote of `account` with this value.
pub open spec fn vote_of(account: Seq<char>, value: Option<VoteValue>) -> VoteView {
    VoteView { voter_id_hash: account_digest(account), value }
}

/// The member `account` as it goes into the ballots: with its vote.
pub open spec fn voting_member(voters: Seq<VoterView>, account: Seq<char>, value: Option<VoteValue>) -> VoterView {
    VoterView { vote: Some(vote_of(account, value)), ..voters[voter_index(voters, account)] }
}

/// A member at some position is found at that position or before it.
pub proof fn lemma_member(voters: Seq<VoterView>, account: Seq<char>, i: int)
    requires
        0 <= i < voters.len(),
        voters[i].account_id == account,
    ensures
        is_member(voters, account),
        0 <= voter_index(voters, account) <= i,
        voters[voter_index(voters, account)].account_id == account,
{
    let hit = |i: int| voters[i].account_id == account;
    lemma_first_hit(voters.len() as int, hit, 0);
    assert(hit(i));
}

/// The position of the first member with the account `account`, if any.
pub fn find_voter(voters: &Vec<Voter>, account: &AccountId) -> (found: Option<usize>)
    ensures
        match found {
            Some(i) => i < voters@.len() && is_member(voters_view(voters@), account@) && i
                == voter_index(voters_view(voters@), account@),
            None => !is_member(voters_view(voters@), account@),
        },
{
    let ghost members = voters_view(voters@);
    let ghost hit = |i: int| members[i].account_id == account@;
    let mut i: usize = 0;
    while i < voters.len()
        invariant
            i <= voters@.len(),
            members == voters_view(voters@),
            hit == (|i: int| members[i].account_id == account@),
            first_hit(members.len() as int, hit, 0) == first_hit(
                members.len() as int,
                hit,
                i as int,
            ),
        decreases voters.len() - i,
    {
        if voters[i].account_id == *account {
            assert(hit(i as int));
            return Some(i);
        }
        assert(!hit(i as int));
        i += 1;
    }
    None
}

impl Vote {
    /// The vote that carries this digest and this value.
    pub fn with_hash(voter_id_hash: CryptoHash, value: Option<VoteValue>) -> (vote: Vote)
        ensures
            vote.voter_id_hash == voter_id_hash,
            vote.value == value,
    {
        let mut vote_value = None;
        if let Some(value) = value {
            vote_value = Some(value);
        }
        Vote { voter_id_hash, value: vote_value }
    }

    /// The vote of `voter_id` with this value.
    pub fn new(voter_id: &AccountId, value: Option<VoteValue>) -> (vote: Vote)
        ensures
            vote@ == vote_of(voter_id@, value),
    {
        Vote::with_hash(hash_account_id(voter_id), value)
    }
}

impl Voter {
    /// The member `voter_id` as it goes into the ballots: a copy of the
    /// first member with that account, carrying a vote with this value.
    /// There is none when no member has the account.
    pub fn vote(voters: &Vec<Voter>, voter_id: &AccountId, value: Option<VoteValue>) -> (voter:
        Option<Voter>)
        ensures
            match voter {
                Some(v) => is_member(voters_view(voters@), voter_id@) && v@ == voting_member(
                    voters_view(voters@),
                    voter_id@,
                    value,
                ),
                None => !is_member(voters_view(voters@), voter_id@),
            },
    {
        match find_voter(voters, voter_id) {
            Some(i) => {
                let mut voter = voters[i].clone();
                voter.vote = Some(Vote::new(voter_id, value));
                Some(voter)
            },
            None => None,
        }
    }
}

/// Some ballot is of the account `account`.
pub open spec fn has_voted(ballots: Seq<VoterView>, account: Seq<char>) -> bool {
    exists|k: int| 0 <= k < ballots.len() && (#[trigger] ballots[k]).account_id == account
}

/// Why a vote is refused, if it is: the first of the checks that fails.
pub open spec fn vote_refusal(state: ContractView, ctx: Context, motion_id: Seq<char>) -> Option<
    VotingError,
> {
    let signer = ctx.signer_account_id@;
    if ctx.attached_deposit != 1 {
        Some(VotingError::OneYocto)
    } else if !is_admitted(state.voters, signer) {
        Some(VotingError::NotRegistered)
    } else if !has_motion(state.motions, motion_id) {
        Some(VotingError::MotionMissing)
    } else if state.motions[motion_index(state.motions, motion_id)].status != MotionStatus::OPEN {
        Some(VotingError::MotionNotOpen)
    } else if !state.motions[motion_index(state.motions, motion_id)].registered.contains(signer) {
        Some(VotingError::NotInPool)
    } else if has_key(state.voters_per_motion, motion_id) && has_voted(
        value_of(state.voters_per_motion, motion_id),
        signer,
    ) {
        Some(VotingError::AlreadyVoted)
    } else {
        None
    }
}

/// The ballots of all motions once `member` has voted on `motion_id`.
pub open spec fn ballots_with(
    ballots: Seq<(Seq<char>, Seq<VoterView>)>,
    motion_id: Seq<char>,
    member: VoterView,
) -> Seq<(Seq<char>, Seq<VoterView>)> {
    if has_key(ballots, motion_id) {
        let b = index_of(ballots, motion_id);
        ballots.update(b, (motion_id, ballots[b].1.push(member)))
    } else {
        ballots.push((motion_id, seq![member]))
    }
}

/// The state once `signer` has voted on `motion_id`, before the tally: the
/// vote is kept with the member and among the motion's ballots.
pub open spec fn voted(state: ContractView, signer: Seq<char>, motion_id: Seq<char>, value: VoteValue) -> ContractView {
    let member = voting_member(state.voters, signer, Some(value));
    ContractView {
        voters: state.voters.update(voter_index(state.voters, signer), member),
        voters_per_motion: ballots_with(state.voters_per_motion, motion_id, member),
        ..state
    }
}

/// Whether some ballot is of the account `account`.
fn ballots_hold(ballots: &Vec<Voter>, account: &AccountId) -> (found: bool)
    ensures
        found == has_voted(voters_view(ballots@), account@),
{
    let mut k: usize = 0;
    while k < ballots.len()
        invariant
            k <= ballots@.len(),
            forall|j: int| 0 <= j < k ==> (#[trigger] voters_view(ballots@)[j]).account_id
                != account@,
        decreases ballots.len() - k,
    {
        if ballots[k].account_id == *account {
            assert(voters_view(ballots@)[k as int].account_id == account@);
            return true;
        }
        k += 1;
    }
    false
}

impl Contract {
    /// Whether `account` is an admitted member.
    pub fn is_registered(&self, account: &AccountId) -> (registered: bool)
        ensures
            registered == is_admitted(self@.voters, account@),
    {
        let mut i: usize = 0;
        while i < self.voters.len()
            invariant
                i <= self.voters@.len(),
                forall|j: int|
                    0 <= j < i ==> !((#[trigger] self@.voters[j]).account_id == account@
                        && self@.voters[j].status == VoterStatus::REGISTERED),
            decreases self.voters.len() - i,
        {
            if self.voters[i].account_id == *account && self.voters[i].status
                == VoterStatus::REGISTERED {
                assert(self@.voters[i as int].account_id == account@);
                return true;
            }
            i += 1;
        }
        false
    }

    /// Whether `account` is a member, admitted or not.
    pub fn user_exists(&self, account: &AccountId) -> (exists: bool)
        ensures
            exists == is_member(self@.voters, account@),
    {
        find_voter(&self.voters, account).is_some()
    }

    /// Casts the signer's vote on a motion and tallies the motion.
    ///
    /// The checks are made in the order of [`vote_refusal`]; a refused vote
    /// changes nothing. An accepted vote is kept with the member and among
    /// the motion's ballots, the motion is tallied, and the vote is
    /// returned.
    pub fn vote(&mut self, ctx: &Context, motion_id: &MotionId, value: VoteValue) -> (result:
        Result<Vote, VotingError>)
        requires
            old(self).wf(),
            ctx.wf(),
            vote_refusal(old(self)@, *ctx, motion_id@) is None && sets_deadline(
                voted(old(self)@, ctx.signer_account_id@, motion_id@, value),
                motion_id@,
            ) ==> ctx.now() + old(self).delay <= u64::MAX,
        ensures
            final(self).wf(),
            match vote_refusal(old(self)@, *ctx, motion_id@) {
                Some(error) => result == Err::<Vote, VotingError>(error) && final(self)@ == old(
                    self,
                )@,
                None => {
                    let cast = voted(old(self)@, ctx.signer_account_id@, motion_id@, value);
                    &&& result matches Ok(vote)
                    &&& vote@ == vote_of(ctx.signer_account_id@, Some(value))
                    &&& tally_outcome(cast, motion_id@, ctx.now()) matches Ok(state)
                    &&& final(self)@ == state
                },
            },
            ids_in_order(old(self)@) ==> ids_in_order(final(self)@),
    {
        proof {
            let cast = voted(old(self)@, ctx.signer_account_id@, motion_id@, value);
            if tally_outcome(cast, motion_id@, ctx.now()) is Ok {
                lemma_tally_keeps_ids(cast, motion_id@, ctx.now());
            }
        }
        let signer = &ctx.signer_account_id;
        if !assert_one_yocto(ctx.attached_deposit) {
            return Err(VotingError::OneYocto);
        }
        if !self.is_registered(signer) {
            return Err(VotingError::NotRegistered);
        }
        let m = match find_motion(&self.motions, motion_id) {
            Some(m) => m,
            None => {
                return Err(VotingError::MotionMissing);
            },
        };
        if self.motions[m].status != MotionStatus::OPEN {
            return Err(VotingError::MotionNotOpen);
        }
        if !contains_string(&self.motions[m].registered, signer) {
            return Err(VotingError::NotInPool);
        }
        let ballots_at = self.voters_per_motion.position(motion_id);
        match ballots_at {
            Some(b) => {
                proof {
                    lemma_index_of(self@.voters_per_motion, motion_id@);
                }
                if ballots_hold(&self.voters_per_motion.entries[b].1.voters, signer) {
                    return Err(VotingError::AlreadyVoted);
                }
            },
            None => {},
        }
        let v = match find_voter(&self.voters, signer) {
            Some(v) => v,
            None => {
                proof {
                    let i = choose|i: int|
                        0 <= i < self@.voters.len() && (#[trigger] self@.voters[i]).account_id
                            == signer@ && self@.voters[i].status == VoterStatus::REGISTERED;
                    lemma_member(self@.voters, signer@, i);
                }
                return Err(VotingError::VoterMissing);
            },
        };
        let vote = Vote::new(signer, Some(value));
        self.voters[v].vote = Some(vote);
        let voter = self.voters[v].clone();
        let ghost member = voting_member(old(self)@.voters, signer@, Some(value));
        assert(voter@ == member);
        assert(voters_view(self.voters@) =~= old(self)@.voters.update(v as int, member));
        match ballots_at {
            Some(b) => {
                let ghost before = old(self)@.voters_per_motion;
                self.voters_per_motion.entries[b].1.voters.push(voter);
                proof {
                    assert(self.voters_per_motion.entries@[b as int].1@ =~= before[b as int].1.push(
                        member,
                    ));
                    assert(self.voters_per_motion@ =~= ballots_with(before, motion_id@, member));
                    assert forall|j: int| 0 <= j < before.len() implies (
                    #[trigger] self.voters_per_motion@[j]).0 == before[j].0 by {}
                    lemma_same_keys(self.voters_per_motion@, before, motion_id@);
                }
            },
            None => {
                let mut voters: Vec<Voter> = Vec::new();
                voters.push(voter);
                let ballots = Ballots { voters };
                proof {
                    assert(ballots@ =~= seq![member]);
                    lemma_push_row(old(self)@.voters_per_motion, motion_id@, ballots@);
                }
                self.voters_per_motion.push(motion_id.clone(), ballots);
            },
        }
        assert(self@ == voted(old(self)@, signer@, motion_id@, value));
        match self.tally_votes(ctx, motion_id) {
            Ok(()) => Ok(vote),
            Err(error) => Err(error),
        }
    }
}

} // verus!
