//! Counting the votes on a motion and deciding it.

use vstd::prelude::*;
use vstd::string::StringExecFns;
use crate::context::{AccountId, Context, Timestamp};
use crate::sums::sum_to;
use crate::table::{has_key, index_of, keys_unique, value_of, lemma_index_of, lemma_index_is, lemma_same_keys};
use crate::text::decimal;
use crate::voting::{Contract, ContractView, Log, Motion, MotionId, MotionStatus, MotionView, Voter, VoterStatus, VoterView, VotingError, motions_view, voters_view};

verus! {

/// The voter has voted for the motion.
pub open spec fn says_yes(voter: VoterView) -> bool {
    voter.vote matches Some(vote) && vote.value == Some(true)
}

/// The voter has voted against the motion. A vote without a value counts
/// against it.
pub open spec fn says_no(voter: VoterView) -> bool {
    voter.vote matches Some(vote) && vote.value != Some(true)
}

/// The number of votes for the motion.
pub open spec fn yes_votes(ballots: Seq<VoterView>) -> nat {
    sum_to(|k: int| if says_yes(ballots[k]) { 1nat } else { 0nat }, ballots.len() as int)
}

/// The number of votes against the motion.
pub open spec fn no_votes(ballots: Seq<VoterView>) -> nat {
    sum_to(|k: int| if says_no(ballots[k]) { 1nat } else { 0nat }, ballots.len() as int)
}

/// The condition on the two counts that a decision with a quorum waits for.
/// It holds of every pair of counts.
pub open spec fn unanimous(yes: nat, no: nat) -> bool {
    (yes == 0 || no != 0) || (yes != 0 || no == 0)
}

/// The absolute majority of a pool: more than half of it.
pub open spec fn majority(pool_size: nat) -> nat {
    pool_size / 2 + 1
}

/// What the counts decide, if anything.
///
/// Without a quorum, the motion is adopted when the votes for it reach the
/// majority of its pool, and rejected when the votes against it do. With a
/// quorum, nothing is decided before the votes cast reach the quorum and the
/// time `end` has come; then the motion is adopted if more votes are for it
/// than against it, and rejected otherwise.
pub open spec fn verdict(
    quorum: Option<u32>,
    pool_size: nat,
    yes: nat,
    no: nat,
    now: Timestamp,
    end: Timestamp,
) -> Option<MotionStatus> {
    match quorum {
        Some(q) => {
            if yes + no >= q && now >= end && unanimous(yes, no) {
                if yes > no {
                    Some(MotionStatus::ADOPTED)
                } else {
                    Some(MotionStatus::REJECTED)
                }
            } else {
                None
            }
        },
        None => {
            if yes >= majority(pool_size) {
                Some(MotionStatus::ADOPTED)
            } else if no >= majority(pool_size) {
                Some(MotionStatus::REJECTED)
            } else {
                None
            }
        },
    }
}

/// The condition that a decision with a quorum waits for holds always.
pub proof fn lemma_unanimous_always(yes: nat, no: nat)
    ensures
        unanimous(yes, no),
{
}

/// Without a quorum a motion is adopted exactly when the votes for it reach
/// the majority of the pool; otherwise it is rejected exactly when the
/// votes against it do; otherwise it stays open.
pub proof fn lemma_majority_verdict(pool_size: nat, yes: nat, no: nat, now: Timestamp, end: Timestamp)
    ensures
        verdict(None, pool_size, yes, no, now, end) == Some(MotionStatus::ADOPTED) <==> yes
            >= pool_size / 2 + 1,
        verdict(None, pool_size, yes, no, now, end) == Some(MotionStatus::REJECTED) <==> yes
            < pool_size / 2 + 1 && no >= pool_size / 2 + 1,
        yes + no <= pool_size ==> (verdict(None, pool_size, yes, no, now, end) == Some(
            MotionStatus::REJECTED,
        ) <==> no >= pool_size / 2 + 1),
        verdict(None, pool_size, yes, no, now, end) is None <==> yes < pool_size / 2 + 1 && no
            < pool_size / 2 + 1,
{
}

/// With a quorum nothing is decided before the votes cast reach the quorum,
/// however they are divided, nor before the time to decide has come, however
/// many they are; from then on the majority of the votes cast decides.
pub proof fn lemma_quorum_verdict(
    quorum: u32,
    pool_size: nat,
    yes: nat,
    no: nat,
    now: Timestamp,
    end: Timestamp,
)
    ensures
        yes + no < quorum ==> verdict(Some(quorum), pool_size, yes, no, now, end) is None,
        now < end ==> verdict(Some(quorum), pool_size, yes, no, now, end) is None,
        yes + no >= quorum && now >= end ==> verdict(Some(quorum), pool_size, yes, no, now, end)
            == Some(
            if yes > no {
                MotionStatus::ADOPTED
            } else {
                MotionStatus::REJECTED
            },
        ),
{
}

/// Decides what the counts say; see [`verdict`].
pub fn decide(
    quorum: Option<u32>,
    pool_size: usize,
    yes: usize,
    no: usize,
    now: Timestamp,
    end: Timestamp,
) -> (decision: Option<MotionStatus>)
    ensures
        decision == verdict(quorum, pool_size as nat, yes as nat, no as nat, now, end),
{
    match quorum {
        Some(q) => {
            let total_votes: u128 = yes as u128 + no as u128;
            let unanimous = (yes == 0 || no != 0) || (yes != 0 || no == 0);
            if total_votes >= q as u128 && now >= end && unanimous {
                if yes > no {
                    Some(MotionStatus::ADOPTED)
                } else {
                    Some(MotionStatus::REJECTED)
                }
            } else {
                None
            }
        },
        None => {
            let majority_vote_count = pool_size / 2 + 1;
            if yes >= majority_vote_count {
                Some(MotionStatus::ADOPTED)
            } else if no >= majority_vote_count {
                Some(MotionStatus::REJECTED)
            } else {
                None
            }
        },
    }
}

/// The motions as rows under their identifiers.
pub open spec fn motion_rows(motions: Seq<MotionView>) -> Seq<(Seq<char>, MotionView)> {
    Seq::new(motions.len(), |i: int| (motions[i].motion_id, motions[i]))
}

/// Some motion has the identifier `id`.
pub open spec fn has_motion(motions: Seq<MotionView>, id: Seq<char>) -> bool {
    has_key(motion_rows(motions), id)
}

/// The position of the first motion with the identifier `id`.
pub open spec fn motion_index(motions: Seq<MotionView>, id: Seq<char>) -> int {
    index_of(motion_rows(motions), id)
}

/// What a registration motion for `account` says.
pub open spec fn registration_text(account: Seq<char>) -> Seq<char> {
    "Add "@ + account + " as a registered user."@
}

/// The members once a motion with this description has been adopted: who
/// waited for exactly this motion is admitted.
pub open spec fn promoted(voters: Seq<VoterView>, description: Seq<char>) -> Seq<VoterView> {
    Seq::new(
        voters.len(),
        |i: int|
            if voters[i].status == VoterStatus::UNREGISTERED && description == registration_text(
                voters[i].account_id,
            ) {
                VoterView { status: VoterStatus::REGISTERED, ..voters[i] }
            } else {
                voters[i]
            },
    )
}

/// The time from which a motion with a quorum can be decided: the one it
/// has, or else `delay` from now.
pub open spec fn decision_end(motion: MotionView, now: Timestamp, delay: u64) -> Timestamp {
    match motion.end {
        Some(end) => end,
        None => (now + delay) as Timestamp,
    }
}

/// What the counts decide for a motion, if anything.
pub open spec fn motion_verdict(motion: MotionView, yes: nat, no: nat, now: Timestamp, delay: u64) -> Option<
    MotionStatus,
> {
    if motion.status != MotionStatus::OPEN {
        None
    } else {
        verdict(
            motion.quorum,
            motion.registered.len(),
            yes,
            no,
            now,
            decision_end(motion, now, delay),
        )
    }
}

/// A motion after a tally. A motion that is not open stays as it is. An open
/// motion with a quorum has its time to decide fixed by its first tally. A
/// decision sets the status and is entered in the log with its time.
pub open spec fn tallied_motion(motion: MotionView, yes: nat, no: nat, now: Timestamp, delay: u64) -> MotionView {
    if motion.status != MotionStatus::OPEN {
        motion
    } else {
        let timed = if motion.quorum is Some {
            MotionView { end: Some(decision_end(motion, now, delay)), ..motion }
        } else {
            motion
        };
        match motion_verdict(motion, yes, no, now, delay) {
            Some(status) => MotionView {
                status,
                log: timed.log.push(Log { status, timestamp: now }),
                ..timed
            },
            None => timed,
        }
    }
}

/// The state after a tally of the motion `id`, or why there is none. The
/// tally is of the first motion with that identifier. A registration motion
/// that is adopted admits the member it is about.
pub open spec fn tally_outcome(state: ContractView, id: Seq<char>, now: Timestamp) -> Result<
    ContractView,
    VotingError,
> {
    if !has_key(state.voters_per_motion, id) {
        Err(VotingError::BallotsMissing)
    } else if !has_motion(state.motions, id) {
        Err(VotingError::MotionMissing)
    } else {
        let ballots = value_of(state.voters_per_motion, id);
        let i = motion_index(state.motions, id);
        let motion = state.motions[i];
        let yes = yes_votes(ballots);
        let no = no_votes(ballots);
        Ok(
            ContractView {
                motions: state.motions.update(
                    i,
                    tallied_motion(motion, yes, no, now, state.delay),
                ),
                voters: if motion.quorum is None && motion_verdict(
                    motion,
                    yes,
                    no,
                    now,
                    state.delay,
                ) == Some(MotionStatus::ADOPTED) {
                    promoted(state.voters, motion.description)
                } else {
                    state.voters
                },
                ..state
            },
        )
    }
}

/// The tally of the motion `id` fixes the time from which the motion can be
/// decided: the motion is open, has a quorum, and has no such time yet.
pub open spec fn sets_deadline(state: ContractView, id: Seq<char>) -> bool {
    &&& has_key(state.voters_per_motion, id)
    &&& has_motion(state.motions, id)
    &&& state.motions[motion_index(state.motions, id)].status == MotionStatus::OPEN
    &&& state.motions[motion_index(state.motions, id)].quorum is Some
    &&& state.motions[motion_index(state.motions, id)].end is None
}

/// A tally never reopens a motion: one that is decided stays as it is, and
/// an open one stays open or becomes adopted or rejected. The log grows by
/// one entry exactly when the status changes.
pub proof fn lemma_tally_is_final(motion: MotionView, yes: nat, no: nat, now: Timestamp, delay: u64)
    ensures
        motion.status != MotionStatus::OPEN ==> tallied_motion(motion, yes, no, now, delay)
            == motion,
        motion.status == MotionStatus::OPEN ==> {
            let after = tallied_motion(motion, yes, no, now, delay);
            &&& after.status == MotionStatus::OPEN || after.status == MotionStatus::ADOPTED
                || after.status == MotionStatus::REJECTED
            &&& after.status == MotionStatus::OPEN ==> after.log == motion.log
            &&& after.status != MotionStatus::OPEN ==> after.log == motion.log.push(
                Log { status: after.status, timestamp: now },
            )
        },
{
}

/// No two motions have the same identifier.
pub open spec fn motion_ids_unique(motions: Seq<MotionView>) -> bool {
    keys_unique(motion_rows(motions))
}

/// The identifier `id` was derived from a time before `clock`.
pub open spec fn issued_before(id: Seq<char>, clock: u64) -> bool {
    exists|time: nat| time < clock && id == #[trigger] decimal(time)
}

/// The identifiers of the motions are in order: no two motions have the
/// same, and each was derived from a time before the one that the next
/// identifier is derived from at the earliest.
pub open spec fn ids_in_order(state: ContractView) -> bool {
    &&& motion_ids_unique(state.motions)
    &&& forall|i: int|
        0 <= i < state.motions.len() ==> issued_before(
            (#[trigger] state.motions[i]).motion_id,
            state.motion_clock,
        )
}

/// A tally changes no identifier of a motion, so identifiers that are in
/// order stay in order.
pub proof fn lemma_tally_keeps_ids(state: ContractView, id: Seq<char>, now: Timestamp)
    requires
        tally_outcome(state, id, now) is Ok,
    ensures
        ({
            let after = tally_outcome(state, id, now)->Ok_0;
            &&& after.motions.len() == state.motions.len()
            &&& after.motion_clock == state.motion_clock
            &&& forall|i: int|
                0 <= i < state.motions.len() ==> (#[trigger] after.motions[i]).motion_id
                    == state.motions[i].motion_id
            &&& motion_ids_unique(state.motions) ==> motion_ids_unique(after.motions)
            &&& ids_in_order(state) ==> ids_in_order(after)
        }),
{
    let after = tally_outcome(state, id, now)->Ok_0;
    lemma_index_of(motion_rows(state.motions), id);
    assert forall|i: int| 0 <= i < state.motions.len() implies (
    #[trigger] after.motions[i]).motion_id == state.motions[i].motion_id by {}
    assert forall|i: int| 0 <= i < state.motions.len() implies (#[trigger] motion_rows(
        after.motions,
    )[i]).0 == motion_rows(state.motions)[i].0 by {
        assert(after.motions[i].motion_id == state.motions[i].motion_id);
    }
    lemma_same_keys(motion_rows(after.motions), motion_rows(state.motions), id);
    if ids_in_order(state) {
        assert forall|i: int| 0 <= i < after.motions.len() implies issued_before(
            (#[trigger] after.motions[i]).motion_id,
            after.motion_clock,
        ) by {
            assert(issued_before(state.motions[i].motion_id, state.motion_clock));
        }
    }
}

/// The tally of an open motion without a quorum: the motion is adopted
/// exactly when the votes for it reach the majority of its pool, rejected
/// exactly when they do not and the votes against it do, and otherwise
/// stays open, as it was. With a pool of five the majority is three.
pub proof fn lemma_majority_tally(motion: MotionView, yes: nat, no: nat, now: Timestamp, delay: u64)
    requires
        motion.status == MotionStatus::OPEN,
        motion.quorum is None,
    ensures
        ({
            let after = tallied_motion(motion, yes, no, now, delay);
            let most = motion.registered.len() / 2 + 1;
            &&& after.status == MotionStatus::ADOPTED <==> yes >= most
            &&& after.status == MotionStatus::REJECTED <==> yes < most && no >= most
            &&& after.status == MotionStatus::OPEN <==> yes < most && no < most
            &&& after.status == MotionStatus::OPEN ==> after == motion
            &&& motion.registered.len() == 5 ==> most == 3
        }),
{
}

/// The tally of an open motion with a quorum: the motion stays open, with
/// its log as it was, while fewer votes than the quorum are cast, however
/// they are divided, and while the time to decide has not come, however
/// many they are. From then on it is adopted if more votes are for it than
/// against it, and rejected otherwise.
pub proof fn lemma_quorum_tally(motion: MotionView, yes: nat, no: nat, now: Timestamp, delay: u64)
    requires
        motion.status == MotionStatus::OPEN,
        motion.quorum is Some,
    ensures
        ({
            let after = tallied_motion(motion, yes, no, now, delay);
            let end = decision_end(motion, now, delay);
            let due = yes + no >= motion.quorum->Some_0 && now >= end;
            &&& after.end == Some(end)
            &&& !due ==> after.status == MotionStatus::OPEN && after.log == motion.log
            &&& due && yes > no ==> after.status == MotionStatus::ADOPTED
            &&& due && yes <= no ==> after.status == MotionStatus::REJECTED
        }),
{
}

/// The position of the first motion with the identifier `id`, if any.
pub fn find_motion(motions: &Vec<Motion>, id: &MotionId) -> (found: Option<usize>)
    ensures
        match found {
            Some(i) => i < motions@.len() && has_motion(motions_view(motions@), id@) && i
                == motion_index(motions_view(motions@), id@),
            None => !has_motion(motions_view(motions@), id@),
        },
{
    let ghost rows = motion_rows(motions_view(motions@));
    let mut i: usize = 0;
    while i < motions.len()
        invariant
            i <= motions@.len(),
            rows == motion_rows(motions_view(motions@)),
            forall|j: int| 0 <= j < i ==> (#[trigger] rows[j]).0 != id@,
        decreases motions.len() - i,
    {
        if motions[i].motion_id == *id {
            proof {
                lemma_index_is(rows, id@, i as int);
            }
            return Some(i);
        }
        i += 1;
    }
    proof {
        lemma_index_of(rows, id@);
    }
    None
}

/// Counts the votes for and against.
pub fn count_votes(voters: &Vec<Voter>) -> (counts: (usize, usize))
    ensures
        counts.0 == yes_votes(voters_view(voters@)),
        counts.1 == no_votes(voters_view(voters@)),
        counts.0 + counts.1 <= voters@.len(),
{
    let ghost ballots = voters_view(voters@);
    let mut yes_votes: usize = 0;
    let mut no_votes: usize = 0;
    let mut k: usize = 0;
    while k < voters.len()
        invariant
            k <= voters@.len(),
            ballots == voters_view(voters@),
            yes_votes == sum_to(|k: int| if says_yes(ballots[k]) { 1nat } else { 0nat }, k as int),
            no_votes == sum_to(|k: int| if says_no(ballots[k]) { 1nat } else { 0nat }, k as int),
            yes_votes + no_votes <= k,
        decreases voters.len() - k,
    {
        match voters[k].vote {
            Some(vote) => {
                match vote.value {
                    Some(value) => {
                        if value {
                            yes_votes += 1;
                        } else {
                            no_votes += 1;
                        }
                    },
                    None => {
                        no_votes += 1;
                    },
                }
            },
            None => {},
        }
        k += 1;
    }
    (yes_votes, no_votes)
}

/// What a registration motion for `account` says.
pub fn registration_description(account: &AccountId) -> (text: String)
    ensures
        text@ == registration_text(account@),
{
    let text = String::from_str("Add ");
    let text = text.concat(account.as_str());
    text.concat(" as a registered user.")
}

/// Gives a motion a new status and enters it in the motion's log.
pub fn update_motion_status(motion: &mut Motion, status: MotionStatus, now: Timestamp)
    ensures
        final(motion)@ == (MotionView {
            status,
            log: old(motion)@.log.push(Log { status, timestamp: now }),
            ..old(motion)@
        }),
{
    motion.status = status;
    motion.log.push(Log { status, timestamp: now });
}

impl Contract {
    /// Admits the members who waited for the adoption of a motion with this
    /// description.
    fn promote(&mut self, description: &String)
        ensures
            final(self)@ == (ContractView {
                voters: promoted(old(self)@.voters, description@),
                ..old(self)@
            }),
            final(self).voters_per_motion == old(self).voters_per_motion,
    {
        let mut k: usize = 0;
        while k < self.voters.len()
            invariant
                k <= self.voters@.len(),
                self.voters@.len() == old(self).voters@.len(),
                self.owner_id == old(self).owner_id,
                self.motions == old(self).motions,
                self.voters_per_motion == old(self).voters_per_motion,
                self.extra_storage_in_bytes_per_motion == old(
                    self,
                ).extra_storage_in_bytes_per_motion,
                self.delay == old(self).delay,
                self.motion_clock == old(self).motion_clock,
                forall|j: int|
                    0 <= j < k ==> (#[trigger] self.voters@[j])@ == promoted(
                        old(self)@.voters,
                        description@,
                    )[j],
                forall|j: int|
                    k <= j < self.voters@.len() ==> #[trigger] self.voters@[j] == old(
                        self,
                    ).voters@[j],
            decreases self.voters.len() - k,
        {
            if self.voters[k].status == VoterStatus::UNREGISTERED {
                let text = registration_description(&self.voters[k].account_id);
                if *description == text {
                    self.voters[k].status = VoterStatus::REGISTERED;
                }
            }
            k += 1;
        }
        assert(voters_view(self.voters@) =~= promoted(old(self)@.voters, description@));
    }

    /// Counts the votes on the motion `motion_id` and decides it if they
    /// suffice; see [`tally_outcome`].
    pub fn tally_votes(&mut self, ctx: &Context, motion_id: &MotionId) -> (result: Result<
        (),
        VotingError,
    >)
        requires
            old(self).wf(),
            ctx.wf(),
            sets_deadline(old(self)@, motion_id@) ==> ctx.now() + old(self).delay <= u64::MAX,
        ensures
            final(self).wf(),
            match tally_outcome(old(self)@, motion_id@, ctx.now()) {
                Ok(state) => result is Ok && final(self)@ == state,
                Err(error) => result == Err::<(), VotingError>(error) && final(self)@ == old(
                    self,
                )@,
            },
            ids_in_order(old(self)@) ==> ids_in_order(final(self)@),
    {
        proof {
            if tally_outcome(old(self)@, motion_id@, ctx.now()) is Ok {
                lemma_tally_keeps_ids(old(self)@, motion_id@, ctx.now());
            }
        }
        let now = ctx.timestamp();
        let (yes_votes, no_votes) = match self.voters_per_motion.get(motion_id) {
            Some(ballots) => count_votes(&ballots.voters),
            None => {
                return Err(VotingError::BallotsMissing);
            },
        };
        let i = match find_motion(&self.motions, motion_id) {
            Some(i) => i,
            None => {
                return Err(VotingError::MotionMissing);
            },
        };
        let ghost before = old(self)@.motions[i as int];
        let ghost after = tallied_motion(before, yes_votes as nat, no_votes as nat, now, self.delay);
        if self.motions[i].status != MotionStatus::OPEN {
            assert(motions_view(self.motions@) =~= old(self)@.motions.update(i as int, after));
            return Ok(());
        }
        let pool_size = self.motions[i].registered.len();
        assert(before.registered.len() == pool_size);
        match self.motions[i].quorum {
            Some(quorum) => {
                let end = match self.motions[i].end {
                    Some(end) => end,
                    None => {
                        let timestamp = now + self.delay;
                        self.motions[i].end = Some(timestamp);
                        timestamp
                    },
                };
                match decide(Some(quorum), pool_size, yes_votes, no_votes, now, end) {
                    Some(status) => {
                        self.motions[i].end = Some(end);
                        update_motion_status(&mut self.motions[i], status, now);
                    },
                    None => {
                        self.motions[i].end = Some(end);
                    },
                }
                assert(self.motions@[i as int]@ == after);
                assert(motions_view(self.motions@) =~= old(self)@.motions.update(i as int, after));
            },
            None => {
                match decide(None, pool_size, yes_votes, no_votes, now, 0) {
                    Some(status) => {
                        update_motion_status(&mut self.motions[i], status, now);
                        assert(self.motions@[i as int]@ == after);
                        assert(motions_view(self.motions@) =~= old(self)@.motions.update(
                            i as int,
                            after,
                        ));
                        if status == MotionStatus::ADOPTED {
                            let description = self.motions[i].description.clone();
                            self.promote(&description);
                        }
                    },
                    None => {
                        assert(motions_view(self.motions@) =~= old(self)@.motions.update(
                            i as int,
                            after,
                        ));
                    },
                }
            },
        }
        Ok(())
    }
}

} // verus!
