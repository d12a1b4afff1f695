//! Opening motions.

use vstd::prelude::*;
use crate::context::{AccountId, Context, Timestamp, assert_one_yocto};
use crate::seqs::{texts, opt_texts, pick_rev, contains_string, lemma_first_hit_ext};
use crate::table::{upserted, lemma_index_of, lemma_push_row, lemma_upserted};
use crate::text::{decimal, decimal_text, lemma_decimal_injective};
use crate::voting::{Ballots, Contract, ContractView, Motion, MotionId, MotionStatus, MotionView, VoteValue, Voter, VoterId, VoterStatus, VoterView, VotingError, motions_view, voters_view};
use crate::voting::tally::{has_motion, motion_index, ids_in_order, issued_before, lemma_tally_keeps_ids, motion_rows, sets_deadline, tally_outcome};
use crate::voting::vote::{is_admitted, is_member, voter_index, voting_member};

verus! {

/// What the voting service needs to open one motion.
#[derive(Debug, PartialEq, Eq)]
pub struct MotionParams {
    pub category: Option<String>,
    pub description: String,
    pub value: Option<bool>,
    pub quorum: Option<u32>,
    pub pool: Option<Vec<AccountId>>,
}

/// The model of [`MotionParams`].
pub struct MotionParamsView {
    pub category: Option<Seq<char>>,
    pub description: Seq<char>,
    pub value: Option<bool>,
    pub quorum: Option<u32>,
    pub pool: Option<Seq<Seq<char>>>,
}

impl View for MotionParams {
    type V = MotionParamsView;

    open spec fn view(&self) -> MotionParamsView {
        MotionParamsView {
            category: match self.category {
                Some(c) => Some(c@),
                None => None,
            },
            description: self.description@,
            value: self.value,
            quorum: self.quorum,
            pool: match self.pool {
                Some(pool) => Some(texts(pool@)),
                None => None,
            },
        }
    }
}

/// The models of a batch of motion parameters.
pub open spec fn params_view(params: Seq<MotionParams>) -> Seq<MotionParamsView> {
    Seq::new(params.len(), |i: int| params[i]@)
}

/// Member `i` belongs to the pool of a new motion: it is admitted and, when
/// the motion names its pool, named there.
pub open spec fn in_pool(voters: Seq<VoterView>, pool: Option<Seq<Seq<char>>>, i: int) -> bool {
    &&& voters[i].status == VoterStatus::REGISTERED
    &&& match pool {
        Some(named) => named.contains(voters[i].account_id),
        None => true,
    }
}

/// The pool of a new motion: the accounts of the members that belong to it,
/// the last in the list of members first.
pub open spec fn pool_members(voters: Seq<VoterView>, pool: Option<Seq<Seq<char>>>) -> Seq<
    Seq<char>,
> {
    pick_rev(
        voters.len() as int,
        |i: int| in_pool(voters, pool, i),
        |i: int| voters[i].account_id,
    )
}

/// The time that the identifier of a motion opened now is derived from:
/// the time of the call, or the time after the latest identifier if that is
/// later. Motions that are opened in one call, or at one time, so get
/// identifiers of their own.
pub open spec fn motion_time(state: ContractView, now: Timestamp) -> Timestamp {
    if now >= state.motion_clock {
        now
    } else {
        state.motion_clock
    }
}

/// The identifier derived from the time `time`: the time as a decimal
/// numeral.
pub open spec fn motion_id_at(time: Timestamp) -> Seq<char> {
    decimal(time as nat)
}

/// The identifier of the motion that is opened in `state` at the time
/// `now`.
pub open spec fn next_motion_id(state: ContractView, now: Timestamp) -> Seq<char> {
    motion_id_at(motion_time(state, now))
}

/// A motion as it is opened, with the identifier derived from `time`.
pub open spec fn new_motion(
    voters: Seq<VoterView>,
    time: Timestamp,
    category: Option<Seq<char>>,
    description: Seq<char>,
    quorum: Option<u32>,
    pool: Option<Seq<Seq<char>>>,
) -> MotionView {
    MotionView {
        motion_id: motion_id_at(time),
        category,
        description,
        status: MotionStatus::OPEN,
        registered: pool_members(voters, pool),
        log: Seq::empty(),
        quorum,
        end: None,
    }
}

/// The motion that `params` ask for, as it is opened in `state` at the time
/// `now`.
pub open spec fn motion_of(state: ContractView, now: Timestamp, params: MotionParamsView) -> MotionView {
    new_motion(
        state.voters,
        motion_time(state, now),
        params.category,
        params.description,
        params.quorum,
        params.pool,
    )
}

/// The state once a motion has been recorded: it is the last of the
/// motions, and the next identifier is derived from a later time.
pub open spec fn with_motion(state: ContractView, now: Timestamp, motion: MotionView) -> ContractView {
    ContractView {
        motions: state.motions.push(motion),
        motion_clock: (motion_time(state, now) + 1) as u64,
        ..state
    }
}

/// The state once `signer` has opened a motion, before the tally: the motion
/// is recorded, and its ballots hold the signer with the opening vote.
pub open spec fn opened(state: ContractView, signer: Seq<char>, now: Timestamp, params: MotionParamsView) -> ContractView {
    ContractView {
        voters_per_motion: upserted(
            state.voters_per_motion,
            next_motion_id(state, now),
            seq![voting_member(state.voters, signer, params.value)],
        ),
        ..with_motion(state, now, motion_of(state, now, params))
    }
}

/// The state once `signer` has opened a motion and the motion has been
/// tallied.
pub open spec fn opened_and_tallied(
    state: ContractView,
    signer: Seq<char>,
    now: Timestamp,
    params: MotionParamsView,
) -> ContractView {
    match tally_outcome(opened(state, signer, now, params), next_motion_id(state, now), now) {
        Ok(after) => after,
        Err(_) => state,
    }
}

/// The state once `signer` has opened the first `n` motions of a batch, one
/// after the other.
pub open spec fn batch_opened(
    state: ContractView,
    signer: Seq<char>,
    now: Timestamp,
    batch: Seq<MotionParamsView>,
    n: int,
) -> ContractView
    decreases n,
{
    if n <= 0 {
        state
    } else {
        opened_and_tallied(batch_opened(state, signer, now, batch, n - 1), signer, now, batch[n - 1])
    }
}

/// The tally that follows the opening of motion `k` of a batch fixes the
/// time from which that motion can be decided.
pub open spec fn batch_sets_deadline(
    state: ContractView,
    signer: Seq<char>,
    now: Timestamp,
    batch: Seq<MotionParamsView>,
    k: int,
) -> bool {
    let before = batch_opened(state, signer, now, batch, k);
    sets_deadline(opened(before, signer, now, batch[k]), next_motion_id(before, now))
}

/// Why the opening of a motion by the signer is refused, if it is: the
/// signer is no member, or no identifier is left.
pub open spec fn opening_refusal(state: ContractView, ctx: Context) -> Option<VotingError> {
    if !is_member(state.voters, ctx.signer_account_id@) {
        Some(VotingError::VoterMissing)
    } else if motion_time(state, ctx.now()) == u64::MAX {
        Some(VotingError::IdentifiersExhausted)
    } else {
        None
    }
}

/// Why a request to open `count` motions is refused, if it is: the first of
/// the checks that fails.
pub open spec fn motion_refusal(state: ContractView, ctx: Context, count: nat) -> Option<
    VotingError,
> {
    if ctx.attached_deposit != 1 {
        Some(VotingError::OneYocto)
    } else if !is_admitted(state.voters, ctx.signer_account_id@) {
        Some(VotingError::NotRegistered)
    } else if count > 0 && motion_time(state, ctx.now()) + count > u64::MAX {
        Some(VotingError::IdentifiersExhausted)
    } else {
        None
    }
}

/// A tally changes no member's account.
pub proof fn lemma_tally_keeps_members(state: ContractView, id: Seq<char>, now: Timestamp, account: Seq<char>)
    requires
        tally_outcome(state, id, now) is Ok,
    ensures
        ({
            let after = tally_outcome(state, id, now)->Ok_0;
            &&& after.voters.len() == state.voters.len()
            &&& voter_index(after.voters, account) == voter_index(state.voters, account)
            &&& is_member(after.voters, account) == is_member(state.voters, account)
            &&& is_admitted(state.voters, account) ==> is_admitted(after.voters, account)
            &&& after.voters_per_motion == state.voters_per_motion
            &&& after.delay == state.delay
            &&& after.motion_clock == state.motion_clock
        }),
{
    let after = tally_outcome(state, id, now)->Ok_0;
    assert forall|i: int| 0 <= i < state.voters.len() implies (#[trigger] after.voters[i]).account_id
        == state.voters[i].account_id by {}
    lemma_first_hit_ext(
        state.voters.len() as int,
        |i: int| after.voters[i].account_id == account,
        |i: int| state.voters[i].account_id == account,
        0,
    );
    if is_admitted(state.voters, account) {
        let i = choose|i: int|
            0 <= i < state.voters.len() && (#[trigger] state.voters[i]).account_id == account
                && state.voters[i].status == VoterStatus::REGISTERED;
        assert(after.voters[i].account_id == account && after.voters[i].status
            == VoterStatus::REGISTERED);
    }
}

/// Identifiers derived from different times are different.
pub proof fn lemma_motion_ids_differ(earlier: Timestamp, later: Timestamp)
    requires
        earlier != later,
    ensures
        motion_id_at(earlier) != motion_id_at(later),
{
    if motion_id_at(earlier) == motion_id_at(later) {
        lemma_decimal_injective(earlier as nat, later as nat);
    }
}

/// Recording a motion keeps the identifiers in order: the new identifier is
/// derived from a time that no earlier identifier was derived from.
pub proof fn lemma_recording_keeps_ids_in_order(state: ContractView, now: Timestamp, motion: MotionView)
    requires
        ids_in_order(state),
        motion_time(state, now) < u64::MAX,
        motion.motion_id == next_motion_id(state, now),
    ensures
        ids_in_order(with_motion(state, now, motion)),
        !has_motion(state.motions, next_motion_id(state, now)),
{
    let time = motion_time(state, now);
    let id = motion_id_at(time);
    let after = with_motion(state, now, motion);
    let rows = motion_rows(state.motions);
    lemma_index_of(rows, id);
    if has_motion(state.motions, id) {
        let i = motion_index(state.motions, id);
        assert(issued_before(state.motions[i].motion_id, state.motion_clock));
        let earlier = choose|earlier: nat|
            earlier < state.motion_clock && state.motions[i].motion_id == #[trigger] decimal(
                earlier,
            );
        lemma_decimal_injective(earlier, time as nat);
    }
    lemma_push_row(rows, id, motion);
    assert(motion_rows(after.motions) =~= rows.push((id, motion)));
    assert forall|i: int| 0 <= i < after.motions.len() implies issued_before(
        (#[trigger] after.motions[i]).motion_id,
        after.motion_clock,
    ) by {
        if i < state.motions.len() {
            assert(after.motions[i] == state.motions[i]);
            assert(issued_before(state.motions[i].motion_id, state.motion_clock));
            let earlier = choose|earlier: nat|
                earlier < state.motion_clock && state.motions[i].motion_id == #[trigger] decimal(
                    earlier,
                );
            assert(earlier < after.motion_clock && after.motions[i].motion_id == decimal(
                earlier,
            ));
        } else {
            assert(time < after.motion_clock && after.motions[i].motion_id == decimal(
                time as nat,
            ));
        }
    }
}

/// Opening a motion keeps the identifiers in order, so every motion that
/// is opened gets an identifier of its own.
pub proof fn lemma_opening_keeps_ids_in_order(
    state: ContractView,
    signer: Seq<char>,
    now: Timestamp,
    params: MotionParamsView,
)
    requires
        ids_in_order(state),
        motion_time(state, now) < u64::MAX,
    ensures
        ids_in_order(opened_and_tallied(state, signer, now, params)),
        !has_motion(state.motions, next_motion_id(state, now)),
{
    let begun = opened(state, signer, now, params);
    let motion = motion_of(state, now, params);
    lemma_recording_keeps_ids_in_order(state, now, motion);
    assert(ids_in_order(with_motion(state, now, motion)));
    assert(begun.motions == with_motion(state, now, motion).motions);
    assert(ids_in_order(begun));
    if tally_outcome(begun, next_motion_id(state, now), now) is Ok {
        lemma_tally_keeps_ids(begun, next_motion_id(state, now), now);
    }
}

/// The accounts of the members that belong to the pool of a new motion.
fn gather_pool(voters: &Vec<Voter>, pool: &Option<Vec<AccountId>>) -> (registered: Vec<VoterId>)
    ensures
        texts(registered@) == pool_members(voters_view(voters@), opt_texts(*pool)),
{
    let ghost members = voters_view(voters@);
    let ghost named = opt_texts(*pool);
    let mut registered: Vec<VoterId> = Vec::new();
    let mut i: usize = 0;
    assert(texts(registered@) =~= Seq::<Seq<char>>::empty());
    while i < voters.len()
        invariant
            i <= voters@.len(),
            members == voters_view(voters@),
            named == opt_texts(*pool),
            texts(registered@) == pick_rev(
                i as int,
                |i: int| in_pool(members, named, i),
                |i: int| members[i].account_id,
            ),
        decreases voters.len() - i,
    {
        let belongs = voters[i].status == VoterStatus::REGISTERED && match pool {
            Some(named) => contains_string(named, &voters[i].account_id),
            None => true,
        };
        assert(belongs == in_pool(members, named, i as int));
        if belongs {
            let ghost before = texts(registered@);
            registered.insert(0, voters[i].account_id.clone());
            assert(texts(registered@) =~= seq![members[i as int].account_id] + before);
        }
        i += 1;
    }
    registered
}

impl Contract {
    /// The time that the identifier of a motion opened now is derived from,
    /// unless the clock has reached its end.
    fn next_motion_time(&self, ctx: &Context) -> (time: Option<Timestamp>)
        requires
            ctx.wf(),
        ensures
            match time {
                Some(t) => t == motion_time(self@, ctx.now()) && t < u64::MAX,
                None => motion_time(self@, ctx.now()) == u64::MAX,
            },
    {
        let now = ctx.timestamp();
        let time = if now >= self.motion_clock {
            now
        } else {
            self.motion_clock
        };
        if time == u64::MAX {
            None
        } else {
            Some(time)
        }
    }

    /// Opens a motion on which every admitted member may vote. The motion
    /// gets no ballots and is not tallied. Its identifier is returned. When
    /// no identifier is left, nothing changes.
    pub fn internal_motion(&mut self, ctx: &Context, category: Option<String>, description: String) -> (result:
        Result<MotionId, VotingError>)
        requires
            old(self).wf(),
            ctx.wf(),
        ensures
            final(self).wf(),
            ids_in_order(old(self)@) ==> ids_in_order(final(self)@),
            if motion_time(old(self)@, ctx.now()) == u64::MAX {
                &&& result == Err::<MotionId, VotingError>(VotingError::IdentifiersExhausted)
                &&& final(self)@ == old(self)@
            } else {
                &&& result matches Ok(motion_id)
                &&& motion_id@ == next_motion_id(old(self)@, ctx.now())
                &&& final(self)@ == with_motion(
                    old(self)@,
                    ctx.now(),
                    new_motion(
                        old(self)@.voters,
                        motion_time(old(self)@, ctx.now()),
                        match category {
                            Some(c) => Some(c@),
                            None => None,
                        },
                        description@,
                        None,
                        None,
                    ),
                )
            },
    {
        let time = match self.next_motion_time(ctx) {
            Some(time) => time,
            None => {
                return Err(VotingError::IdentifiersExhausted);
            },
        };
        let motion_id = decimal_text(time);
        let motion = Motion {
            motion_id: motion_id.clone(),
            category,
            description,
            status: MotionStatus::OPEN,
            registered: gather_pool(&self.voters, &None),
            log: Vec::new(),
            quorum: None,
            end: None,
        };
        let ghost recorded = motion@;
        proof {
            if ids_in_order(old(self)@) {
                lemma_recording_keeps_ids_in_order(old(self)@, ctx.now(), recorded);
            }
        }
        self.motions.push(motion);
        self.motion_clock = time + 1;
        assert(motions_view(self.motions@) =~= old(self)@.motions.push(recorded));
        Ok(motion_id)
    }

    /// Opens a motion with the signer's opening vote and tallies it.
    ///
    /// The pool of the motion is made of the admitted members, or of those
    /// among them that `pool` names. The request is refused, and nothing
    /// changes, when the signer is no member or no identifier is left. The
    /// motion is returned as it was opened, before the tally.
    pub fn internal_post_assert_motion(
        &mut self,
        ctx: &Context,
        category: Option<String>,
        description: String,
        value: Option<VoteValue>,
        quorum: Option<u32>,
        pool: Option<Vec<AccountId>>,
    ) -> (result: Result<Motion, VotingError>)
        requires
            old(self).wf(),
            ctx.wf(),
            opening_refusal(old(self)@, *ctx) is None && sets_deadline(
                opened(
                    old(self)@,
                    ctx.signer_account_id@,
                    ctx.now(),
                    (MotionParams { category, description, value, quorum, pool })@,
                ),
                next_motion_id(old(self)@, ctx.now()),
            ) ==> ctx.now() + old(self).delay <= u64::MAX,
        ensures
            final(self).wf(),
            ids_in_order(old(self)@) ==> ids_in_order(final(self)@),
            match opening_refusal(old(self)@, *ctx) {
                Some(error) => result == Err::<Motion, VotingError>(error) && final(self)@ == old(
                    self,
                )@,
                None => {
                    let params = (MotionParams { category, description, value, quorum, pool })@;
                    &&& result matches Ok(motion)
                    &&& motion@ == motion_of(old(self)@, ctx.now(), params)
                    &&& tally_outcome(
                        opened(old(self)@, ctx.signer_account_id@, ctx.now(), params),
                        next_motion_id(old(self)@, ctx.now()),
                        ctx.now(),
                    ) is Ok
                    &&& final(self)@ == opened_and_tallied(
                        old(self)@,
                        ctx.signer_account_id@,
                        ctx.now(),
                        params,
                    )
                },
            },
    {
        let ghost params = (MotionParams { category, description, value, quorum, pool })@;
        let voter = match Voter::vote(&self.voters, &ctx.signer_account_id, value) {
            Some(voter) => voter,
            None => {
                return Err(VotingError::VoterMissing);
            },
        };
        let time = match self.next_motion_time(ctx) {
            Some(time) => time,
            None => {
                return Err(VotingError::IdentifiersExhausted);
            },
        };
        proof {
            if ids_in_order(old(self)@) {
                lemma_opening_keeps_ids_in_order(
                    old(self)@,
                    ctx.signer_account_id@,
                    ctx.now(),
                    params,
                );
            }
        }
        let motion_id = decimal_text(time);
        let registered = gather_pool(&self.voters, &pool);
        let copy = Motion {
            motion_id: motion_id.clone(),
            category: match &category {
                Some(c) => Some(c.clone()),
                None => None,
            },
            description: description.clone(),
            status: MotionStatus::OPEN,
            registered: crate::bet::admin::clone_strings(&registered),
            log: Vec::new(),
            quorum,
            end: None,
        };
        let motion = Motion {
            motion_id: motion_id.clone(),
            category,
            description,
            status: MotionStatus::OPEN,
            registered,
            log: Vec::new(),
            quorum,
            end: None,
        };
        let ghost created = motion@;
        assert(copy@ == created);
        let mut voters: Vec<Voter> = Vec::new();
        let ghost member = voter@;
        voters.push(voter);
        let ballots = Ballots { voters };
        proof {
            assert(ballots@ =~= seq![member]);
            lemma_upserted(old(self)@.voters_per_motion, motion_id@, ballots@);
        }
        self.motions.push(motion);
        self.motion_clock = time + 1;
        self.voters_per_motion.upsert(motion_id.clone(), ballots);
        proof {
            assert(motions_view(self.motions@) =~= old(self)@.motions.push(created));
            assert(self@ == opened(old(self)@, ctx.signer_account_id@, ctx.now(), params));
            let rows = motion_rows(self@.motions);
            let last = old(self)@.motions.len() as int;
            assert(rows[last].0 == motion_id@);
            lemma_index_of(rows, motion_id@);
        }
        match self.tally_votes(ctx, &motion_id) {
            Ok(()) => Ok(copy),
            Err(error) => Err(error),
        }
    }

    /// Opens a motion for the signer, an admitted member, who attaches one
    /// unit; see [`Contract::internal_post_assert_motion`].
    pub fn motion(
        &mut self,
        ctx: &Context,
        category: Option<String>,
        description: String,
        value: Option<VoteValue>,
        quorum: Option<u32>,
        pool: Option<Vec<AccountId>>,
    ) -> (result: Result<Motion, VotingError>)
        requires
            old(self).wf(),
            ctx.wf(),
            motion_refusal(old(self)@, *ctx, 1) is None && sets_deadline(
                opened(
                    old(self)@,
                    ctx.signer_account_id@,
                    ctx.now(),
                    (MotionParams { category, description, value, quorum, pool })@,
                ),
                next_motion_id(old(self)@, ctx.now()),
            ) ==> ctx.now() + old(self).delay <= u64::MAX,
        ensures
            final(self).wf(),
            ids_in_order(old(self)@) ==> ids_in_order(final(self)@),
            match motion_refusal(old(self)@, *ctx, 1) {
                Some(error) => result == Err::<Motion, VotingError>(error) && final(self)@ == old(
                    self,
                )@,
                None => {
                    let params = (MotionParams { category, description, value, quorum, pool })@;
                    &&& result matches Ok(motion)
                    &&& motion@ == motion_of(old(self)@, ctx.now(), params)
                    &&& final(self)@ == opened_and_tallied(
                        old(self)@,
                        ctx.signer_account_id@,
                        ctx.now(),
                        params,
                    )
                },
            },
    {
        if !assert_one_yocto(ctx.attached_deposit) {
            return Err(VotingError::OneYocto);
        }
        if !self.is_registered(&ctx.signer_account_id) {
            return Err(VotingError::NotRegistered);
        }
        proof {
            let i = choose|i: int|
                0 <= i < self@.voters.len() && (#[trigger] self@.voters[i]).account_id
                    == ctx.signer_account_id@ && self@.voters[i].status == VoterStatus::REGISTERED;
            crate::voting::vote::lemma_member(self@.voters, ctx.signer_account_id@, i);
        }
        self.internal_post_assert_motion(ctx, category, description, value, quorum, pool)
    }

    /// Opens a batch of motions for the signer, an admitted member, who
    /// attaches one unit. The motions are opened and tallied one after the
    /// other, in the order given, each under an identifier of its own, and
    /// returned as they were opened. When the batch is refused, nothing
    /// changes.
    pub fn motions(&mut self, ctx: &Context, params_vec: Vec<MotionParams>) -> (result: Result<
        Vec<Motion>,
        VotingError,
    >)
        requires
            old(self).wf(),
            ctx.wf(),
            forall|k: int|
                0 <= k < params_vec@.len() && motion_refusal(
                    old(self)@,
                    *ctx,
                    params_vec@.len(),
                ) is None && #[trigger] batch_sets_deadline(
                    old(self)@,
                    ctx.signer_account_id@,
                    ctx.now(),
                    params_view(params_vec@),
                    k,
                ) ==> ctx.now() + old(self).delay <= u64::MAX,
        ensures
            final(self).wf(),
            ids_in_order(old(self)@) ==> ids_in_order(final(self)@),
            match motion_refusal(old(self)@, *ctx, params_vec@.len()) {
                Some(error) => result == Err::<Vec<Motion>, VotingError>(error) && final(self)@
                    == old(self)@,
                None => {
                    let batch = params_view(params_vec@);
                    let signer = ctx.signer_account_id@;
                    &&& result matches Ok(motions)
                    &&& motions@.len() == batch.len()
                    &&& forall|k: int|
                        0 <= k < batch.len() ==> (#[trigger] motions@[k])@ == motion_of(
                            batch_opened(old(self)@, signer, ctx.now(), batch, k),
                            ctx.now(),
                            batch[k],
                        )
                    &&& final(self)@ == batch_opened(
                        old(self)@,
                        signer,
                        ctx.now(),
                        batch,
                        batch.len() as int,
                    )
                },
            },
    {
        if !assert_one_yocto(ctx.attached_deposit) {
            return Err(VotingError::OneYocto);
        }
        if !self.is_registered(&ctx.signer_account_id) {
            return Err(VotingError::NotRegistered);
        }
        let total = params_vec.len();
        let now = ctx.timestamp();
        let first: Timestamp = if now >= self.motion_clock {
            now
        } else {
            self.motion_clock
        };
        if total > 0 && first as u128 + total as u128 > u64::MAX as u128 {
            return Err(VotingError::IdentifiersExhausted);
        }
        let ghost batch = params_view(params_vec@);
        let ghost signer = ctx.signer_account_id@;
        let mut motions: Vec<Motion> = Vec::new();
        let mut params_vec = params_vec;
        let mut k: usize = 0;
        while k < total
            invariant
                k <= total,
                total == batch.len(),
                params_vec@.len() == total - k,
                forall|j: int|
                    0 <= j < total - k ==> (#[trigger] params_vec@[j])@ == batch[k + j],
                ctx.wf(),
                now == ctx.now(),
                signer == ctx.signer_account_id@,
                self.wf(),
                self.delay == old(self).delay,
                first + total <= u64::MAX,
                k < total ==> motion_time(self@, now) == first + k,
                forall|j: int|
                    0 <= j < total && #[trigger] batch_sets_deadline(
                        old(self)@,
                        signer,
                        now,
                        batch,
                        j,
                    ) ==> now + old(self).delay <= u64::MAX,
                is_admitted(self@.voters, signer),
                self@ == batch_opened(old(self)@, signer, now, batch, k as int),
                ids_in_order(old(self)@) ==> ids_in_order(self@),
                motions@.len() == k,
                forall|j: int|
                    0 <= j < k ==> (#[trigger] motions@[j])@ == motion_of(
                        batch_opened(old(self)@, signer, now, batch, j),
                        now,
                        batch[j],
                    ),
            decreases total - k,
        {
            let params = params_vec.remove(0);
            assert(params@ == batch[k as int]);
            let ghost before = self@;
            proof {
                let i = choose|i: int|
                    0 <= i < self@.voters.len() && (#[trigger] self@.voters[i]).account_id
                        == signer && self@.voters[i].status == VoterStatus::REGISTERED;
                crate::voting::vote::lemma_member(self@.voters, signer, i);
                assert(batch_sets_deadline(old(self)@, signer, now, batch, k as int)
                    ==> now + old(self).delay <= u64::MAX);
            }
            match self.internal_post_assert_motion(
                ctx,
                params.category,
                params.description,
                params.value,
                params.quorum,
                params.pool,
            ) {
                Ok(motion) => {
                    proof {
                        lemma_tally_keeps_members(
                            opened(before, signer, now, batch[k as int]),
                            next_motion_id(before, now),
                            now,
                            signer,
                        );
                    }
                    motions.push(motion);
                },
                Err(error) => {
                    return Err(error);
                },
            }
            k += 1;
        }
        Ok(motions)
    }
}

} // verus!
