//! Cancelling a stake and refunding what was unmatched.
//!
//! A staker may ask once for the unmatched part of a stake. The request is
//! recorded and the amount is unstaked from the pool; if the pool fails to
//! unstake, the record is dropped again, as if the staker had never asked.
//! After the refund delay the amount is paid out, once.

use vstd::prelude::*;
use crate::context::{AccountId, Balance, Context, EpochHeight, PromiseOutcome};
use crate::table::{has_key, index_of, value_of, keys_unique, without_key, lemma_index_of, lemma_push_row, lemma_same_keys, lemma_without_key};
use crate::bet::{CancelledStake, CancelledStakeView, Contract, ContractView, Error, StakeId, BetId};
use crate::bet::staking::pool_of;

verus! {

/// How much of a stake a cancellation takes back.
#[derive(Clone, Copy, PartialEq, Eq, Structural, Debug)]
pub enum CancelStatus {
    /// The stake is fully matched: there is nothing to take back.
    NotNeeded,
    /// A part of the stake is matched: the rest is taken back.
    Partial,
    /// Nothing of the stake is matched: all of it is taken back.
    Full,
}

impl CancelStatus {
    /// The status in words.
    pub fn message(&self) -> (text: &'static str)
        ensures
            text@ == match *self {
                CancelStatus::NotNeeded => "no cancellation needed"@,
                CancelStatus::Partial => "partial cancellation pending"@,
                CancelStatus::Full => "full cancellation pending"@,
            },
    {
        match self {
            CancelStatus::NotNeeded => "no cancellation needed",
            CancelStatus::Partial => "partial cancellation pending",
            CancelStatus::Full => "full cancellation pending",
        }
    }
}

/// What has to be unstaked from the staking pool for a cancellation.
#[derive(Debug, PartialEq, Eq)]
pub struct UnstakeRequest {
    pub pool: AccountId,
    pub amount: Balance,
    pub stake_id: StakeId,
}

/// The answer to a request to cancel.
#[derive(Debug, PartialEq, Eq)]
pub struct Cancellation {
    pub status: CancelStatus,
    pub unstake: Option<UnstakeRequest>,
}

/// The payout of a cancellation that is due.
#[derive(Debug, PartialEq, Eq)]
pub struct RefundRequest {
    pub staker: AccountId,
    pub amount: Balance,
    pub stake_id: StakeId,
}

/// Why a request to cancel is refused, if it is: the first of the checks
/// that fails.
pub open spec fn cancel_refusal(
    state: ContractView,
    caller: Seq<char>,
    bet_id: Seq<char>,
    stake_id: Seq<char>,
) -> Option<Error> {
    if !has_key(state.stakes, stake_id) {
        Some(Error::StakeMissing)
    } else if !has_key(state.bets, bet_id) {
        Some(Error::BetMissing)
    } else if value_of(state.stakes, stake_id).staker != caller {
        Some(Error::NotAuthorized)
    } else if has_key(state.cancelled_stakes, stake_id) {
        Some(Error::AlreadyCancelled)
    } else {
        None
    }
}

/// How much of a stake with these amounts a cancellation takes back.
pub open spec fn cancel_status(amount: Balance, unmatched: Balance) -> CancelStatus {
    if unmatched == 0 {
        CancelStatus::NotNeeded
    } else if unmatched == amount {
        CancelStatus::Full
    } else {
        CancelStatus::Partial
    }
}

/// The cancellations once `stake_id` has been cancelled with `unmatched`
/// left: a record is made when there is something to take back.
pub open spec fn cancelled_with(
    cancelled: Seq<(Seq<char>, CancelledStakeView)>,
    stake_id: Seq<char>,
    bet_id: Seq<char>,
    unmatched: Balance,
    staker: Seq<char>,
    epoch: EpochHeight,
) -> Seq<(Seq<char>, CancelledStakeView)> {
    if unmatched > 0 {
        cancelled.push(
            (
                stake_id,
                CancelledStakeView { bet_id, amount: unmatched, staker, epoch, cancelled: false },
            ),
        )
    } else {
        cancelled
    }
}

/// Why a refund is refused, if it is: the first of the checks that fails.
pub open spec fn refund_refusal(
    cancelled: Seq<(Seq<char>, CancelledStakeView)>,
    stake_id: Seq<char>,
    epoch: EpochHeight,
    refund_delay_epochs: u8,
) -> Option<Error> {
    if !has_key(cancelled, stake_id) {
        Some(Error::StakeMissing)
    } else if value_of(cancelled, stake_id).cancelled {
        Some(Error::Cancelled)
    } else if epoch - value_of(cancelled, stake_id).epoch < refund_delay_epochs {
        Some(Error::Locked)
    } else {
        None
    }
}

/// The cancellations with the one under `stake_id` marked as paid out.
pub open spec fn refunded(cancelled: Seq<(Seq<char>, CancelledStakeView)>, stake_id: Seq<char>) -> Seq<
    (Seq<char>, CancelledStakeView),
> {
    if has_key(cancelled, stake_id) {
        let i = index_of(cancelled, stake_id);
        cancelled.update(i, (stake_id, CancelledStakeView { cancelled: true, ..cancelled[i].1 }))
    } else {
        cancelled
    }
}

/// A cancellation whose unstaking failed leaves no trace: the cancellations
/// are what they were before the request, so the stake can be cancelled
/// again.
pub proof fn lemma_cancel_round_trip(
    state: ContractView,
    caller: Seq<char>,
    bet_id: Seq<char>,
    stake_id: Seq<char>,
    epoch: EpochHeight,
)
    requires
        keys_unique(state.cancelled_stakes),
        cancel_refusal(state, caller, bet_id, stake_id) is None,
    ensures
        ({
            let unmatched = value_of(state.stakes, stake_id).unmatched;
            let pending = cancelled_with(
                state.cancelled_stakes,
                stake_id,
                bet_id,
                unmatched,
                caller,
                epoch,
            );
            let rolled_back = without_key(pending, stake_id);
            &&& rolled_back == state.cancelled_stakes
            &&& cancel_refusal(
                ContractView { cancelled_stakes: rolled_back, ..state },
                caller,
                bet_id,
                stake_id,
            ) is None
            &&& unmatched > 0 ==> cancel_refusal(
                ContractView { cancelled_stakes: pending, ..state },
                caller,
                bet_id,
                stake_id,
            ) == Some(Error::AlreadyCancelled)
        }),
{
    let unmatched = value_of(state.stakes, stake_id).unmatched;
    let record = CancelledStakeView {
        bet_id,
        amount: unmatched,
        staker: caller,
        epoch,
        cancelled: false,
    };
    if unmatched > 0 {
        lemma_push_row(state.cancelled_stakes, stake_id, record);
        let pending = state.cancelled_stakes.push((stake_id, record));
        assert(pending.remove(state.cancelled_stakes.len() as int) =~= state.cancelled_stakes);
    }
}

/// A cancellation is refunded once: when it has been marked as paid out,
/// every further refund is refused.
pub proof fn lemma_refund_once(
    cancelled: Seq<(Seq<char>, CancelledStakeView)>,
    stake_id: Seq<char>,
    epoch: EpochHeight,
    refund_delay_epochs: u8,
)
    requires
        keys_unique(cancelled),
        has_key(cancelled, stake_id),
    ensures
        refund_refusal(refunded(cancelled, stake_id), stake_id, epoch, refund_delay_epochs) == Some(
            Error::Cancelled,
        ),
{
    lemma_index_of(cancelled, stake_id);
    let after = refunded(cancelled, stake_id);
    assert forall|i: int| 0 <= i < after.len() implies (#[trigger] after[i]).0
        == cancelled[i].0 by {}
    lemma_same_keys(after, cancelled, stake_id);
}

/// A refund is refused while fewer epochs than the delay have passed since
/// the cancellation, and granted from then on until it has been paid out.
pub proof fn lemma_refund_delay(
    cancelled: Seq<(Seq<char>, CancelledStakeView)>,
    stake_id: Seq<char>,
    epoch: EpochHeight,
    refund_delay_epochs: u8,
)
    requires
        has_key(cancelled, stake_id),
        !value_of(cancelled, stake_id).cancelled,
    ensures
        refund_refusal(cancelled, stake_id, epoch, refund_delay_epochs) is None <==> epoch
            >= value_of(cancelled, stake_id).epoch + refund_delay_epochs,
        refund_refusal(cancelled, stake_id, epoch, refund_delay_epochs) == Some(Error::Locked)
            <==> epoch < value_of(cancelled, stake_id).epoch + refund_delay_epochs,
{
}

impl Contract {
    /// Asks for the unmatched part of a stake back.
    ///
    /// The checks are made in the order of [`cancel_refusal`]; a refused
    /// request changes nothing. When something is unmatched, the request is
    /// recorded and the answer says what to unstake from the pool; the stake
    /// itself stays as it is.
    pub fn cancel_stake(&mut self, ctx: &Context, bet_id: &BetId, stake_id: &StakeId) -> (result:
        Result<Cancellation, Error>)
        requires
            old(self).wf(),
        ensures
            final(self).wf(),
            match cancel_refusal(old(self)@, ctx.predecessor_account_id@, bet_id@, stake_id@) {
                Some(error) => result == Err::<Cancellation, Error>(error) && final(self)@ == old(
                    self,
                )@,
                None => {
                    let stake = value_of(old(self)@.stakes, stake_id@);
                    &&& result matches Ok(cancellation)
                    &&& cancellation.status == cancel_status(stake.amount, stake.unmatched)
                    &&& match cancellation.unstake {
                        Some(unstake) => {
                            &&& stake.unmatched > 0
                            &&& unstake.pool@ == pool_of(old(self)@)
                            &&& unstake.amount == stake.unmatched
                            &&& unstake.stake_id@ == stake_id@
                        },
                        None => stake.unmatched == 0,
                    }
                    &&& final(self)@ == (ContractView {
                        cancelled_stakes: cancelled_with(
                            old(self)@.cancelled_stakes,
                            stake_id@,
                            bet_id@,
                            stake.unmatched,
                            ctx.predecessor_account_id@,
                            ctx.epoch_height,
                        ),
                        ..old(self)@
                    })
                },
            },
    {
        let stake = match self.stakes.get(stake_id) {
            Some(stake) => stake,
            None => {
                return Err(Error::StakeMissing);
            },
        };
        if !self.bets.contains_key(bet_id) {
            return Err(Error::BetMissing);
        }
        if stake.staker != ctx.predecessor_account_id {
            return Err(Error::NotAuthorized);
        }
        if self.cancelled_stakes.contains_key(stake_id) {
            return Err(Error::AlreadyCancelled);
        }
        let amount = stake.amount;
        let unmatched = stake.unmatched;
        if unmatched == 0 {
            return Ok(Cancellation { status: CancelStatus::NotNeeded, unstake: None });
        }
        let status = if unmatched == amount {
            CancelStatus::Full
        } else {
            CancelStatus::Partial
        };
        let pool = match &self.metadata.pool {
            Some(pool) => pool.clone(),
            None => self.settings.default_stake_pool.clone(),
        };
        let cancelled_stake = CancelledStake {
            bet_id: bet_id.clone(),
            amount: unmatched,
            staker: ctx.predecessor_account_id.clone(),
            epoch: ctx.epoch_height,
            cancelled: false,
        };
        proof {
            lemma_push_row(old(self)@.cancelled_stakes, stake_id@, cancelled_stake@);
        }
        self.cancelled_stakes.push(stake_id.clone(), cancelled_stake);
        Ok(
            Cancellation {
                status,
                unstake: Some(UnstakeRequest { pool, amount: unmatched, stake_id: stake_id.clone() }),
            },
        )
    }

    /// Takes the staking pool's answer to an unstaking.
    ///
    /// When the pool failed to unstake, the cancellation is dropped and the
    /// answer is `"oops!"`; otherwise nothing changes and the answer is
    /// `"ok"`.
    pub fn unstake_callback(&mut self, stake_id: &StakeId, outcome: PromiseOutcome) -> (answer:
        String)
        requires
            old(self).wf(),
        ensures
            final(self).wf(),
            match outcome {
                PromiseOutcome::Failed => {
                    &&& answer@ == "oops!"@
                    &&& final(self)@ == (ContractView {
                        cancelled_stakes: without_key(old(self)@.cancelled_stakes, stake_id@),
                        ..old(self)@
                    })
                },
                PromiseOutcome::Successful => {
                    &&& answer@ == "ok"@
                    &&& final(self)@ == old(self)@
                },
            },
    {
        match outcome {
            PromiseOutcome::Failed => {
                proof {
                    lemma_without_key(old(self)@.cancelled_stakes, stake_id@);
                }
                let _ = self.cancelled_stakes.remove(stake_id);
                "oops!".to_owned()
            },
            PromiseOutcome::Successful => "ok".to_owned(),
        }
    }

    /// Checks whether a cancellation is due for its refund and says what to
    /// pay out. The checks are made in the order of [`refund_refusal`].
    pub fn refund_cancelled_stake(&self, ctx: &Context, stake_id: &StakeId) -> (result: Result<
        RefundRequest,
        Error,
    >)
        requires
            self.wf(),
        ensures
            match refund_refusal(
                self@.cancelled_stakes,
                stake_id@,
                ctx.epoch_height,
                self.settings.refund_delay_epochs,
            ) {
                Some(error) => result == Err::<RefundRequest, Error>(error),
                None => {
                    let record = value_of(self@.cancelled_stakes, stake_id@);
                    &&& result matches Ok(refund)
                    &&& refund.staker@ == record.staker
                    &&& refund.amount == record.amount
                    &&& refund.stake_id@ == stake_id@
                },
            },
    {
        let cancelled_stake = match self.cancelled_stakes.get(stake_id) {
            Some(cancelled_stake) => cancelled_stake,
            None => {
                return Err(Error::StakeMissing);
            },
        };
        if cancelled_stake.cancelled {
            return Err(Error::Cancelled);
        }
        if ctx.epoch_height < cancelled_stake.epoch {
            return Err(Error::Locked);
        }
        let epochs_elapsed = ctx.epoch_height - cancelled_stake.epoch;
        if epochs_elapsed < self.settings.refund_delay_epochs as u64 {
            return Err(Error::Locked);
        }
        Ok(
            RefundRequest {
                staker: cancelled_stake.staker.clone(),
                amount: cancelled_stake.amount,
                stake_id: stake_id.clone(),
            },
        )
    }

    /// Takes the answer to the payout of a cancellation.
    ///
    /// When the payout went through, the cancellation is marked as paid out
    /// and the answer is `"ok"`. When it failed, or when there is no such
    /// cancellation, nothing changes and the answer is `"oops!"`.
    pub fn refund_cancelled_stake_callback(&mut self, stake_id: &StakeId, outcome: PromiseOutcome) -> (answer:
        String)
        requires
            old(self).wf(),
        ensures
            final(self).wf(),
            if outcome == PromiseOutcome::Successful && has_key(
                old(self)@.cancelled_stakes,
                stake_id@,
            ) {
                &&& answer@ == "ok"@
                &&& final(self)@ == (ContractView {
                    cancelled_stakes: refunded(old(self)@.cancelled_stakes, stake_id@),
                    ..old(self)@
                })
            } else {
                &&& answer@ == "oops!"@
                &&& final(self)@ == old(self)@
            },
    {
        match outcome {
            PromiseOutcome::Failed => {
                return "oops!".to_owned();
            },
            PromiseOutcome::Successful => {},
        }
        match self.cancelled_stakes.position(stake_id) {
            Some(i) => {
                proof {
                    lemma_index_of(old(self)@.cancelled_stakes, stake_id@);
                }
                self.cancelled_stakes.entries[i].1.cancelled = true;
                proof {
                    assert(self.cancelled_stakes@ =~= refunded(
                        old(self)@.cancelled_stakes,
                        stake_id@,
                    ));
                    assert forall|j: int| 0 <= j < self.cancelled_stakes@.len() implies (
                    #[trigger] self.cancelled_stakes@[j]).0 == old(self)@.cancelled_stakes[j].0 by {}
                    lemma_same_keys(self.cancelled_stakes@, old(self)@.cancelled_stakes, stake_id@);
                }
                "ok".to_owned()
            },
            None => "oops!".to_owned(),
        }
    }
}

} // verus!
