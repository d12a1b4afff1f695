//! Yield on stakes.
//!
//! A stake earns a fixed share of its amount per epoch. The share is not
//! compounded: what a stake has earned grows by the same amount with every
//! epoch. Earnings are brought up to date when they are asked for.

use vstd::prelude::*;
use crate::arith::scale;
use crate::context::{Balance, Context};
use crate::table::{has_key, index_of, value_of, keys_unique, lemma_index_of, lemma_same_keys};
use crate::bet::{AccountView, Contract, ContractView, Error, StakeEarning, StakeId, APY, EPOCHS_PER_YEAR};

verus! {

/// What a stake of `amount` earns in one epoch: the yearly yield, rounded
/// down, divided by the number of epochs in a year, rounded down.
pub open spec fn yield_per_epoch(amount: Balance) -> nat {
    (amount * APY.0 / (APY.1 as int) / (EPOCHS_PER_YEAR as int)) as nat
}

/// The epoch at which yield is computed.
pub open spec fn effective_epoch(state: ContractView, ctx: Context) -> int {
    ctx.epoch_height + state.settings.epoch_offset
}

/// The yield balance of `earning` brought forward to `epoch`.
pub open spec fn accrued(earning: StakeEarning, amount: Balance, epoch: u64) -> int {
    earning.yield_balance + yield_per_epoch(amount) * (epoch - earning.epochs.1)
}

/// The earnings record brought forward to `epoch`. A record that is already
/// at that epoch, or past it, stays as it is.
pub open spec fn earning_at(earning: StakeEarning, amount: Balance, epoch: u64) -> StakeEarning {
    if epoch <= earning.epochs.1 {
        earning
    } else {
        StakeEarning {
            epochs: (earning.epochs.1, epoch),
            yield_balance: accrued(earning, amount, epoch) as Balance,
        }
    }
}

/// What asking for the earnings of a stake at `epoch` gives: the record
/// brought forward, or the reason why there is none.
pub open spec fn earning_outcome(state: ContractView, stake_id: Seq<char>, epoch: u64) -> Result<
    StakeEarning,
    Error,
> {
    if !has_key(state.stakes, stake_id) {
        Err(Error::StakeMissing)
    } else {
        let stake = value_of(state.stakes, stake_id);
        if !has_key(state.accounts, stake.staker) {
            Err(Error::AccountMissing)
        } else {
            let account = value_of(state.accounts, stake.staker);
            if !has_key(account.earnings, stake_id) {
                Err(Error::EarningMissing)
            } else {
                let earning = value_of(account.earnings, stake_id);
                if epoch > earning.epochs.1 && accrued(earning, stake.amount, epoch) > u128::MAX {
                    Err(Error::YieldOverflow)
                } else {
                    Ok(earning_at(earning, stake.amount, epoch))
                }
            }
        }
    }
}

/// The accounts with the earnings record of `stake_id` under `staker`
/// replaced by `earning`.
pub open spec fn accounts_earning(
    accounts: Seq<(Seq<char>, AccountView)>,
    staker: Seq<char>,
    stake_id: Seq<char>,
    earning: StakeEarning,
) -> Seq<(Seq<char>, AccountView)> {
    let a = index_of(accounts, staker);
    let e = index_of(accounts[a].1.earnings, stake_id);
    accounts.update(
        a,
        (staker, AccountView { earnings: accounts[a].1.earnings.update(e, (stake_id, earning)) }),
    )
}

/// Yield is linear in time: bringing a record forward in two steps gives the
/// balance that one step gives.
pub proof fn lemma_yield_additive(earning: StakeEarning, amount: Balance, middle: u64, epoch: u64)
    requires
        earning.epochs.1 <= middle <= epoch,
        accrued(earning, amount, epoch) <= u128::MAX,
    ensures
        earning_at(earning_at(earning, amount, middle), amount, epoch).yield_balance == earning_at(
            earning,
            amount,
            epoch,
        ).yield_balance,
{
    let per = yield_per_epoch(amount) as int;
    let a = middle - earning.epochs.1;
    let b = epoch - middle;
    assert(per * (a + b) == per * a + per * b) by (nonlinear_arith);
    assert(per * a <= per * (a + b)) by (nonlinear_arith)
        requires 0 <= per, 0 <= a, 0 <= b;
}

/// A stake of `amount` that is held for `epochs` epochs, from a record that
/// starts at nothing, has earned `floor(floor(amount * 45 / 100) / 730)` per
/// epoch.
pub proof fn lemma_yield_linear(amount: Balance, start: u64, epochs: u64)
    requires
        start + epochs <= u64::MAX,
        (amount * 45 / 100 / 730) * epochs <= u128::MAX,
    ensures
        earning_at(
            StakeEarning { epochs: (start, start), yield_balance: 0 },
            amount,
            (start + epochs) as u64,
        ).yield_balance == (amount * 45 / 100 / 730) * epochs,
{
    let per = amount * 45 / 100 / 730;
    assert(per * 0 == 0) by (nonlinear_arith);
}

/// The yield of one epoch.
pub fn compute_yield_per_epoch(amount: Balance) -> (per_epoch: Balance)
    ensures
        per_epoch == yield_per_epoch(amount),
{
    let yearly = scale(amount, APY.0, APY.1);
    yearly / EPOCHS_PER_YEAR
}

impl Contract {
    /// The earnings of a stake at the current epoch, without recording them.
    pub fn calculate_stake_earning(&self, ctx: &Context, stake_id: &StakeId) -> (result: Result<
        StakeEarning,
        Error,
    >)
        requires
            self.wf(),
            effective_epoch(self@, *ctx) <= u64::MAX,
        ensures
            result == earning_outcome(self@, stake_id@, effective_epoch(self@, *ctx) as u64),
    {
        let stake = match self.stakes.get(stake_id) {
            Some(stake) => stake,
            None => {
                return Err(Error::StakeMissing);
            },
        };
        let account = match self.accounts.get(&stake.staker) {
            Some(account) => account,
            None => {
                return Err(Error::AccountMissing);
            },
        };
        let earning = match account.earnings.get(stake_id) {
            Some(earning) => *earning,
            None => {
                return Err(Error::EarningMissing);
            },
        };
        let epoch = ctx.epoch_height + self.settings.epoch_offset;
        let last_epoch = earning.epochs.1;
        if epoch <= last_epoch {
            return Ok(earning);
        }
        let per_epoch = compute_yield_per_epoch(stake.amount);
        let epochs_staked = epoch - last_epoch;
        let gained = match per_epoch.checked_mul(epochs_staked as u128) {
            Some(gained) => gained,
            None => {
                return Err(Error::YieldOverflow);
            },
        };
        match earning.yield_balance.checked_add(gained) {
            Some(yield_balance) => Ok(StakeEarning { epochs: (last_epoch, epoch), yield_balance }),
            None => Err(Error::YieldOverflow),
        }
    }

    /// Brings the earnings of a stake up to the current epoch, records them
    /// and returns them. Nothing changes when they cannot be computed.
    pub fn internal_calculate_stake_earning(&mut self, ctx: &Context, stake_id: &StakeId) -> (result:
        Result<StakeEarning, Error>)
        requires
            old(self).wf(),
            effective_epoch(old(self)@, *ctx) <= u64::MAX,
        ensures
            final(self).wf(),
            result == earning_outcome(
                old(self)@,
                stake_id@,
                effective_epoch(old(self)@, *ctx) as u64,
            ),
            match result {
                Ok(earning) => final(self)@ == (ContractView {
                    accounts: accounts_earning(
                        old(self)@.accounts,
                        value_of(old(self)@.stakes, stake_id@).staker,
                        stake_id@,
                        earning,
                    ),
                    ..old(self)@
                }),
                Err(_) => final(self)@ == old(self)@,
            },
    {
        let earning = match self.calculate_stake_earning(ctx, stake_id) {
            Ok(earning) => earning,
            Err(error) => {
                return Err(error);
            },
        };
        let s = match self.stakes.position(stake_id) {
            Some(s) => s,
            None => {
                return Err(Error::StakeMissing);
            },
        };
        let a = match self.accounts.position(&self.stakes.entries[s].1.staker) {
            Some(a) => a,
            None => {
                return Err(Error::AccountMissing);
            },
        };
        let e = match self.accounts.entries[a].1.earnings.position(stake_id) {
            Some(e) => e,
            None => {
                return Err(Error::EarningMissing);
            },
        };
        proof {
            lemma_index_of(old(self)@.accounts, old(self)@.stakes[s as int].1.staker);
            lemma_index_of(old(self)@.accounts[a as int].1.earnings, stake_id@);
        }
        self.accounts.entries[a].1.earnings.entries[e].1 = earning;
        proof {
            let staker = old(self)@.stakes[s as int].1.staker;
            assert(self.accounts.entries@[a as int].1.earnings@ =~= old(
                self,
            )@.accounts[a as int].1.earnings.update(e as int, (stake_id@, earning)));
            assert(self.accounts@ =~= accounts_earning(
                old(self)@.accounts,
                staker,
                stake_id@,
                earning,
            ));
            assert forall|i: int| 0 <= i < self.accounts@.len() implies (
            #[trigger] self.accounts@[i]).0 == old(self)@.accounts[i].0 by {}
            lemma_same_keys(self.accounts@, old(self)@.accounts, staker);
            assert forall|i: int| 0 <= i < self.accounts@.len() implies keys_unique(
                (#[trigger] self.accounts@[i]).1.earnings,
            ) by {
                if i == a {
                    let before = old(self)@.accounts[a as int].1.earnings;
                    let after = self.accounts@[a as int].1.earnings;
                    assert forall|j: int| 0 <= j < after.len() implies (#[trigger] after[j]).0
                        == before[j].0 by {}
                    lemma_same_keys(after, before, stake_id@);
                } else {
                    assert(self.accounts@[i] == old(self)@.accounts[i]);
                }
            }
        }
        Ok(earning)
    }
}

} // verus!
