//! Placing a stake and confirming its deposit.
//!
//! A stake is placed in two steps. [`Contract::new_stake`] checks the request,
//! records the bet and its subject, and says what has to be deposited with
//! the staking pool. When the pool has answered,
//! [`Contract::deposit_and_stake_callback`] records the stake and matches it.

use vstd::prelude::*;
use crate::context::{AccountId, Balance, Context, PromiseOutcome, Timestamp, storage_cost, deduct_storage_cost};
use crate::ident::{valid_id, is_valid_id};
use crate::seqs::{texts, contains_string};
use crate::sums::{lemma_sum_ext};
use crate::table::{Table, has_key, index_of, keys_unique, upserted, lemma_index_of, lemma_push_row, lemma_upserted, lemma_same_keys};
use crate::bet::{awaiting_match, Account, AccountView, Bet, BetView, Contract, ContractView, Error, Position, Prediction, Stake, StakeEarning, StakeId, StakeRows, StakeView, BetId, MIN_STAKE};
use crate::bet::matching::{balanced, matched_rows, matched_sum, matched_term, match_in, settled, settled_but, stakes_sound, with_unmatched, lemma_matching_only_lowers, lemma_matching_settles};

verus! {

/// What has to be deposited with the staking pool for a stake, and the stake
/// that is to be recorded once the pool has confirmed the deposit.
#[derive(Debug)]
pub struct StakeRequest {
    pub pool: AccountId,
    pub amount: Balance,
    pub stake_id: StakeId,
    pub stake: Stake,
}

/// An identifier given as text is well-formed when its bytes are.
pub open spec fn valid_text_id(id: Seq<char>) -> bool {
    valid_id(vstd::utf8::encode_utf8(id))
}

/// The staking pool in use: the one that the metadata names, or else the
/// network's default.
pub open spec fn pool_of(state: ContractView) -> Seq<char> {
    match state.metadata.pool {
        Some(pool) => pool,
        None => state.settings.default_stake_pool,
    }
}

/// Why a stake is refused, if it is: the first of the checks that fails.
pub open spec fn new_stake_refusal(
    state: ContractView,
    ctx: Context,
    bet_id: Seq<char>,
    stake_id: Seq<char>,
    end: Timestamp,
) -> Option<Error> {
    if ctx.attached_deposit < MIN_STAKE {
        Some(Error::MinStake)
    } else if !valid_text_id(bet_id) {
        Some(Error::InvalidBetId)
    } else if !valid_text_id(stake_id) {
        Some(Error::InvalidStakeId)
    } else if has_key(state.stakes, stake_id) {
        Some(Error::StakeExists)
    } else if end <= ctx.block_timestamp + state.settings.min_duration {
        Some(Error::InvalidEnd)
    } else if storage_cost(ctx.storage_byte_cost, state.extra_storage_in_bytes_per_stake)
        > ctx.attached_deposit {
        Some(Error::InsufficientDeposit)
    } else if !has_key(state.bets, bet_id) && storage_cost(
        ctx.storage_byte_cost,
        state.extra_storage_in_bytes_per_bet,
    ) > ctx.attached_deposit {
        Some(Error::InsufficientDeposit)
    } else {
        None
    }
}

/// The amount of an accepted stake: the deposit less the cost of storing the
/// stake, or of storing the bet when the stake is the first on it.
pub open spec fn stake_amount(state: ContractView, ctx: Context, bet_id: Seq<char>) -> int {
    if has_key(state.bets, bet_id) {
        ctx.attached_deposit - storage_cost(
            ctx.storage_byte_cost,
            state.extra_storage_in_bytes_per_stake,
        )
    } else {
        ctx.attached_deposit - storage_cost(
            ctx.storage_byte_cost,
            state.extra_storage_in_bytes_per_bet,
        )
    }
}

/// The bets once a stake on `bet_id` has been accepted: a bet is recorded
/// with the first stake on it and stays as it is after that.
pub open spec fn bets_with(
    bets: Seq<(Seq<char>, BetView)>,
    bet_id: Seq<char>,
    prediction: Prediction,
    person: Seq<char>,
    end: Timestamp,
) -> Seq<(Seq<char>, BetView)> {
    if has_key(bets, bet_id) {
        bets
    } else {
        bets.push((bet_id, BetView { prediction, person, end, motion_id: None }))
    }
}

/// The subjects once `person` has been named: each is recorded once.
pub open spec fn persons_with(persons: Seq<Seq<char>>, person: Seq<char>) -> Seq<Seq<char>> {
    if persons.contains(person) {
        persons
    } else {
        persons.push(person)
    }
}

/// The accounts once `staker` has a fresh earnings record for `stake_id`.
pub open spec fn accounts_with(
    accounts: Seq<(Seq<char>, AccountView)>,
    staker: Seq<char>,
    stake_id: Seq<char>,
    earning: StakeEarning,
) -> Seq<(Seq<char>, AccountView)> {
    if has_key(accounts, staker) {
        let a = index_of(accounts, staker);
        accounts.update(
            a,
            (staker, AccountView { earnings: upserted(accounts[a].1.earnings, stake_id, earning) }),
        )
    } else {
        accounts.push((staker, AccountView { earnings: seq![(stake_id, earning)] }))
    }
}

/// A confirmed deposit is still turned down when the stake's identifier is
/// taken or the stake does not come in fully unmatched.
pub open spec fn deposit_refused(
    state: ContractView,
    stake_id: Seq<char>,
    stake: StakeView,
    outcome: PromiseOutcome,
) -> bool {
    ||| outcome == PromiseOutcome::Failed
    ||| has_key(state.stakes, stake_id)
    ||| stake.unmatched != stake.amount
}

/// Adding a stake that is fully unmatched keeps the table sound and
/// balanced, and leaves only the new stake to be matched.
pub proof fn lemma_push_stake(rows: StakeRows, key: Seq<char>, stake: StakeView)
    requires
        stakes_sound(rows),
        balanced(rows),
        settled(rows),
        stake.unmatched == stake.amount,
    ensures
        stakes_sound(rows.push((key, stake))),
        balanced(rows.push((key, stake))),
        settled_but(rows.push((key, stake)), rows.len() as int),
{
    let after = rows.push((key, stake));
    assert forall|i: int| 0 <= i < after.len() implies {
        &&& (#[trigger] after[i]).1.unmatched <= after[i].1.amount
        &&& after[i].1.gentlemans ==> after[i].1.unmatched == after[i].1.amount
    } by {
        if i < rows.len() {
            assert(after[i] == rows[i]);
        }
    }
    assert forall|bet: Seq<char>| #[trigger]
        matched_sum(after, bet, Position::Back) == matched_sum(after, bet, Position::Lay) by {
        lemma_push_matched(rows, key, stake, bet, Position::Back);
        lemma_push_matched(rows, key, stake, bet, Position::Lay);
        assert(matched_sum(rows, bet, Position::Back) == matched_sum(rows, bet, Position::Lay));
    }
    assert forall|q: int, p: int|
        0 <= q < after.len() && 0 <= p < after.len() && q != rows.len() && p != rows.len() && (
        #[trigger] after[q]).1.bet_id == (#[trigger] after[p]).1.bet_id && after[q].1.position
            != after[p].1.position && !after[q].1.gentlemans && !after[p].1.gentlemans
        implies after[q].1.unmatched == 0 || after[p].1.unmatched == 0 by {
        assert(after[q] == rows[q]);
        assert(after[p] == rows[p]);
    }
}

/// A stake that comes in fully unmatched adds nothing to what is matched.
pub proof fn lemma_push_matched(
    rows: StakeRows,
    key: Seq<char>,
    stake: StakeView,
    bet: Seq<char>,
    side: Position,
)
    requires
        stake.unmatched == stake.amount,
    ensures
        matched_sum(rows.push((key, stake)), bet, side) == matched_sum(rows, bet, side),
{
    let after = rows.push((key, stake));
    let f = matched_term(after, bet, side);
    let g = matched_term(rows, bet, side);
    assert(f(rows.len() as int) == 0);
    assert forall|i: int| 0 <= i < rows.len() implies #[trigger] f(i) == g(i) by {
        assert(after[i] == rows[i]);
    }
    lemma_sum_ext(f, g, rows.len() as int);
}

/// Over the life of a stake its matched part, `amount - unmatched`, never
/// shrinks: the confirmation of another stake leaves every stake that was
/// there as it was, but for an unmatched amount that is at most what it was.
pub proof fn lemma_confirmation_only_lowers(
    rows: StakeRows,
    key: Seq<char>,
    stake: StakeView,
    i: int,
)
    requires
        0 <= i < rows.len(),
    ensures
        ({
            let after = matched_rows(rows.push((key, stake)), key);
            &&& after.len() == rows.len() + 1
            &&& after[i] == with_unmatched(rows[i], after[i].1.unmatched)
            &&& after[i].1.unmatched <= rows[i].1.unmatched
            &&& after[i].1.amount - after[i].1.unmatched >= rows[i].1.amount - rows[i].1.unmatched
        }),
{
    let pushed = rows.push((key, stake));
    lemma_matching_only_lowers(pushed, key);
    assert(pushed[i] == rows[i]);
    let after = matched_rows(pushed, key);
    assert(after[i] == with_unmatched(pushed[i], after[i].1.unmatched));
}

impl Contract {
    /// Checks a request to stake and prepares its deposit.
    ///
    /// The checks are made in the order of [`new_stake_refusal`], and the
    /// first that fails names the error; a refused request changes nothing.
    /// An accepted one records the bet, if this is the first stake on it,
    /// and the bet's subject, and returns the stake with the amount to
    /// deposit. The stake itself is recorded only when the deposit is
    /// confirmed.
    pub fn new_stake(
        &mut self,
        ctx: &Context,
        bet_id: BetId,
        stake_id: String,
        prediction: Prediction,
        position: Position,
        person: String,
        end: Timestamp,
        gentlemans: Option<bool>,
    ) -> (result: Result<StakeRequest, Error>)
        requires
            old(self).wf(),
        ensures
            final(self).wf(),
            match new_stake_refusal(old(self)@, *ctx, bet_id@, stake_id@, end) {
                Some(error) => result == Err::<StakeRequest, Error>(error) && final(self)@ == old(
                    self,
                )@,
                None => {
                    &&& result matches Ok(request)
                    &&& request.pool@ == pool_of(old(self)@)
                    &&& request.amount == stake_amount(old(self)@, *ctx, bet_id@)
                    &&& request.stake_id@ == stake_id@
                    &&& request.stake@ == (StakeView {
                        bet_id: bet_id@,
                        position,
                        amount: request.amount,
                        staker: ctx.predecessor_account_id@,
                        unmatched: request.amount,
                        gentlemans: match gentlemans {
                            Some(flag) => flag,
                            None => false,
                        },
                        epoch: ctx.epoch_height,
                    })
                    &&& final(self)@ == (ContractView {
                        bets: bets_with(old(self)@.bets, bet_id@, prediction, person@, end),
                        persons: persons_with(old(self)@.persons, person@),
                        ..old(self)@
                    })
                },
            },
    {
        if ctx.attached_deposit < MIN_STAKE {
            return Err(Error::MinStake);
        }
        if !is_valid_id(bet_id.as_str().as_bytes()) {
            return Err(Error::InvalidBetId);
        }
        if !is_valid_id(stake_id.as_str().as_bytes()) {
            return Err(Error::InvalidStakeId);
        }
        if self.stakes.contains_key(&stake_id) {
            return Err(Error::StakeExists);
        }
        match ctx.block_timestamp.checked_add(self.settings.min_duration) {
            Some(soonest_end) => {
                if end <= soonest_end {
                    return Err(Error::InvalidEnd);
                }
            },
            None => {
                return Err(Error::InvalidEnd);
            },
        }
        let mut amount = match deduct_storage_cost(
            self.extra_storage_in_bytes_per_stake,
            ctx.storage_byte_cost,
            ctx.attached_deposit,
        ) {
            Some(amount) => amount,
            None => {
                return Err(Error::InsufficientDeposit);
            },
        };
        let known = self.bets.contains_key(&bet_id);
        if !known {
            amount = match deduct_storage_cost(
                self.extra_storage_in_bytes_per_bet,
                ctx.storage_byte_cost,
                ctx.attached_deposit,
            ) {
                Some(amount) => amount,
                None => {
                    return Err(Error::InsufficientDeposit);
                },
            };
        }
        let pool = match &self.metadata.pool {
            Some(pool) => pool.clone(),
            None => self.settings.default_stake_pool.clone(),
        };
        if !known {
            let bet = Bet { prediction, person: person.clone(), end, motion_id: None };
            proof {
                lemma_push_row(old(self)@.bets, bet_id@, bet@);
            }
            self.bets.push(bet_id.clone(), bet);
        }
        if !contains_string(&self.persons, &person) {
            proof {
                let before = texts(self.persons@);
                let after = before.push(person@);
                assert forall|i: int, j: int|
                    0 <= i < after.len() && 0 <= j < after.len() && i != j implies after[i]
                    != after[j] by {
                    if i < before.len() {
                        assert(before.contains(before[i]));
                    }
                    if j < before.len() {
                        assert(before.contains(before[j]));
                    }
                }
            }
            self.persons.push(person);
            assert(texts(self.persons@) =~= texts(old(self).persons@).push(person@));
        }
        let stake = Stake {
            bet_id,
            position,
            amount,
            staker: ctx.predecessor_account_id.clone(),
            unmatched: amount,
            gentlemans: match gentlemans {
                Some(flag) => flag,
                None => false,
            },
            epoch: ctx.epoch_height,
        };
        Ok(StakeRequest { pool, amount, stake_id, stake })
    }

    /// Takes the staking pool's answer to a deposit.
    ///
    /// A confirmed deposit records the stake, opens an earnings record for it
    /// under the staker's account, and matches the stake; the answer is
    /// `"ok"`. A failed deposit changes nothing, and the answer is `"oops!"`;
    /// so does a stake that [`deposit_refused`] turns down.
    pub fn deposit_and_stake_callback(
        &mut self,
        ctx: &Context,
        stake_id: String,
        stake: Stake,
        outcome: PromiseOutcome,
    ) -> (answer: String)
        requires
            old(self).wf(),
            !deposit_refused(old(self)@, stake_id@, stake@, outcome) ==> ctx.epoch_height + old(
                self,
            ).settings.epoch_offset <= u64::MAX,
        ensures
            final(self).wf(),
            if deposit_refused(old(self)@, stake_id@, stake@, outcome) {
                &&& answer@ == "oops!"@
                &&& final(self)@ == old(self)@
            } else {
                &&& answer@ == "ok"@
                &&& final(self)@ == (ContractView {
                    stakes: matched_rows(
                        old(self)@.stakes.push((stake_id@, stake@)),
                        stake_id@,
                    ),
                    accounts: accounts_with(
                        old(self)@.accounts,
                        stake.staker@,
                        stake_id@,
                        StakeEarning {
                            epochs: (
                                (ctx.epoch_height + old(self).settings.epoch_offset) as u64,
                                (ctx.epoch_height + old(self).settings.epoch_offset) as u64,
                            ),
                            yield_balance: 0,
                        },
                    ),
                    ..old(self)@
                })
            },
    {
        match outcome {
            PromiseOutcome::Failed => {
                return "oops!".to_owned();
            },
            PromiseOutcome::Successful => {},
        }
        if self.stakes.contains_key(&stake_id) || stake.unmatched != stake.amount {
            return "oops!".to_owned();
        }
        let epoch = ctx.epoch_height + self.settings.epoch_offset;
        let earning = StakeEarning { epochs: (epoch, epoch), yield_balance: 0 };
        match self.accounts.position(&stake.staker) {
            Some(a) => {
                proof {
                    lemma_index_of(old(self)@.accounts, stake.staker@);
                    lemma_upserted(old(self)@.accounts[a as int].1.earnings, stake_id@, earning);
                }
                self.accounts.entries[a].1.earnings.upsert(stake_id.clone(), earning);
                proof {
                    assert(self.accounts@ =~= accounts_with(
                        old(self)@.accounts,
                        stake.staker@,
                        stake_id@,
                        earning,
                    ));
                    assert forall|i: int| 0 <= i < self.accounts@.len() implies (
                    #[trigger] self.accounts@[i]).0 == old(self)@.accounts[i].0 by {}
                    lemma_same_keys(self.accounts@, old(self)@.accounts, stake.staker@);
                }
            },
            None => {
                let mut earnings: Table<StakeEarning> = Table::new();
                earnings.push(stake_id.clone(), earning);
                proof {
                    lemma_push_row(old(self)@.accounts, stake.staker@, (Account { earnings })@);
                    assert(earnings@ =~= seq![(stake_id@, earning)]);
                }
                self.accounts.push(stake.staker.clone(), Account { earnings });
            },
        }
        proof {
            lemma_push_row(old(self)@.stakes, stake_id@, stake@);
            lemma_push_stake(old(self)@.stakes, stake_id@, stake@);
        }
        self.stakes.push(stake_id.clone(), stake);
        let _ = self.match_stake(&stake_id);
        "ok".to_owned()
    }

    /// Matches the stake under `stake_id` against the stakes that oppose it
    /// on its bet: the one with the least unmatched first, until the stake
    /// or the opposition is used up; see [`matched_rows`] and
    /// [`lemma_allocation`](crate::bet::matching::lemma_allocation).
    ///
    /// This is the step that follows the recording of a confirmed stake, so
    /// the stake may face open opposition. When every other stake has been
    /// matched before, as [`awaiting_match`] says, matching is up to date
    /// for all stakes afterwards. When there is no such stake, nothing
    /// changes.
    pub fn match_stake(&mut self, stake_id: &String) -> (result: Result<(), Error>)
        requires
            keys_unique(old(self)@.stakes),
            stakes_sound(old(self)@.stakes),
        ensures
            final(self)@ == (ContractView {
                stakes: matched_rows(old(self)@.stakes, stake_id@),
                ..old(self)@
            }),
            awaiting_match(old(self)@, stake_id@) && has_key(old(self)@.stakes, stake_id@)
                ==> final(self).wf(),
            result is Ok <==> has_key(old(self)@.stakes, stake_id@),
            result is Err ==> result == Err::<(), Error>(Error::StakeMissing),
    {
        if !self.stakes.contains_key(stake_id) {
            return Err(Error::StakeMissing);
        }
        proof {
            if awaiting_match(old(self)@, stake_id@) {
                lemma_matching_settles(old(self)@.stakes, stake_id@);
            }
        }
        match_in(&mut self.stakes, stake_id);
        Ok(())
    }
}

} // verus!
