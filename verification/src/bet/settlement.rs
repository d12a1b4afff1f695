//! Handing bets that have ended to the voting service.
//!
//! [`Contract::check_bets`] picks, among the bets it is asked about, those
//! that have ended and have no motion yet, and prepares one motion for each:
//! the stakers of the bet are its voting pool, and more than half of them are
//! its quorum. When the voting service has opened the motions,
//! [`Contract::voting_callback`] finds each motion's bet by the bet's
//! identifier in the motion's description and records the motion with the
//! bet.

use vstd::prelude::*;
use crate::context::{AccountId, Balance, Context, Timestamp};
use crate::seqs::{pick, texts, contains_string};
use crate::table::{has_key, index_of, keys_unique, lemma_index_of, lemma_same_keys};
use crate::text::{contains_text, is_substring};
use crate::bet::{BetId, BetView, Contract, ContractView, Error, Motion, MotionId, StakeRows};
use crate::voting::motion::{MotionParams, MotionParamsView, params_view};

verus! {

/// The batch of motions to ask the voting service for, and the bets that
/// they are for, in the same order.
#[derive(Debug, PartialEq, Eq)]
pub struct SettlementRequest {
    pub voting_contract: AccountId,
    pub deposit: Balance,
    pub params: Vec<MotionParams>,
    pub bet_ids: Vec<BetId>,
}

/// Row `i` of the bets is due for settlement: it is among the bets asked
/// about, its end has passed, and it has no motion yet.
pub open spec fn due(
    bets: Seq<(Seq<char>, BetView)>,
    bet_ids: Seq<Seq<char>>,
    now: Timestamp,
    i: int,
) -> bool {
    &&& bet_ids.contains(bets[i].0)
    &&& bets[i].1.end < now
    &&& bets[i].1.motion_id is None
}

/// The identifiers of the bets that are due, in the order of the bet table.
pub open spec fn due_bets(
    bets: Seq<(Seq<char>, BetView)>,
    bet_ids: Seq<Seq<char>>,
    now: Timestamp,
) -> Seq<Seq<char>> {
    pick(bets.len() as int, |i: int| due(bets, bet_ids, now, i), |i: int| bets[i].0)
}

/// The voting pool of a bet: the staker of every stake on it, in the order
/// of the stake table. A staker with several stakes occurs several times.
pub open spec fn voting_pool(stakes: StakeRows, bet_id: Seq<char>) -> Seq<Seq<char>> {
    pick(
        stakes.len() as int,
        |i: int| stakes[i].1.bet_id == bet_id,
        |i: int| stakes[i].1.staker,
    )
}

/// The quorum of a pool: more than half of it. (A pool too large for the
/// quorum's type gets the largest quorum there is.)
pub open spec fn quorum_for(pool_size: nat) -> u32 {
    if pool_size / 2 + 1 > u32::MAX {
        u32::MAX
    } else {
        (pool_size / 2 + 1) as u32
    }
}

/// The motion to open for a bet.
pub open spec fn motion_for(stakes: StakeRows, bet_id: Seq<char>) -> MotionParamsView {
    MotionParamsView {
        category: Some("bet"@),
        description: bet_id,
        value: None,
        quorum: Some(quorum_for(voting_pool(stakes, bet_id).len())),
        pool: Some(voting_pool(stakes, bet_id)),
    }
}

/// Some bet of the batch has no stake, and so nobody to vote on it.
pub open spec fn some_pool_empty(stakes: StakeRows, bet_ids: Seq<Seq<char>>) -> bool {
    exists|k: int| 0 <= k < bet_ids.len() && voting_pool(stakes, #[trigger] bet_ids[k]).len() == 0
}

/// Why a settlement request is refused, if it is. Any caller but the
/// exchange itself has to attach exactly one unit.
pub open spec fn settlement_refusal(
    state: ContractView,
    ctx: Context,
    bet_ids: Seq<Seq<char>>,
) -> Option<Error> {
    if ctx.predecessor_account_id@ != ctx.current_account_id@ && ctx.attached_deposit != 1 {
        Some(Error::OneYocto)
    } else if some_pool_empty(state.stakes, due_bets(state.bets, bet_ids, ctx.now())) {
        Some(Error::NoMatchingBets)
    } else {
        None
    }
}

/// The bet identifiers asked about; none when the caller names none.
pub open spec fn asked(bet_ids: Option<Vec<BetId>>) -> Seq<Seq<char>> {
    match bet_ids {
        Some(ids) => texts(ids@),
        None => Seq::empty(),
    }
}

/// The first position from `from` on at which `bet_ids` holds an identifier
/// that occurs in `description`, or `bet_ids.len()` when none does.
pub open spec fn first_mention(bet_ids: Seq<Seq<char>>, description: Seq<char>, from: int) -> int
    decreases bet_ids.len() - from,
{
    if from < 0 || from >= bet_ids.len() {
        bet_ids.len() as int
    } else if is_substring(bet_ids[from], description) {
        from
    } else {
        first_mention(bet_ids, description, from + 1)
    }
}

/// A motion with this description belongs to one of the bets.
pub open spec fn mentions(bet_ids: Seq<Seq<char>>, description: Seq<char>) -> bool {
    first_mention(bet_ids, description, 0) < bet_ids.len()
}

/// The bet that a motion with this description belongs to: the first bet
/// whose identifier occurs in the description.
pub open spec fn mentioned(bet_ids: Seq<Seq<char>>, description: Seq<char>) -> Seq<char> {
    bet_ids[first_mention(bet_ids, description, 0)]
}

/// The pairs of motion and bet among the first `n` motions, in the order of
/// the motions. A motion that belongs to no bet is left out.
pub open spec fn links(bet_ids: Seq<Seq<char>>, motions: Seq<Motion>, n: int) -> Seq<
    (Seq<char>, Seq<char>),
> {
    pick(
        n,
        |k: int| mentions(bet_ids, motions[k].description@),
        |k: int| (motions[k].motion_id@, mentioned(bet_ids, motions[k].description@)),
    )
}

/// The bets once the first `n` links have been recorded, one after the
/// other: each sets the motion of its bet.
pub open spec fn linked_bets(
    bets: Seq<(Seq<char>, BetView)>,
    pairs: Seq<(Seq<char>, Seq<char>)>,
    n: int,
) -> Seq<(Seq<char>, BetView)>
    decreases n,
{
    if n <= 0 {
        bets
    } else {
        let before = linked_bets(bets, pairs, n - 1);
        let (motion_id, bet_id) = pairs[n - 1];
        if has_key(before, bet_id) {
            let i = index_of(before, bet_id);
            before.update(i, (bet_id, BetView { motion_id: Some(motion_id), ..before[i].1 }))
        } else {
            before
        }
    }
}

/// Some link names a bet that is not recorded.
pub open spec fn some_bet_missing(
    bets: Seq<(Seq<char>, BetView)>,
    pairs: Seq<(Seq<char>, Seq<char>)>,
) -> bool {
    exists|k: int| 0 <= k < pairs.len() && !has_key(bets, (#[trigger] pairs[k]).1)
}

/// The models of pairs of identifiers.
pub open spec fn pairs_view(pairs: Seq<(MotionId, BetId)>) -> Seq<(Seq<char>, Seq<char>)> {
    Seq::new(pairs.len(), |i: int| (pairs[i].0@, pairs[i].1@))
}

/// Recording links changes no key of the bet table.
pub proof fn lemma_linked_keys(
    bets: Seq<(Seq<char>, BetView)>,
    pairs: Seq<(Seq<char>, Seq<char>)>,
    n: int,
)
    ensures
        linked_bets(bets, pairs, n).len() == bets.len(),
        forall|i: int|
            0 <= i < bets.len() ==> (#[trigger] linked_bets(bets, pairs, n)[i]).0 == bets[i].0,
    decreases n,
{
    if n > 0 {
        lemma_linked_keys(bets, pairs, n - 1);
        let before = linked_bets(bets, pairs, n - 1);
        lemma_index_of(before, pairs[n - 1].1);
    }
}

/// The stakers on a bet.
fn pool_for(stakes: &crate::table::Table<crate::bet::Stake>, bet_id: &BetId) -> (pool: Vec<
    AccountId,
>)
    ensures
        texts(pool@) == voting_pool(stakes@, bet_id@),
{
    let mut pool: Vec<AccountId> = Vec::new();
    let mut i: usize = 0;
    assert(texts(pool@) =~= Seq::<Seq<char>>::empty());
    while i < stakes.entries.len()
        invariant
            i <= stakes.entries@.len(),
            texts(pool@) == pick(
                i as int,
                |i: int| stakes@[i].1.bet_id == bet_id@,
                |i: int| stakes@[i].1.staker,
            ),
        decreases stakes.entries.len() - i,
    {
        if stakes.entries[i].1.bet_id == *bet_id {
            let ghost before = texts(pool@);
            pool.push(stakes.entries[i].1.staker.clone());
            assert(texts(pool@) =~= before.push(stakes@[i as int].1.staker));
        }
        i += 1;
    }
    pool
}

/// The quorum of a pool of `pool_size` voters.
fn quorum_of(pool_size: usize) -> (quorum: u32)
    ensures
        quorum == quorum_for(pool_size as nat),
{
    let half = pool_size / 2;
    if half >= u32::MAX as usize {
        u32::MAX
    } else {
        (half + 1) as u32
    }
}

/// The bet that a motion with this description belongs to, if any.
fn find_mention(bet_ids: &Vec<BetId>, description: &String) -> (found: Option<usize>)
    ensures
        match found {
            Some(i) => i < bet_ids@.len() && mentions(texts(bet_ids@), description@) && i
                == first_mention(texts(bet_ids@), description@, 0),
            None => !mentions(texts(bet_ids@), description@),
        },
{
    let mut i: usize = 0;
    while i < bet_ids.len()
        invariant
            i <= bet_ids@.len(),
            first_mention(texts(bet_ids@), description@, 0) == first_mention(
                texts(bet_ids@),
                description@,
                i as int,
            ),
        decreases bet_ids.len() - i,
    {
        if contains_text(description, &bet_ids[i]) {
            return Some(i);
        }
        i += 1;
    }
    None
}

impl Contract {
    /// Prepares the motions for the bets under `bet_ids`, one for each in
    /// the order given. The request fails as a whole when one of the bets
    /// has no stake.
    pub fn start_bet_settlement(&self, bet_ids: Vec<BetId>) -> (result: Result<
        SettlementRequest,
        Error,
    >)
        requires
            self.wf(),
        ensures
            if some_pool_empty(self@.stakes, texts(bet_ids@)) {
                result == Err::<SettlementRequest, Error>(Error::NoMatchingBets)
            } else {
                &&& result matches Ok(request)
                &&& request.voting_contract@ == self@.settings.voting_contract
                &&& request.deposit == 1
                &&& texts(request.bet_ids@) == texts(bet_ids@)
                &&& params_view(request.params@) == Seq::new(
                    bet_ids@.len(),
                    |k: int| motion_for(self@.stakes, texts(bet_ids@)[k]),
                )
            },
    {
        let mut params: Vec<MotionParams> = Vec::new();
        let mut k: usize = 0;
        while k < bet_ids.len()
            invariant
                k <= bet_ids@.len(),
                params@.len() == k,
                forall|j: int|
                    0 <= j < k ==> (#[trigger] params@[j])@ == motion_for(
                        self@.stakes,
                        texts(bet_ids@)[j],
                    ),
                forall|j: int|
                    0 <= j < k ==> voting_pool(self@.stakes, #[trigger] texts(bet_ids@)[j]).len()
                        != 0,
            decreases bet_ids.len() - k,
        {
            let stakers = pool_for(&self.stakes, &bet_ids[k]);
            assert(texts(stakers@).len() == stakers@.len());
            if stakers.len() == 0 {
                assert(voting_pool(self@.stakes, texts(bet_ids@)[k as int]).len() == 0);
                return Err(Error::NoMatchingBets);
            }
            let quorum = quorum_of(stakers.len());
            params.push(
                MotionParams {
                    category: Some("bet".to_owned()),
                    description: bet_ids[k].clone(),
                    value: None,
                    quorum: Some(quorum),
                    pool: Some(stakers),
                },
            );
            k += 1;
        }
        assert(params_view(params@) =~= Seq::new(
            bet_ids@.len(),
            |k: int| motion_for(self@.stakes, texts(bet_ids@)[k]),
        ));
        Ok(
            SettlementRequest {
                voting_contract: self.settings.voting_contract.clone(),
                deposit: 1,
                params,
                bet_ids,
            },
        )
    }

    /// Picks the bets to settle among those asked about and prepares their
    /// motions. Nothing is recorded: the bets get their motions when the
    /// voting service has answered.
    pub fn check_bets(&self, ctx: &Context, bet_ids: Option<Vec<BetId>>) -> (result: Result<
        SettlementRequest,
        Error,
    >)
        requires
            self.wf(),
            ctx.wf(),
        ensures
            match settlement_refusal(self@, *ctx, asked(bet_ids)) {
                Some(error) => result == Err::<SettlementRequest, Error>(error),
                None => {
                    let due = due_bets(self@.bets, asked(bet_ids), ctx.now());
                    &&& result matches Ok(request)
                    &&& request.voting_contract@ == self@.settings.voting_contract
                    &&& request.deposit == 1
                    &&& texts(request.bet_ids@) == due
                    &&& params_view(request.params@) == Seq::new(
                        due.len(),
                        |k: int| motion_for(self@.stakes, due[k]),
                    )
                },
            },
    {
        if ctx.predecessor_account_id != ctx.current_account_id && ctx.attached_deposit != 1 {
            return Err(Error::OneYocto);
        }
        let now = ctx.timestamp();
        let wanted: Vec<BetId> = match bet_ids {
            Some(ids) => ids,
            None => Vec::new(),
        };
        assert(texts(wanted@) =~= asked(bet_ids));
        let mut filtered_bet_ids: Vec<BetId> = Vec::new();
        let mut i: usize = 0;
        assert(texts(filtered_bet_ids@) =~= Seq::<Seq<char>>::empty());
        while i < self.bets.entries.len()
            invariant
                i <= self.bets.entries@.len(),
                texts(filtered_bet_ids@) == pick(
                    i as int,
                    |i: int| due(self@.bets, texts(wanted@), now, i),
                    |i: int| self@.bets[i].0,
                ),
            decreases self.bets.entries.len() - i,
        {
            let bet = &self.bets.entries[i].1;
            if contains_string(&wanted, &self.bets.entries[i].0) && bet.end < now
                && bet.motion_id.is_none() {
                let ghost before = texts(filtered_bet_ids@);
                filtered_bet_ids.push(self.bets.entries[i].0.clone());
                assert(texts(filtered_bet_ids@) =~= before.push(self@.bets[i as int].0));
            }
            i += 1;
        }
        self.start_bet_settlement(filtered_bet_ids)
    }

    /// Takes the voting service's answer to a batch of motions.
    ///
    /// Without an answer nothing changes and nothing is returned. With one,
    /// every motion whose description holds the identifier of one of the
    /// bets is recorded as the motion of the first such bet, in the order
    /// of the motions, and the pairs of motion and bet are returned. When
    /// one of those bets is not recorded, the call fails and changes nothing.
    pub fn voting_callback(&mut self, bet_ids: &Vec<BetId>, outcome: Option<Vec<Motion>>) -> (result:
        Result<Option<Vec<(MotionId, BetId)>>, Error>)
        requires
            old(self).wf(),
        ensures
            final(self).wf(),
            match outcome {
                None => result == Ok::<Option<Vec<(MotionId, BetId)>>, Error>(None) && final(self)@
                    == old(self)@,
                Some(motions) => {
                    let found = links(texts(bet_ids@), motions@, motions@.len() as int);
                    if some_bet_missing(old(self)@.bets, found) {
                        &&& result == Err::<Option<Vec<(MotionId, BetId)>>, Error>(
                            Error::BetMissing,
                        )
                        &&& final(self)@ == old(self)@
                    } else {
                        &&& result matches Ok(Some(pairs))
                        &&& pairs_view(pairs@) == found
                        &&& final(self)@ == (ContractView {
                            bets: linked_bets(old(self)@.bets, found, found.len() as int),
                            ..old(self)@
                        })
                    }
                },
            },
    {
        let motions = match outcome {
            Some(motions) => motions,
            None => {
                return Ok(None);
            },
        };
        let ghost ids = texts(bet_ids@);
        let mut pairs: Vec<(MotionId, BetId)> = Vec::new();
        let mut k: usize = 0;
        assert(pairs_view(pairs@) =~= links(ids, motions@, 0));
        while k < motions.len()
            invariant
                k <= motions@.len(),
                ids == texts(bet_ids@),
                *self == *old(self),
                old(self).wf(),
                outcome == Some(motions),
                pairs_view(pairs@) == links(ids, motions@, k as int),
                forall|j: int|
                    0 <= j < pairs@.len() ==> has_key(
                        self@.bets,
                        (#[trigger] pairs_view(pairs@)[j]).1,
                    ),
            decreases motions.len() - k,
        {
            match find_mention(bet_ids, &motions[k].description) {
                Some(b) => {
                    let ghost before = pairs_view(pairs@);
                    let ghost pair = (motions@[k as int].motion_id@, ids[b as int]);
                    if !self.bets.contains_key(&bet_ids[b]) {
                        proof {
                            let found = links(ids, motions@, motions@.len() as int);
                            lemma_links_prefix(ids, motions@, k as int + 1, motions@.len() as int);
                            assert(links(ids, motions@, k as int + 1) =~= before.push(pair));
                            assert(found[before.len() as int] == pair);
                            assert(!has_key(old(self)@.bets, found[before.len() as int].1));
                        }
                        return Err(Error::BetMissing);
                    }
                    pairs.push((motions[k].motion_id.clone(), bet_ids[b].clone()));
                    assert(pairs_view(pairs@) =~= before.push(pair));
                },
                None => {},
            }
            k += 1;
        }
        let ghost found = pairs_view(pairs@);
        proof {
            assert forall|j: int| 0 <= j < found.len() implies has_key(
                old(self)@.bets,
                (#[trigger] found[j]).1,
            ) by {}
        }
        let mut j: usize = 0;
        while j < pairs.len()
            invariant
                j <= pairs@.len(),
                found == pairs_view(pairs@),
                old(self).wf(),
                self.bets@ == linked_bets(old(self)@.bets, found, j as int),
                keys_unique(old(self)@.bets),
                forall|i: int| 0 <= i < found.len() ==> has_key(
                    old(self)@.bets,
                    (#[trigger] found[i]).1,
                ),
                *self == (Contract { bets: self.bets, ..*old(self) }),
            decreases pairs.len() - j,
        {
            proof {
                lemma_linked_keys(old(self)@.bets, found, j as int);
                lemma_same_keys(self.bets@, old(self)@.bets, found[j as int].1);
                lemma_index_of(self.bets@, found[j as int].1);
            }
            let ghost before = self.bets@;
            match self.bets.position(&pairs[j].1) {
                Some(i) => {
                    self.bets.entries[i].1.motion_id = Some(pairs[j].0.clone());
                    assert(self.bets@ =~= before.update(
                        i as int,
                        (
                            found[j as int].1,
                            BetView { motion_id: Some(found[j as int].0), ..before[i as int].1 },
                        ),
                    ));
                },
                None => {},
            }
            j += 1;
        }
        proof {
            lemma_linked_keys(old(self)@.bets, found, found.len() as int);
            lemma_same_keys(self.bets@, old(self)@.bets, Seq::empty());
        }
        Ok(Some(pairs))
    }
}

/// The links among the first `n` motions are the beginning of the links
/// among the first `m`, for `n <= m`.
proof fn lemma_links_prefix(bet_ids: Seq<Seq<char>>, motions: Seq<Motion>, n: int, m: int)
    requires
        0 <= n <= m,
    ensures
        links(bet_ids, motions, n).len() <= links(bet_ids, motions, m).len(),
        forall|i: int|
            0 <= i < links(bet_ids, motions, n).len() ==> #[trigger] links(bet_ids, motions, m)[i]
                == links(bet_ids, motions, n)[i],
    decreases m - n,
{
    if n < m {
        lemma_links_prefix(bet_ids, motions, n, m - 1);
    }
}

} // verus!
