//! Listing what the exchange holds, page by page.
//!
//! A page skips `from_index` items and holds at most `limit`, fifty when no
//! limit is given.

use vstd::prelude::*;
use crate::context::{AccountId, Context, Timestamp};
use crate::seqs::{opt_text, page, page_of, pick, positions, lemma_positions, texts, opt_texts, contains_string, skip_of, limit_of, DEFAULT_LIMIT};
use crate::table::{has_key, index_of, value_of};
use crate::bet::{BetId, BetView, Contract, Error, Person, StakeEarning, StakeId, StakeRows, StakeView, WrappedBet, WrappedBetView, WrappedStake, WrappedStakeEarning, WrappedStakeView};
use crate::bet::earnings::{earning_outcome, effective_epoch};

verus! {

/// A stake as it is listed.
pub open spec fn wrapped_stake(row: (Seq<char>, StakeView)) -> WrappedStakeView {
    WrappedStakeView {
        stake_id: row.0,
        bet_id: row.1.bet_id,
        position: row.1.position,
        amount: row.1.amount,
        staker: row.1.staker,
        unmatched: row.1.unmatched,
        gentlemans: row.1.gentlemans,
    }
}

/// A bet as it is listed.
pub open spec fn wrapped_bet(row: (Seq<char>, BetView)) -> WrappedBetView {
    WrappedBetView { bet_id: row.0, prediction: row.1.prediction, person: row.1.person, end: row.1.end }
}

/// The stakes at the positions `listed`, as they are listed.
pub open spec fn wrapped_stakes(rows: StakeRows, listed: Seq<usize>) -> Seq<WrappedStakeView> {
    Seq::new(listed.len(), |k: int| wrapped_stake(rows[listed[k] as int]))
}

/// The bets at the positions `listed`, as they are listed.
pub open spec fn wrapped_bets(rows: Seq<(Seq<char>, BetView)>, listed: Seq<usize>) -> Seq<
    WrappedBetView,
> {
    Seq::new(listed.len(), |k: int| wrapped_bet(rows[listed[k] as int]))
}

/// The models of a list of listed stakes.
pub open spec fn stakes_view(stakes: Seq<WrappedStake>) -> Seq<WrappedStakeView> {
    Seq::new(stakes.len(), |k: int| stakes[k]@)
}

/// The models of a list of listed bets.
pub open spec fn bets_view(bets: Seq<WrappedBet>) -> Seq<WrappedBetView> {
    Seq::new(bets.len(), |k: int| bets[k]@)
}

/// The positions of the stakes on one of the bets `bet_ids`.
pub open spec fn stakes_on(rows: StakeRows, bet_ids: Seq<Seq<char>>) -> Seq<usize> {
    positions(rows.len() as int, |i: int| bet_ids.contains(rows[i].1.bet_id))
}

/// The positions of the stakes of `staker`.
pub open spec fn stakes_of(rows: StakeRows, staker: Seq<char>) -> Seq<usize> {
    positions(rows.len() as int, |i: int| rows[i].1.staker == staker)
}

/// The positions of all rows.
pub open spec fn all_positions(len: nat) -> Seq<usize> {
    positions(len as int, |i: int| true)
}

/// The positions of the bets on `person`, or of all bets when no person is
/// named.
pub open spec fn bets_on(rows: Seq<(Seq<char>, BetView)>, person: Option<Seq<char>>) -> Seq<usize> {
    positions(
        rows.len() as int,
        |i: int|
            match person {
                Some(subject) => rows[i].1.person == subject,
                None => true,
            },
    )
}

/// Of the positions `listed`, those of the bets named in `bet_ids`.
pub open spec fn bets_named(
    rows: Seq<(Seq<char>, BetView)>,
    listed: Seq<usize>,
    bet_ids: Seq<Seq<char>>,
) -> Seq<usize> {
    pick(
        listed.len() as int,
        |k: int| bet_ids.contains(rows[listed[k] as int].0),
        |k: int| listed[k],
    )
}

/// A bet that ends at `end` passes the filter `ended` at the time `now`:
/// with `true` it has to have ended, with `false` it has to be open still.
pub open spec fn passes(ended: Option<bool>, end: Timestamp, now: Timestamp) -> bool {
    match ended {
        Some(true) => end < now,
        Some(false) => end > now,
        None => true,
    }
}

/// Of the positions `listed`, those of the bets that pass the filter
/// `ended`.
pub open spec fn bets_passing(
    rows: Seq<(Seq<char>, BetView)>,
    listed: Seq<usize>,
    ended: Option<bool>,
    now: Timestamp,
) -> Seq<usize> {
    pick(
        listed.len() as int,
        |k: int| passes(ended, rows[listed[k] as int].1.end, now),
        |k: int| listed[k],
    )
}

/// The positions of the bets that a listing shows: the bets on `person`;
/// of these the ones named in `bet_ids`, or else one page; and of these the
/// ones that pass the filter `ended`.
pub open spec fn bets_listed(
    rows: Seq<(Seq<char>, BetView)>,
    person: Option<Seq<char>>,
    bet_ids: Option<Seq<Seq<char>>>,
    ended: Option<bool>,
    now: Timestamp,
    from_index: Option<u128>,
    limit: Option<u64>,
) -> Seq<usize> {
    let about = bets_on(rows, person);
    let chosen = match bet_ids {
        Some(ids) => bets_named(rows, about, ids),
        None => page(about, skip_of(from_index), limit_of(limit)),
    };
    bets_passing(rows, chosen, ended, now)
}

/// The positions of the persons that are not in `exclude`.
pub open spec fn persons_but(persons: Seq<Seq<char>>, exclude: Seq<Seq<char>>) -> Seq<usize> {
    positions(persons.len() as int, |i: int| !exclude.contains(persons[i]))
}

/// The positions of the persons that a listing shows. With a list to
/// exclude, the listing starts at the first person and stops before the
/// person that would be the `limit`-th shown.
pub open spec fn persons_listed(
    persons: Seq<Seq<char>>,
    from_index: Option<u128>,
    limit: Option<u64>,
    exclude: Option<Seq<Seq<char>>>,
) -> Seq<usize> {
    match exclude {
        Some(excluded) => page(
            persons_but(persons, excluded),
            0,
            if limit_of(limit) > 0 {
                (limit_of(limit) - 1) as nat
            } else {
                0
            },
        ),
        None => page(all_positions(persons.len()), skip_of(from_index), limit_of(limit)),
    }
}

/// The identifiers among the first `n` of `ids`, each once, in the order in
/// which they first occur.
pub open spec fn first_seen(ids: Seq<Seq<char>>, n: int) -> Seq<Seq<char>>
    decreases n,
{
    if n <= 0 {
        Seq::empty()
    } else if first_seen(ids, n - 1).contains(ids[n - 1]) {
        first_seen(ids, n - 1)
    } else {
        first_seen(ids, n - 1).push(ids[n - 1])
    }
}

/// The earnings of a stake as they are listed.
pub open spec fn wrapped_earning(stake_id: Seq<char>, amount: u128, earning: StakeEarning) -> (
    Seq<char>,
    (u64, u64),
    u128,
    u128,
) {
    (stake_id, earning.epochs, earning.yield_balance, amount)
}

/// The model of a listed earning.
pub open spec fn earning_view(earning: WrappedStakeEarning) -> (Seq<char>, (u64, u64), u128, u128) {
    (earning.stake_id@, earning.epochs, earning.yield_balance, earning.total_balance)
}

/// All positions below `len`.
fn every_position(len: usize) -> (listed: Vec<usize>)
    ensures
        listed@ == all_positions(len as nat),
{
    let mut listed: Vec<usize> = Vec::new();
    let mut i: usize = 0;
    while i < len
        invariant
            i <= len,
            listed@ == positions(i as int, |i: int| true),
        decreases len - i,
    {
        listed.push(i);
        i += 1;
    }
    listed
}

impl Contract {
    /// The number of bets.
    pub fn bets_count(&self) -> (count: u64)
        ensures
            count == self@.bets.len(),
    {
        self.bets.len() as u64
    }

    /// The number of persons that bets are about.
    pub fn persons_count(&self) -> (count: u64)
        ensures
            count == self@.persons.len(),
    {
        assert(texts(self.persons@).len() == self.persons@.len());
        self.persons.len() as u64
    }

    /// The number of stakes.
    pub fn stakes_count(&self) -> (count: u64)
        ensures
            count == self@.stakes.len(),
    {
        self.stakes.len() as u64
    }

    /// The stakes at the positions `listed`, as they are listed.
    fn wrap_stakes(&self, listed: &Vec<usize>) -> (stakes: Vec<WrappedStake>)
        requires
            forall|k: int| 0 <= k < listed@.len() ==> (#[trigger] listed@[k]) < self@.stakes.len(),
        ensures
            stakes_view(stakes@) == wrapped_stakes(self@.stakes, listed@),
    {
        let mut stakes: Vec<WrappedStake> = Vec::new();
        let mut k: usize = 0;
        while k < listed.len()
            invariant
                k <= listed@.len(),
                stakes@.len() == k,
                forall|k: int|
                    0 <= k < listed@.len() ==> (#[trigger] listed@[k]) < self@.stakes.len(),
                forall|j: int|
                    0 <= j < k ==> (#[trigger] stakes@[j])@ == wrapped_stake(
                        self@.stakes[listed@[j] as int],
                    ),
            decreases listed.len() - k,
        {
            let i = listed[k];
            let stake = &self.stakes.entries[i].1;
            stakes.push(
                WrappedStake {
                    stake_id: self.stakes.entries[i].0.clone(),
                    bet_id: stake.bet_id.clone(),
                    position: stake.position,
                    amount: stake.amount,
                    staker: stake.staker.clone(),
                    unmatched: stake.unmatched,
                    gentlemans: stake.gentlemans,
                },
            );
            k += 1;
        }
        assert(stakes_view(stakes@) =~= wrapped_stakes(self@.stakes, listed@));
        stakes
    }

    /// The bets at the positions `listed`, as they are listed.
    fn wrap_bets(&self, listed: &Vec<usize>) -> (bets: Vec<WrappedBet>)
        requires
            forall|k: int| 0 <= k < listed@.len() ==> (#[trigger] listed@[k]) < self@.bets.len(),
        ensures
            bets_view(bets@) == wrapped_bets(self@.bets, listed@),
    {
        let mut bets: Vec<WrappedBet> = Vec::new();
        let mut k: usize = 0;
        while k < listed.len()
            invariant
                k <= listed@.len(),
                bets@.len() == k,
                forall|k: int|
                    0 <= k < listed@.len() ==> (#[trigger] listed@[k]) < self@.bets.len(),
                forall|j: int|
                    0 <= j < k ==> (#[trigger] bets@[j])@ == wrapped_bet(
                        self@.bets[listed@[j] as int],
                    ),
            decreases listed.len() - k,
        {
            let i = listed[k];
            let bet = &self.bets.entries[i].1;
            bets.push(
                WrappedBet {
                    bet_id: self.bets.entries[i].0.clone(),
                    prediction: bet.prediction,
                    person: bet.person.clone(),
                    end: bet.end,
                },
            );
            k += 1;
        }
        assert(bets_view(bets@) =~= wrapped_bets(self@.bets, listed@));
        bets
    }

    /// One page of the stakes, in the order of the stake table.
    pub fn stakes(&self, from_index: Option<u128>, limit: Option<u64>) -> (stakes: Vec<
        WrappedStake,
    >)
        ensures
            stakes_view(stakes@) == wrapped_stakes(
                self@.stakes,
                page(all_positions(self@.stakes.len()), skip_of(from_index), limit_of(limit)),
            ),
    {
        let start = match from_index {
            Some(start) => start,
            None => 0,
        };
        let size = match limit {
            Some(size) => size,
            None => DEFAULT_LIMIT,
        };
        let all = every_position(self.stakes.len());
        let listed = page_of(&all, start, size);
        proof {
            lemma_positions(self@.stakes.len() as int, |i: int| true);
        }
        self.wrap_stakes(&listed)
    }

    /// One page of the stakes on the bets `bet_ids`, in the order of the
    /// stake table.
    pub fn stakes_for_bets(&self, bet_ids: Vec<BetId>, from_index: Option<u128>, limit: Option<u64>) -> (stakes:
        Vec<WrappedStake>)
        ensures
            stakes_view(stakes@) == wrapped_stakes(
                self@.stakes,
                page(
                    stakes_on(self@.stakes, texts(bet_ids@)),
                    skip_of(from_index),
                    limit_of(limit),
                ),
            ),
    {
        let start = match from_index {
            Some(start) => start,
            None => 0,
        };
        let size = match limit {
            Some(size) => size,
            None => DEFAULT_LIMIT,
        };
        let mut selected: Vec<usize> = Vec::new();
        let mut i: usize = 0;
        while i < self.stakes.entries.len()
            invariant
                i <= self.stakes.entries@.len(),
                selected@ == positions(
                    i as int,
                    |i: int| texts(bet_ids@).contains(self@.stakes[i].1.bet_id),
                ),
            decreases self.stakes.entries.len() - i,
        {
            if contains_string(&bet_ids, &self.stakes.entries[i].1.bet_id) {
                selected.push(i);
            }
            i += 1;
        }
        let listed = page_of(&selected, start, size);
        proof {
            lemma_positions(
                self@.stakes.len() as int,
                |i: int| texts(bet_ids@).contains(self@.stakes[i].1.bet_id),
            );
        }
        self.wrap_stakes(&listed)
    }

    /// One page of the stakes of `staker`, in the order of the stake table,
    /// and the bets that these stakes are on, each once, in the order in
    /// which the stakes name them. The listing fails when one of these bets
    /// is not recorded.
    pub fn stakes_for_person(&self, staker: AccountId, from_index: Option<u128>, limit: Option<u64>) -> (result:
        Result<(Vec<WrappedStake>, Vec<WrappedBet>), Error>)
        requires
            self.wf(),
        ensures
            ({
                let listed = page(
                    stakes_of(self@.stakes, staker@),
                    skip_of(from_index),
                    limit_of(limit),
                );
                let stakes = wrapped_stakes(self@.stakes, listed);
                let named = first_seen(
                    Seq::new(stakes.len(), |k: int| stakes[k].bet_id),
                    stakes.len() as int,
                );
                if exists|k: int| 0 <= k < named.len() && !has_key(self@.bets, #[trigger] named[k]) {
                    result == Err::<(Vec<WrappedStake>, Vec<WrappedBet>), Error>(Error::BetMissing)
                } else {
                    &&& result matches Ok(lists)
                    &&& stakes_view(lists.0@) == stakes
                    &&& bets_view(lists.1@) == Seq::new(
                        named.len(),
                        |k: int| wrapped_bet(self@.bets[index_of(self@.bets, named[k])]),
                    )
                }
            }),
    {
        let start = match from_index {
            Some(start) => start,
            None => 0,
        };
        let size = match limit {
            Some(size) => size,
            None => DEFAULT_LIMIT,
        };
        let mut selected: Vec<usize> = Vec::new();
        let mut i: usize = 0;
        while i < self.stakes.entries.len()
            invariant
                i <= self.stakes.entries@.len(),
                selected@ == positions(i as int, |i: int| self@.stakes[i].1.staker == staker@),
            decreases self.stakes.entries.len() - i,
        {
            if self.stakes.entries[i].1.staker == staker {
                selected.push(i);
            }
            i += 1;
        }
        let listed = page_of(&selected, start, size);
        proof {
            lemma_positions(
                self@.stakes.len() as int,
                |i: int| self@.stakes[i].1.staker == staker@,
            );
        }
        let own_stakes = self.wrap_stakes(&listed);
        let ghost expected = page(
            stakes_of(self@.stakes, staker@),
            skip_of(from_index),
            limit_of(limit),
        );
        let ghost stakes = stakes_view(own_stakes@);
        let ghost ids = Seq::new(stakes.len(), |k: int| stakes[k].bet_id);
        let mut bet_ids: Vec<BetId> = Vec::new();
        let mut at: Vec<usize> = Vec::new();
        let mut k: usize = 0;
        assert(texts(bet_ids@) =~= first_seen(ids, 0));
        while k < own_stakes.len()
            invariant
                k <= own_stakes@.len(),
                stakes == stakes_view(own_stakes@),
                stakes == wrapped_stakes(self@.stakes, expected),
                expected == page(
                    stakes_of(self@.stakes, staker@),
                    skip_of(from_index),
                    limit_of(limit),
                ),
                ids == Seq::new(stakes.len(), |k: int| stakes[k].bet_id),
                texts(bet_ids@) == first_seen(ids, k as int),
                at@.len() == bet_ids@.len(),
                forall|j: int|
                    0 <= j < at@.len() ==> (#[trigger] at@[j]) < self@.bets.len() && at@[j]
                        == index_of(self@.bets, texts(bet_ids@)[j]) && has_key(
                        self@.bets,
                        texts(bet_ids@)[j],
                    ),
            decreases own_stakes.len() - k,
        {
            assert(ids[k as int] == own_stakes@[k as int].bet_id@);
            if !contains_string(&bet_ids, &own_stakes[k].bet_id) {
                match self.bets.position(&own_stakes[k].bet_id) {
                    Some(b) => {
                        let ghost before = texts(bet_ids@);
                        bet_ids.push(own_stakes[k].bet_id.clone());
                        at.push(b);
                        assert(texts(bet_ids@) =~= before.push(ids[k as int]));
                    },
                    None => {
                        proof {
                            let named = first_seen(ids, stakes.len() as int);
                            lemma_first_seen_grows(ids, k as int + 1, stakes.len() as int);
                            let upto = first_seen(ids, k as int + 1);
                            assert(upto.last() == ids[k as int]);
                            assert(named[upto.len() - 1] == ids[k as int]);
                        }
                        return Err(Error::BetMissing);
                    },
                }
            }
            k += 1;
        }
        let own_bets = self.wrap_bets(&at);
        proof {
            let named = first_seen(ids, stakes.len() as int);
            assert(bets_view(own_bets@) =~= Seq::new(
                named.len(),
                |k: int| wrapped_bet(self@.bets[index_of(self@.bets, named[k])]),
            ));
            assert forall|k: int| 0 <= k < named.len() implies has_key(
                self@.bets,
                #[trigger] named[k],
            ) by {
                assert(named[k] == texts(bet_ids@)[k]);
                assert(at@[k] < self@.bets.len());
            }
        }
        Ok((own_stakes, own_bets))
    }

    /// The bets that [`bets_listed`] selects, in the order of the bet
    /// table, at the time of the call.
    pub fn bets(
        &self,
        ctx: &Context,
        person: Option<Person>,
        bet_ids: Option<Vec<String>>,
        ended: Option<bool>,
        from_index: Option<u128>,
        limit: Option<u64>,
    ) -> (bets: Vec<WrappedBet>)
        requires
            ctx.wf(),
        ensures
            bets_view(bets@) == wrapped_bets(
                self@.bets,
                bets_listed(
                    self@.bets,
                    opt_text(person),
                    opt_texts(bet_ids),
                    ended,
                    ctx.now(),
                    from_index,
                    limit,
                ),
            ),
    {
        let start = match from_index {
            Some(start) => start,
            None => 0,
        };
        let size = match limit {
            Some(size) => size,
            None => DEFAULT_LIMIT,
        };
        let now = ctx.timestamp();
        let ghost rows = self@.bets;
        let ghost subject: Option<Seq<char>> = opt_text(person);
        let mut about: Vec<usize> = Vec::new();
        let mut i: usize = 0;
        while i < self.bets.entries.len()
            invariant
                i <= self.bets.entries@.len(),
                rows == self@.bets,
                subject == opt_text(person),
                about@ == positions(
                    i as int,
                    |i: int|
                        match subject {
                            Some(subject) => rows[i].1.person == subject,
                            None => true,
                        },
                ),
            decreases self.bets.entries.len() - i,
        {
            let keep = match &person {
                Some(subject) => self.bets.entries[i].1.person == *subject,
                None => true,
            };
            if keep {
                about.push(i);
            }
            i += 1;
        }
        proof {
            lemma_positions(
                rows.len() as int,
                |i: int|
                    match subject {
                        Some(subject) => rows[i].1.person == subject,
                        None => true,
                    },
            );
        }
        let chosen: Vec<usize> = match &bet_ids {
            Some(ids) => {
                let mut named: Vec<usize> = Vec::new();
                let mut k: usize = 0;
                while k < about.len()
                    invariant
                        k <= about@.len(),
                        rows == self@.bets,
                        forall|j: int|
                            0 <= j < about@.len() ==> (#[trigger] about@[j]) < rows.len(),
                        forall|j: int|
                            0 <= j < named@.len() ==> (#[trigger] named@[j]) < rows.len(),
                        named@ == pick(
                            k as int,
                            |k: int| texts(ids@).contains(rows[about@[k] as int].0),
                            |k: int| about@[k],
                        ),
                    decreases about.len() - k,
                {
                    if contains_string(ids, &self.bets.entries[about[k]].0) {
                        named.push(about[k]);
                    }
                    k += 1;
                }
                named
            },
            None => page_of(&about, start, size),
        };
        let mut listed: Vec<usize> = Vec::new();
        let mut k: usize = 0;
        while k < chosen.len()
            invariant
                k <= chosen@.len(),
                rows == self@.bets,
                forall|j: int| 0 <= j < chosen@.len() ==> (#[trigger] chosen@[j]) < rows.len(),
                forall|j: int| 0 <= j < listed@.len() ==> (#[trigger] listed@[j]) < rows.len(),
                listed@ == pick(
                    k as int,
                    |k: int| passes(ended, rows[chosen@[k] as int].1.end, now),
                    |k: int| chosen@[k],
                ),
            decreases chosen.len() - k,
        {
            let end = self.bets.entries[chosen[k]].1.end;
            let keep = match ended {
                Some(true) => end < now,
                Some(false) => end > now,
                None => true,
            };
            if keep {
                listed.push(chosen[k]);
            }
            k += 1;
        }
        self.wrap_bets(&listed)
    }

    /// The persons that [`persons_listed`] selects, in the order in which
    /// they were first named.
    pub fn persons(&self, from_index: Option<u128>, limit: Option<u64>, exclude: Option<Vec<Person>>) -> (persons:
        Vec<Person>)
        ensures
            ({
                let listed = persons_listed(
                    self@.persons,
                    from_index,
                    limit,
                    opt_texts(exclude),
                );
                texts(persons@) == Seq::new(listed.len(), |k: int| self@.persons[listed[k] as int])
            }),
    {
        let start = match from_index {
            Some(start) => start,
            None => 0,
        };
        let size = match limit {
            Some(size) => size,
            None => DEFAULT_LIMIT,
        };
        let ghost names = self@.persons;
        assert(names.len() == self.persons@.len());
        let listed: Vec<usize> = match &exclude {
            Some(excluded) => {
                let mut selected: Vec<usize> = Vec::new();
                let mut i: usize = 0;
                while i < self.persons.len()
                    invariant
                        i <= self.persons@.len(),
                        names == self@.persons,
                        selected@ == positions(
                            i as int,
                            |i: int| !texts(excluded@).contains(names[i]),
                        ),
                    decreases self.persons.len() - i,
                {
                    assert(names[i as int] == self.persons@[i as int]@);
                    if !contains_string(excluded, &self.persons[i]) {
                        selected.push(i);
                    }
                    i += 1;
                }
                proof {
                    lemma_positions(
                        names.len() as int,
                        |i: int| !texts(excluded@).contains(names[i]),
                    );
                }
                let shown: u64 = if size > 0 {
                    size - 1
                } else {
                    0
                };
                page_of(&selected, 0, shown)
            },
            None => {
                let all = every_position(self.persons.len());
                proof {
                    lemma_positions(names.len() as int, |i: int| true);
                }
                page_of(&all, start, size)
            },
        };
        let mut persons: Vec<Person> = Vec::new();
        let mut k: usize = 0;
        while k < listed.len()
            invariant
                k <= listed@.len(),
                names == self@.persons,
                persons@.len() == k,
                forall|j: int| 0 <= j < listed@.len() ==> (#[trigger] listed@[j]) < names.len(),
                forall|j: int| 0 <= j < k ==> (#[trigger] persons@[j])@ == names[listed@[j] as int],
            decreases listed.len() - k,
        {
            assert(names[listed@[k as int] as int] == self.persons@[listed@[k as int] as int]@);
            persons.push(self.persons[listed[k]].clone());
            k += 1;
        }
        assert(texts(persons@) =~= Seq::new(
            listed@.len(),
            |k: int| names[listed@[k] as int],
        ));
        persons
    }

    /// The earnings of the stakes `stake_ids` at the current epoch, in the
    /// order given, each with the amount of its stake. Nothing is recorded.
    /// The listing fails with the error of the first stake whose earnings
    /// cannot be computed.
    pub fn stake_earnings(&self, ctx: &Context, stake_ids: Vec<StakeId>) -> (result: Result<
        Vec<WrappedStakeEarning>,
        Error,
    >)
        requires
            self.wf(),
            effective_epoch(self@, *ctx) <= u64::MAX,
        ensures
            ({
                let epoch = effective_epoch(self@, *ctx) as u64;
                let ids = texts(stake_ids@);
                match result {
                    Ok(earnings) => {
                        &&& earnings@.len() == ids.len()
                        &&& forall|k: int|
                            0 <= k < ids.len() ==> {
                                &&& earning_outcome(self@, #[trigger] ids[k], epoch) matches Ok(
                                    earning,
                                )
                                &&& earning_view(earnings@[k]) == wrapped_earning(
                                    ids[k],
                                    value_of(self@.stakes, ids[k]).amount,
                                    earning,
                                )
                            }
                    },
                    Err(error) => exists|k: int|
                        {
                            &&& 0 <= k < ids.len()
                            &&& earning_outcome(self@, #[trigger] ids[k], epoch) == Err::<
                                StakeEarning,
                                Error,
                            >(error)
                            &&& forall|j: int|
                                0 <= j < k ==> earning_outcome(self@, #[trigger] ids[j], epoch) is Ok
                        },
                }
            }),
    {
        let ghost epoch = effective_epoch(self@, *ctx) as u64;
        let ghost ids = texts(stake_ids@);
        let mut earnings: Vec<WrappedStakeEarning> = Vec::new();
        let mut k: usize = 0;
        while k < stake_ids.len()
            invariant
                k <= stake_ids@.len(),
                self.wf(),
                effective_epoch(self@, *ctx) <= u64::MAX,
                epoch == effective_epoch(self@, *ctx) as u64,
                ids == texts(stake_ids@),
                earnings@.len() == k,
                forall|j: int|
                    0 <= j < k ==> {
                        &&& earning_outcome(self@, #[trigger] ids[j], epoch) matches Ok(earning)
                        &&& earning_view(earnings@[j]) == wrapped_earning(
                            ids[j],
                            value_of(self@.stakes, ids[j]).amount,
                            earning,
                        )
                    },
            decreases stake_ids.len() - k,
        {
            assert(ids[k as int] == stake_ids@[k as int]@);
            let stake_earning = match self.calculate_stake_earning(ctx, &stake_ids[k]) {
                Ok(earning) => earning,
                Err(error) => {
                    return Err(error);
                },
            };
            let total_balance = match self.stakes.get(&stake_ids[k]) {
                Some(stake) => stake.amount,
                None => {
                    return Err(Error::StakeMissing);
                },
            };
            earnings.push(
                WrappedStakeEarning {
                    stake_id: stake_ids[k].clone(),
                    epochs: stake_earning.epochs,
                    yield_balance: stake_earning.yield_balance,
                    total_balance,
                },
            );
            k += 1;
        }
        Ok(earnings)
    }
}

/// What has been seen among the first `n` identifiers is the beginning of
/// what has been seen among the first `m`, for `n <= m`.
proof fn lemma_first_seen_grows(ids: Seq<Seq<char>>, n: int, m: int)
    requires
        0 <= n <= m,
    ensures
        first_seen(ids, n).len() <= first_seen(ids, m).len(),
        forall|i: int|
            0 <= i < first_seen(ids, n).len() ==> #[trigger] first_seen(ids, m)[i] == first_seen(
                ids,
                n,
            )[i],
    decreases m - n,
{
    if n < m {
        lemma_first_seen_grows(ids, n, m - 1);
    }
}

} // verus!
