//! Checking a state.
//!
//! A state that has been put together by hand, or read from storage, can be
//! asked whether it is one that the operations keep.

use vstd::prelude::*;
use crate::seqs::strings_distinct;
use crate::sums::{sum_to, lemma_sum_zero};
use crate::table::Table;
use crate::bet::{Contract, Position, Stake};
use crate::bet::matching::{balanced, matched_sum, matched_term, settled, stakes_sound};

verus! {

/// The number that a wide sum stands for: the count of carries out of the
/// low word, and the low word.
pub open spec fn wide(sum: (u64, u128)) -> int {
    sum.0 * 0x1_0000_0000_0000_0000_0000_0000_0000_0000 + sum.1
}

/// Adds an amount to a wide sum.
fn wide_add(sum: (u64, u128), amount: u128) -> (total: (u64, u128))
    requires
        sum.0 < u64::MAX,
    ensures
        wide(total) == wide(sum) + amount,
        total.0 <= sum.0 + 1,
{
    match sum.1.checked_add(amount) {
        Some(low) => (sum.0, low),
        None => (sum.0 + 1, sum.1 - (u128::MAX - amount) - 1),
    }
}

/// What is matched on `bet` on `side`, as a wide sum.
fn matched_on(stakes: &Table<Stake>, bet: &String, side: Position) -> (sum: (u64, u128))
    ensures
        wide(sum) == matched_sum(stakes@, bet@, side),
{
    let mut sum: (u64, u128) = (0, 0);
    let mut i: usize = 0;
    while i < stakes.entries.len()
        invariant
            i <= stakes.entries@.len(),
            sum.0 <= i,
            wide(sum) == sum_to(matched_term(stakes@, bet@, side), i as int),
        decreases stakes.entries.len() - i,
    {
        let stake = &stakes.entries[i].1;
        if stake.bet_id == *bet && stake.position == side && stake.unmatched <= stake.amount {
            sum = wide_add(sum, stake.amount - stake.unmatched);
        }
        i += 1;
    }
    sum
}

/// Whether no stake has more unmatched than was staked, and every stake
/// that opted out of matching has all of it unmatched.
pub fn is_sound(stakes: &Table<Stake>) -> (ok: bool)
    ensures
        ok == stakes_sound(stakes@),
{
    let mut i: usize = 0;
    while i < stakes.entries.len()
        invariant
            i <= stakes.entries@.len(),
            forall|j: int|
                0 <= j < i ==> {
                    &&& (#[trigger] stakes@[j]).1.unmatched <= stakes@[j].1.amount
                    &&& stakes@[j].1.gentlemans ==> stakes@[j].1.unmatched == stakes@[j].1.amount
                },
        decreases stakes.entries.len() - i,
    {
        let stake = &stakes.entries[i].1;
        if stake.unmatched > stake.amount || (stake.gentlemans && stake.unmatched != stake.amount) {
            assert(!(stakes@[i as int].1.unmatched <= stakes@[i as int].1.amount
                && (stakes@[i as int].1.gentlemans ==> stakes@[i as int].1.unmatched
                == stakes@[i as int].1.amount)));
            return false;
        }
        i += 1;
    }
    true
}

/// Whether on every bet as much is matched on one side as on the other.
pub fn is_balanced(stakes: &Table<Stake>) -> (ok: bool)
    ensures
        ok == balanced(stakes@),
{
    let mut i: usize = 0;
    while i < stakes.entries.len()
        invariant
            i <= stakes.entries@.len(),
            forall|j: int|
                0 <= j < i ==> matched_sum(
                    stakes@,
                    (#[trigger] stakes@[j]).1.bet_id,
                    Position::Back,
                ) == matched_sum(stakes@, stakes@[j].1.bet_id, Position::Lay),
        decreases stakes.entries.len() - i,
    {
        let back = matched_on(stakes, &stakes.entries[i].1.bet_id, Position::Back);
        let lay = matched_on(stakes, &stakes.entries[i].1.bet_id, Position::Lay);
        if back.0 != lay.0 || back.1 != lay.1 {
            assert(matched_sum(stakes@, stakes@[i as int].1.bet_id, Position::Back) != matched_sum(
                stakes@,
                stakes@[i as int].1.bet_id,
                Position::Lay,
            ));
            return false;
        }
        i += 1;
    }
    proof {
        let rows = stakes@;
        assert forall|bet: Seq<char>| #[trigger]
            matched_sum(rows, bet, Position::Back) == matched_sum(rows, bet, Position::Lay) by {
            if exists|j: int| 0 <= j < rows.len() && (#[trigger] rows[j]).1.bet_id == bet {
                let j = choose|j: int| 0 <= j < rows.len() && (#[trigger] rows[j]).1.bet_id == bet;
                assert(matched_sum(rows, rows[j].1.bet_id, Position::Back) == matched_sum(
                    rows,
                    rows[j].1.bet_id,
                    Position::Lay,
                ));
            } else {
                assert forall|q: int| 0 <= q < rows.len() implies #[trigger] matched_term(
                    rows,
                    bet,
                    Position::Back,
                )(q) == 0 by {
                    assert(rows[q].1.bet_id != bet);
                }
                assert forall|q: int| 0 <= q < rows.len() implies #[trigger] matched_term(
                    rows,
                    bet,
                    Position::Lay,
                )(q) == 0 by {
                    assert(rows[q].1.bet_id != bet);
                }
                lemma_sum_zero(matched_term(rows, bet, Position::Back), rows.len() as int);
                lemma_sum_zero(matched_term(rows, bet, Position::Lay), rows.len() as int);
            }
        }
    }
    true
}

/// Rows `q` and `p` could be matched with each other and both have
/// something left unmatched.
fn both_open(stakes: &Table<Stake>, q: usize, p: usize) -> (open: bool)
    requires
        q < stakes@.len(),
        p < stakes@.len(),
    ensures
        open == (stakes@[q as int].1.bet_id == stakes@[p as int].1.bet_id
            && stakes@[q as int].1.position != stakes@[p as int].1.position
            && !stakes@[q as int].1.gentlemans && !stakes@[p as int].1.gentlemans && !(
        stakes@[q as int].1.unmatched == 0 || stakes@[p as int].1.unmatched == 0)),
{
    let one = &stakes.entries[q].1;
    let other = &stakes.entries[p].1;
    one.bet_id == other.bet_id && one.position != other.position && !one.gentlemans
        && !other.gentlemans && one.unmatched != 0 && other.unmatched != 0
}

/// Whether matching is up to date: no two stakes that could be matched with
/// each other both have something left unmatched.
pub fn is_settled(stakes: &Table<Stake>) -> (ok: bool)
    ensures
        ok == settled(stakes@),
{
    let n = stakes.entries.len();
    let mut q: usize = 0;
    while q < n
        invariant
            q <= n,
            n == stakes@.len(),
            forall|a: int, b: int|
                0 <= a < q && 0 <= b < n && (#[trigger] stakes@[a]).1.bet_id == (
                #[trigger] stakes@[b]).1.bet_id && stakes@[a].1.position != stakes@[b].1.position
                    && !stakes@[a].1.gentlemans && !stakes@[b].1.gentlemans
                    ==> stakes@[a].1.unmatched == 0 || stakes@[b].1.unmatched == 0,
        decreases n - q,
    {
        let mut p: usize = 0;
        while p < n
            invariant
                p <= n,
                q < n,
                n == stakes@.len(),
                forall|b: int|
                    0 <= b < p && stakes@[q as int].1.bet_id == (#[trigger] stakes@[b]).1.bet_id
                        && stakes@[q as int].1.position != stakes@[b].1.position
                        && !stakes@[q as int].1.gentlemans && !stakes@[b].1.gentlemans
                        ==> stakes@[q as int].1.unmatched == 0 || stakes@[b].1.unmatched == 0,
            decreases n - p,
        {
            if both_open(stakes, q, p) {
                assert(!settled(stakes@)) by {
                    let rows = stakes@;
                    assert(rows[q as int].1.bet_id == rows[p as int].1.bet_id);
                }
                return false;
            }
            p += 1;
        }
        q += 1;
    }
    true
}

impl Contract {
    /// Whether the state is one that the operations keep.
    pub fn is_wf(&self) -> (ok: bool)
        ensures
            ok == self.wf(),
    {
        if !strings_distinct(&self.persons) {
            return false;
        }
        if !self.bets.keys_distinct() || !self.stakes.keys_distinct()
            || !self.cancelled_stakes.keys_distinct() || !self.accounts.keys_distinct() {
            return false;
        }
        let mut a: usize = 0;
        while a < self.accounts.entries.len()
            invariant
                a <= self.accounts.entries@.len(),
                forall|j: int|
                    0 <= j < a ==> crate::table::keys_unique(
                        (#[trigger] self@.accounts[j]).1.earnings,
                    ),
            decreases self.accounts.entries.len() - a,
        {
            if !self.accounts.entries[a].1.earnings.keys_distinct() {
                assert(!crate::table::keys_unique(self@.accounts[a as int].1.earnings));
                return false;
            }
            a += 1;
        }
        is_sound(&self.stakes) && is_balanced(&self.stakes) && is_settled(&self.stakes)
    }
}

} // verus!
