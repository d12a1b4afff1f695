//! Matching a stake against the opposing stakes on its bet.
//!
//! When a stake is confirmed, its unmatched amount is offered to the stakes
//! that oppose it on the same bet, the one with the smallest unmatched amount
//! first, until the offer or the opposition is used up. Stakes that opted out
//! of matching neither offer nor receive.
//!
//! The outcome has a closed form. Order the opposing stakes by unmatched
//! amount, earlier rows first among equals. A stake is offered what the ones
//! before it left over and takes as much of that as it can hold.

use vstd::prelude::*;
use crate::sums::{sum_to, lemma_sum_ext, lemma_sum_le, lemma_sum_raise, lemma_sum_zero};
use crate::table::{Table, has_key, index_of, lemma_index_of, lemma_same_keys};
use crate::bet::{Stake, StakeView, StakeRows, Position};
use crate::context::Balance;

verus! {

/// Every stake has at most its amount unmatched, and one that opted out of
/// matching has all of it unmatched.
pub open spec fn stakes_sound(rows: StakeRows) -> bool {
    forall|i: int|
        0 <= i < rows.len() ==> {
            &&& (#[trigger] rows[i]).1.unmatched <= rows[i].1.amount
            &&& rows[i].1.gentlemans ==> rows[i].1.unmatched == rows[i].1.amount
        }
}

/// Row `q` can be matched against row `subject`: another stake on the same
/// bet, on the other side, open to matching, with something left unmatched.
pub open spec fn eligible(rows: StakeRows, subject: int, q: int) -> bool {
    &&& 0 <= q < rows.len()
    &&& q != subject
    &&& rows[q].1.bet_id == rows[subject].1.bet_id
    &&& rows[q].1.position != rows[subject].1.position
    &&& !rows[q].1.gentlemans
    &&& rows[q].1.unmatched > 0
}

/// Row `q` is served before row `p`: it has less unmatched, or as much and
/// stands earlier in the table.
pub open spec fn precedes(rows: StakeRows, q: int, p: int) -> bool {
    ||| rows[q].1.unmatched < rows[p].1.unmatched
    ||| (rows[q].1.unmatched == rows[p].1.unmatched && q < p)
}

/// The unmatched amount of row `q` if it is eligible and served before `p`.
pub open spec fn demand_term(rows: StakeRows, subject: int, p: int) -> spec_fn(int) -> nat {
    |q: int|
        if eligible(rows, subject, q) && precedes(rows, q, p) {
            rows[q].1.unmatched as nat
        } else {
            0
        }
}

/// What the eligible rows served before `p` ask for in all.
pub open spec fn demand_before(rows: StakeRows, subject: int, p: int) -> nat {
    sum_to(demand_term(rows, subject, p), rows.len() as int)
}

/// The unmatched amount of row `q` if it is eligible.
pub open spec fn total_term(rows: StakeRows, subject: int) -> spec_fn(int) -> nat {
    |q: int|
        if eligible(rows, subject, q) {
            rows[q].1.unmatched as nat
        } else {
            0
        }
}

/// What all eligible rows ask for.
pub open spec fn demand_total(rows: StakeRows, subject: int) -> nat {
    sum_to(total_term(rows, subject), rows.len() as int)
}

/// What is left of the subject's unmatched amount when row `p` is served.
pub open spec fn offered(rows: StakeRows, subject: int, p: int) -> nat {
    let have = rows[subject].1.unmatched as nat;
    let asked = demand_before(rows, subject, p);
    if have > asked {
        (have - asked) as nat
    } else {
        0
    }
}

/// What row `p` takes: all it has unmatched, or what is offered if that is
/// less.
pub open spec fn fill(rows: StakeRows, subject: int, p: int) -> nat {
    let want = rows[p].1.unmatched as nat;
    let given = offered(rows, subject, p);
    if want <= given {
        want
    } else {
        given
    }
}

/// What the subject gives away: all it has unmatched, or what is asked for
/// if that is less.
pub open spec fn given(rows: StakeRows, subject: int) -> nat {
    let have = rows[subject].1.unmatched as nat;
    let asked = demand_total(rows, subject);
    if have <= asked {
        have
    } else {
        asked
    }
}

/// The same row with another unmatched amount.
pub open spec fn with_unmatched(row: (Seq<char>, StakeView), unmatched: Balance) -> (
    Seq<char>,
    StakeView,
) {
    (row.0, StakeView { unmatched, ..row.1 })
}

/// Row `i` after the subject has been matched.
pub open spec fn matched_row(rows: StakeRows, subject: int, i: int) -> (Seq<char>, StakeView) {
    if i == subject {
        with_unmatched(rows[i], (rows[i].1.unmatched - given(rows, subject)) as Balance)
    } else if eligible(rows, subject, i) {
        with_unmatched(rows[i], (rows[i].1.unmatched - fill(rows, subject, i)) as Balance)
    } else {
        rows[i]
    }
}

/// The stake table after the stake under `key` has been matched. Nothing
/// changes when there is no such stake or when it opted out of matching.
pub open spec fn matched_rows(rows: StakeRows, key: Seq<char>) -> StakeRows {
    let subject = index_of(rows, key);
    if !has_key(rows, key) || rows[subject].1.gentlemans {
        rows
    } else {
        Seq::new(rows.len(), |i: int| matched_row(rows, subject, i))
    }
}

/// The matched part of row `q` if it is on `bet` and takes `side`.
pub open spec fn matched_term(rows: StakeRows, bet: Seq<char>, side: Position) -> spec_fn(
    int,
) -> nat {
    |q: int|
        if 0 <= q < rows.len() && rows[q].1.bet_id == bet && rows[q].1.position == side
            && rows[q].1.unmatched <= rows[q].1.amount {
            (rows[q].1.amount - rows[q].1.unmatched) as nat
        } else {
            0
        }
}

/// The total matched amount of the stakes on `bet` that take `side`.
pub open spec fn matched_sum(rows: StakeRows, bet: Seq<char>, side: Position) -> nat {
    sum_to(matched_term(rows, bet, side), rows.len() as int)
}

/// The amount of row `q` if it is on `bet` and takes `side`.
pub open spec fn amount_term(rows: StakeRows, bet: Seq<char>, side: Position) -> spec_fn(
    int,
) -> nat {
    |q: int|
        if 0 <= q < rows.len() && rows[q].1.bet_id == bet && rows[q].1.position == side {
            rows[q].1.amount as nat
        } else {
            0
        }
}

/// The total amount staked on `bet` on `side`.
pub open spec fn amount_sum(rows: StakeRows, bet: Seq<char>, side: Position) -> nat {
    sum_to(amount_term(rows, bet, side), rows.len() as int)
}

/// On every bet as much is matched on one side as on the other.
pub open spec fn balanced(rows: StakeRows) -> bool {
    forall|bet: Seq<char>| #[trigger]
        matched_sum(rows, bet, Position::Back) == matched_sum(rows, bet, Position::Lay)
}

/// The other side.
pub open spec fn opposite(side: Position) -> Position {
    match side {
        Position::Back => Position::Lay,
        Position::Lay => Position::Back,
    }
}

/// The unmatched amount that row `q` had before the walk if it has been
/// served in full since.
pub open spec fn served_term(before: StakeRows, cur: StakeRows, subject: int) -> spec_fn(
    int,
) -> nat {
    |q: int|
        if eligible(before, subject, q) && cur[q].1.unmatched == 0 {
            before[q].1.unmatched as nat
        } else {
            0
        }
}

/// What the rows served in full so far have taken.
pub open spec fn served(before: StakeRows, cur: StakeRows, subject: int) -> nat {
    sum_to(served_term(before, cur, subject), before.len() as int)
}

/// The state of a walk over the eligible rows: `cur` is `before` with some
/// eligible rows served in full, each of them served before every row still
/// waiting, and `remaining` is what the subject has left to offer.
pub open spec fn walking(before: StakeRows, cur: StakeRows, subject: int, remaining: nat) -> bool {
    &&& cur.len() == before.len()
    &&& 0 <= subject < before.len()
    &&& cur[subject] == before[subject]
    &&& forall|i: int|
        0 <= i < before.len() ==> #[trigger] cur[i] == with_unmatched(
            before[i],
            cur[i].1.unmatched,
        )
    &&& forall|i: int|
        0 <= i < before.len() && !eligible(before, subject, i) ==> #[trigger] cur[i] == before[i]
    &&& forall|i: int|
        eligible(before, subject, i) ==> (#[trigger] cur[i]).1.unmatched == before[i].1.unmatched
            || cur[i].1.unmatched == 0
    &&& remaining + served(before, cur, subject) == before[subject].1.unmatched
    &&& forall|q: int, p: int|
        eligible(before, subject, q) && eligible(before, subject, p) && (#[trigger] cur[q]).1.unmatched
            == 0 && (#[trigger] cur[p]).1.unmatched != 0 ==> precedes(before, q, p)
}

/// The end of a walk: every row but the subject has its final value, and
/// `remaining` is what the subject keeps.
pub open spec fn walked(before: StakeRows, cur: StakeRows, subject: int, remaining: nat) -> bool {
    &&& cur.len() == before.len()
    &&& 0 <= subject < before.len()
    &&& cur[subject] == before[subject]
    &&& forall|i: int|
        0 <= i < before.len() && i != subject ==> #[trigger] cur[i] == matched_row(
            before,
            subject,
            i,
        )
    &&& remaining == before[subject].1.unmatched - given(before, subject)
}

/// Row `m` is the eligible row of `rows` that is served first.
pub open spec fn first_served(rows: StakeRows, subject: int, m: int) -> bool {
    &&& eligible(rows, subject, m)
    &&& forall|q: int| eligible(rows, subject, q) && q != m ==> precedes(rows, m, q)
}

/// During a walk the rows still eligible are those that were eligible at
/// the start and have not been served.
proof fn lemma_walking_eligible(before: StakeRows, cur: StakeRows, subject: int, remaining: nat)
    requires
        walking(before, cur, subject, remaining),
    ensures
        forall|q: int| #[trigger]
            eligible(cur, subject, q) <==> eligible(before, subject, q) && cur[q].1.unmatched != 0,
        forall|q: int, p: int|
            eligible(cur, subject, q) && eligible(cur, subject, p) ==> (#[trigger] precedes(
                cur,
                q,
                p,
            ) <==> precedes(before, q, p)),
{
    assert forall|q: int| #[trigger]
        eligible(cur, subject, q) <==> eligible(before, subject, q) && cur[q].1.unmatched
            != 0 by {
        if 0 <= q < before.len() {
            assert(cur[q] == with_unmatched(before[q], cur[q].1.unmatched));
            if !eligible(before, subject, q) {
                assert(cur[q] == before[q]);
            }
        }
    }
    assert forall|q: int, p: int|
        eligible(cur, subject, q) && eligible(cur, subject, p) implies (#[trigger] precedes(
        cur,
        q,
        p,
    ) <==> precedes(before, q, p)) by {
        assert(eligible(before, subject, q) && cur[q].1.unmatched != 0);
        assert(eligible(before, subject, p) && cur[p].1.unmatched != 0);
    }
}

/// A walk starts with nothing served.
proof fn lemma_walk_start(before: StakeRows, subject: int)
    requires
        0 <= subject < before.len(),
    ensures
        walking(before, before, subject, before[subject].1.unmatched as nat),
{
    lemma_sum_zero(served_term(before, before, subject), before.len() as int);
}

/// What is asked for before an eligible row, and by that row, is part of
/// what is asked for in all.
proof fn lemma_demand_within_total(rows: StakeRows, subject: int, i: int)
    requires
        eligible(rows, subject, i),
    ensures
        demand_before(rows, subject, i) + rows[i].1.unmatched <= demand_total(rows, subject),
{
    let f = demand_term(rows, subject, i);
    let h = |q: int| if q == i { rows[i].1.unmatched as nat } else { f(q) };
    assert(f(i) == 0);
    lemma_sum_raise(f, h, rows.len() as int, i, rows[i].1.unmatched as nat);
    assert forall|q: int| 0 <= q < rows.len() implies #[trigger] h(q) <= total_term(
        rows,
        subject,
    )(q) by {
        assert(f(q) <= total_term(rows, subject)(q));
    }
    lemma_sum_le(h, total_term(rows, subject), rows.len() as int);
}

/// What has been served is part of what is asked for in all.
proof fn lemma_served_within_total(before: StakeRows, cur: StakeRows, subject: int)
    ensures
        served(before, cur, subject) <= demand_total(before, subject),
{
    assert forall|q: int| 0 <= q < before.len() implies #[trigger] served_term(
        before,
        cur,
        subject,
    )(q) <= total_term(before, subject)(q) by {}
    lemma_sum_le(
        served_term(before, cur, subject),
        total_term(before, subject),
        before.len() as int,
    );
}

/// A row that has been served was offered all it asked for.
proof fn lemma_served_row(
    before: StakeRows,
    cur: StakeRows,
    subject: int,
    remaining: nat,
    i: int,
)
    requires
        walking(before, cur, subject, remaining),
        eligible(before, subject, i),
        cur[i].1.unmatched == 0,
    ensures
        demand_before(before, subject, i) + before[i].1.unmatched <= served(before, cur, subject),
        fill(before, subject, i) == before[i].1.unmatched,
        cur[i] == matched_row(before, subject, i),
{
    let f = demand_term(before, subject, i);
    let h = |q: int| if q == i { before[i].1.unmatched as nat } else { f(q) };
    assert(f(i) == 0);
    lemma_sum_raise(f, h, before.len() as int, i, before[i].1.unmatched as nat);
    assert forall|q: int| 0 <= q < before.len() implies #[trigger] h(q) <= served_term(
        before,
        cur,
        subject,
    )(q) by {
        if q != i && eligible(before, subject, q) && precedes(before, q, i) {
            if cur[q].1.unmatched != 0 {
                assert(precedes(before, i, q));
            }
        }
    }
    lemma_sum_le(h, served_term(before, cur, subject), before.len() as int);
    assert(cur[i] == with_unmatched(before[i], cur[i].1.unmatched));
}

/// A row that still waits is served after all that have been served.
proof fn lemma_waiting_row(
    before: StakeRows,
    cur: StakeRows,
    subject: int,
    remaining: nat,
    p: int,
)
    requires
        walking(before, cur, subject, remaining),
        eligible(before, subject, p),
        cur[p].1.unmatched != 0,
    ensures
        served(before, cur, subject) <= demand_before(before, subject, p),
        cur[p] == before[p],
{
    assert forall|q: int| 0 <= q < before.len() implies #[trigger] served_term(
        before,
        cur,
        subject,
    )(q) <= demand_term(before, subject, p)(q) by {
        if eligible(before, subject, q) && cur[q].1.unmatched == 0 {
            assert(precedes(before, q, p));
        }
    }
    lemma_sum_le(
        served_term(before, cur, subject),
        demand_term(before, subject, p),
        before.len() as int,
    );
    assert(cur[p] == with_unmatched(before[p], cur[p].1.unmatched));
}

/// The row that is served next was preceded by exactly the rows that have
/// been served, and every other waiting row comes after it.
proof fn lemma_next_row(before: StakeRows, cur: StakeRows, subject: int, remaining: nat, m: int)
    requires
        walking(before, cur, subject, remaining),
        first_served(cur, subject, m),
    ensures
        eligible(before, subject, m),
        cur[m] == before[m],
        demand_before(before, subject, m) == served(before, cur, subject),
        served(before, cur, subject) + before[m].1.unmatched <= demand_total(before, subject),
        forall|p: int|
            eligible(before, subject, p) && cur[p].1.unmatched != 0 && p != m ==> served(
                before,
                cur,
                subject,
            ) + before[m].1.unmatched <= #[trigger] demand_before(before, subject, p),
{
    lemma_walking_eligible(before, cur, subject, remaining);
    assert(eligible(cur, subject, m));
    assert(eligible(before, subject, m) && cur[m].1.unmatched != 0);
    lemma_waiting_row(before, cur, subject, remaining, m);
    assert forall|q: int| 0 <= q < before.len() implies #[trigger] served_term(
        before,
        cur,
        subject,
    )(q) == demand_term(before, subject, m)(q) by {
        if eligible(before, subject, q) {
            if cur[q].1.unmatched == 0 {
                assert(precedes(before, q, m));
            } else if q != m {
                assert(eligible(cur, subject, q));
                assert(precedes(cur, m, q));
                assert(precedes(before, m, q));
            }
        }
    }
    lemma_sum_ext(
        served_term(before, cur, subject),
        demand_term(before, subject, m),
        before.len() as int,
    );
    lemma_demand_within_total(before, subject, m);
    assert forall|p: int|
        eligible(before, subject, p) && cur[p].1.unmatched != 0 && p != m implies served(
        before,
        cur,
        subject,
    ) + before[m].1.unmatched <= #[trigger] demand_before(before, subject, p) by {
        let f = demand_term(before, subject, m);
        let h = |q: int| if q == m { before[m].1.unmatched as nat } else { f(q) };
        assert(f(m) == 0);
        lemma_sum_raise(f, h, before.len() as int, m, before[m].1.unmatched as nat);
        assert(eligible(cur, subject, p));
        assert(precedes(cur, m, p));
        assert(precedes(before, m, p));
        assert forall|q: int| 0 <= q < before.len() implies #[trigger] h(q) <= demand_term(
            before,
            subject,
            p,
        )(q) by {}
        lemma_sum_le(h, demand_term(before, subject, p), before.len() as int);
    }
}

/// Serving the next row in full continues the walk.
proof fn lemma_walk_full(
    before: StakeRows,
    cur: StakeRows,
    subject: int,
    remaining: nat,
    m: int,
    next: StakeRows,
)
    requires
        walking(before, cur, subject, remaining),
        first_served(cur, subject, m),
        cur[m].1.unmatched <= remaining,
        next == cur.update(m, with_unmatched(cur[m], 0)),
    ensures
        walking(before, next, subject, (remaining - cur[m].1.unmatched) as nat),
{
    lemma_next_row(before, cur, subject, remaining, m);
    lemma_walking_eligible(before, cur, subject, remaining);
    let f = served_term(before, cur, subject);
    let g = served_term(before, next, subject);
    assert forall|i: int| 0 <= i < before.len() && i != m implies #[trigger] f(i) == g(i) by {
        assert(next[i] == cur[i]);
    }
    assert(g(m) == f(m) + before[m].1.unmatched);
    lemma_sum_raise(f, g, before.len() as int, m, before[m].1.unmatched as nat);
    assert forall|i: int| 0 <= i < before.len() implies #[trigger] next[i] == with_unmatched(
        before[i],
        next[i].1.unmatched,
    ) by {
        assert(cur[i] == with_unmatched(before[i], cur[i].1.unmatched));
    }
    assert forall|i: int|
        0 <= i < before.len() && !eligible(before, subject, i) implies #[trigger] next[i]
        == before[i] by {
        assert(cur[i] == before[i]);
    }
    assert forall|i: int| eligible(before, subject, i) implies (#[trigger] next[i]).1.unmatched
        == before[i].1.unmatched || next[i].1.unmatched == 0 by {
        assert(cur[i].1.unmatched == before[i].1.unmatched || cur[i].1.unmatched == 0);
    }
    assert forall|q: int, p: int|
        eligible(before, subject, q) && eligible(before, subject, p) && (#[trigger] next[q]).1.unmatched
            == 0 && (#[trigger] next[p]).1.unmatched != 0 implies precedes(before, q, p) by {
        assert(next[p] == cur[p]);
        if q == m {
            assert(eligible(cur, subject, p));
            assert(precedes(cur, m, p));
        } else {
            assert(next[q] == cur[q]);
            assert(cur[q].1.unmatched == 0 && cur[p].1.unmatched != 0);
        }
    }
}

/// A walk that finds no eligible row has ended.
proof fn lemma_walk_end_none(before: StakeRows, cur: StakeRows, subject: int, remaining: nat)
    requires
        walking(before, cur, subject, remaining),
        forall|q: int| !eligible(cur, subject, q),
    ensures
        walked(before, cur, subject, remaining),
{
    lemma_walking_eligible(before, cur, subject, remaining);
    assert forall|q: int| 0 <= q < before.len() implies #[trigger] served_term(
        before,
        cur,
        subject,
    )(q) == total_term(before, subject)(q) by {
        if eligible(before, subject, q) {
            assert(!eligible(cur, subject, q));
        }
    }
    lemma_sum_ext(
        served_term(before, cur, subject),
        total_term(before, subject),
        before.len() as int,
    );
    assert forall|i: int| 0 <= i < before.len() && i != subject implies #[trigger] cur[i]
        == matched_row(before, subject, i) by {
        if eligible(before, subject, i) {
            assert(!eligible(cur, subject, i));
            lemma_served_row(before, cur, subject, remaining, i);
        } else {
            assert(cur[i] == before[i]);
        }
    }
}

/// A walk in which the subject has nothing left has ended.
proof fn lemma_walk_end_zero(before: StakeRows, cur: StakeRows, subject: int)
    requires
        walking(before, cur, subject, 0),
    ensures
        walked(before, cur, subject, 0),
{
    lemma_served_within_total(before, cur, subject);
    assert forall|i: int| 0 <= i < before.len() && i != subject implies #[trigger] cur[i]
        == matched_row(before, subject, i) by {
        if eligible(before, subject, i) {
            if cur[i].1.unmatched == 0 {
                lemma_served_row(before, cur, subject, 0, i);
            } else {
                lemma_waiting_row(before, cur, subject, 0, i);
                assert(fill(before, subject, i) == 0);
            }
        } else {
            assert(cur[i] == before[i]);
        }
    }
}

/// Serving the next row in part ends the walk.
proof fn lemma_walk_end_part(
    before: StakeRows,
    cur: StakeRows,
    subject: int,
    remaining: nat,
    m: int,
    next: StakeRows,
)
    requires
        walking(before, cur, subject, remaining),
        first_served(cur, subject, m),
        cur[m].1.unmatched > remaining,
        next == cur.update(m, with_unmatched(cur[m], (cur[m].1.unmatched - remaining) as Balance)),
    ensures
        walked(before, next, subject, 0),
{
    lemma_next_row(before, cur, subject, remaining, m);
    assert forall|i: int| 0 <= i < before.len() && i != subject implies #[trigger] next[i]
        == matched_row(before, subject, i) by {
        if i == m {
            assert(fill(before, subject, m) == remaining);
        } else {
            assert(next[i] == cur[i]);
            if eligible(before, subject, i) {
                if cur[i].1.unmatched == 0 {
                    lemma_served_row(before, cur, subject, remaining, i);
                } else {
                    lemma_waiting_row(before, cur, subject, remaining, i);
                    assert(served(before, cur, subject) + before[m].1.unmatched <= demand_before(
                        before,
                        subject,
                        i,
                    ));
                    assert(fill(before, subject, i) == 0);
                }
            } else {
                assert(cur[i] == before[i]);
            }
        }
    }
}

/// Lowering the unmatched amount of one row by `d` raises what is matched on
/// its bet and side by `d` and leaves every other total as it was.
pub proof fn lemma_matched_shift(rows: StakeRows, m: int, d: nat, next: StakeRows)
    requires
        0 <= m < rows.len(),
        d <= rows[m].1.unmatched <= rows[m].1.amount,
        next == rows.update(m, with_unmatched(rows[m], (rows[m].1.unmatched - d) as Balance)),
    ensures
        matched_sum(next, rows[m].1.bet_id, rows[m].1.position) == matched_sum(
            rows,
            rows[m].1.bet_id,
            rows[m].1.position,
        ) + d,
        forall|bet: Seq<char>, side: Position|
            !(bet == rows[m].1.bet_id && side == rows[m].1.position) ==> #[trigger] matched_sum(
                next,
                bet,
                side,
            ) == matched_sum(rows, bet, side),
{
    let n = rows.len() as int;
    let f = matched_term(rows, rows[m].1.bet_id, rows[m].1.position);
    let g = matched_term(next, rows[m].1.bet_id, rows[m].1.position);
    assert forall|i: int| 0 <= i < n && i != m implies #[trigger] f(i) == g(i) by {
        assert(next[i] == rows[i]);
    }
    assert(g(m) == f(m) + d);
    lemma_sum_raise(f, g, n, m, d);
    assert forall|bet: Seq<char>, side: Position|
        !(bet == rows[m].1.bet_id && side == rows[m].1.position) implies #[trigger] matched_sum(
        next,
        bet,
        side,
    ) == matched_sum(rows, bet, side) by {
        let f2 = matched_term(rows, bet, side);
        let g2 = matched_term(next, bet, side);
        assert forall|i: int| 0 <= i < n implies #[trigger] f2(i) == g2(i) by {
            if i != m {
                assert(next[i] == rows[i]);
            }
        }
        lemma_sum_ext(f2, g2, n);
    }
}

fn is_candidate(stakes: &Table<Stake>, subject: usize, q: usize) -> (ok: bool)
    requires
        subject < stakes@.len(),
        q < stakes@.len(),
    ensures
        ok == eligible(stakes@, subject as int, q as int),
{
    let own = &stakes.entries[subject].1;
    let other = &stakes.entries[q].1;
    q != subject && other.bet_id == own.bet_id && other.position != own.position
        && !other.gentlemans && other.unmatched > 0
}

fn next_candidate(stakes: &Table<Stake>, subject: usize) -> (found: Option<usize>)
    requires
        subject < stakes@.len(),
    ensures
        match found {
            Some(m) => m < stakes@.len() && first_served(stakes@, subject as int, m as int),
            None => forall|q: int| !eligible(stakes@, subject as int, q),
        },
{
    let mut best: Option<usize> = None;
    let mut i: usize = 0;
    while i < stakes.entries.len()
        invariant
            i <= stakes.entries@.len(),
            subject < stakes@.len(),
            match best {
                Some(m) => m < i && eligible(stakes@, subject as int, m as int) && forall|q: int|
                    0 <= q < i && eligible(stakes@, subject as int, q) && q != m ==> precedes(
                        stakes@,
                        m as int,
                        q,
                    ),
                None => forall|q: int| 0 <= q < i ==> !eligible(stakes@, subject as int, q),
            },
        decreases stakes.entries.len() - i,
    {
        if is_candidate(stakes, subject, i) {
            match best {
                None => {
                    best = Some(i);
                },
                Some(m) => {
                    if stakes.entries[i].1.unmatched < stakes.entries[m].1.unmatched {
                        best = Some(i);
                    }
                },
            }
        }
        i += 1;
    }
    best
}

/// The number of eligible rows.
pub open spec fn waiting(rows: StakeRows, subject: int) -> nat {
    sum_to(|q: int| if eligible(rows, subject, q) { 1nat } else { 0nat }, rows.len() as int)
}

proof fn lemma_waiting_drops(rows: StakeRows, subject: int, m: int, next: StakeRows)
    requires
        0 <= subject < rows.len(),
        eligible(rows, subject, m),
        next == rows.update(m, with_unmatched(rows[m], 0)),
    ensures
        waiting(next, subject) + 1 == waiting(rows, subject),
{
    assert(next[subject] == rows[subject]);
    let f = |q: int| if eligible(next, subject, q) { 1nat } else { 0nat };
    let g = |q: int| if eligible(rows, subject, q) { 1nat } else { 0nat };
    assert forall|i: int| 0 <= i < rows.len() && i != m implies #[trigger] f(i) == g(i) by {
        assert(next[i] == rows[i]);
    }
    lemma_sum_raise(f, g, rows.len() as int, m, 1);
}

/// Matches the stake under `stake_id`, if there is one and it takes part in
/// matching, against the stakes that oppose it on its bet.
pub fn match_in(stakes: &mut Table<Stake>, stake_id: &String)
    requires
        old(stakes).wf(),
        stakes_sound(old(stakes)@),
    ensures
        final(stakes)@ == matched_rows(old(stakes)@, stake_id@),
        final(stakes).wf(),
        stakes_sound(final(stakes)@),
        balanced(old(stakes)@) ==> balanced(final(stakes)@),
{
    let s = match stakes.position(stake_id) {
        Some(s) => s,
        None => {
            return ;
        },
    };
    if stakes.entries[s].1.gentlemans {
        return ;
    }
    let ghost before = stakes@;
    let ghost bet = before[s as int].1.bet_id;
    let ghost side = before[s as int].1.position;
    let have: Balance = stakes.entries[s].1.unmatched;
    let mut remaining: Balance = have;
    proof {
        lemma_walk_start(before, s as int);
    }
    loop
        invariant_except_break
            walking(before, stakes@, s as int, remaining as nat),
        invariant
            s < before.len(),
            stakes@.len() == before.len(),
            stakes_sound(before),
            have == before[s as int].1.unmatched,
            bet == before[s as int].1.bet_id,
            side == before[s as int].1.position,
            remaining <= have,
            matched_sum(stakes@, bet, opposite(side)) == matched_sum(before, bet, opposite(side))
                + (have - remaining),
            forall|b: Seq<char>, sd: Position|
                !(b == bet && sd == opposite(side)) ==> #[trigger] matched_sum(stakes@, b, sd)
                    == matched_sum(before, b, sd),
        ensures
            walked(before, stakes@, s as int, remaining as nat),
        decreases waiting(stakes@, s as int),
    {
        if remaining == 0 {
            proof {
                lemma_walk_end_zero(before, stakes@, s as int);
            }
            break ;
        }
        let m = match next_candidate(stakes, s) {
            Some(m) => m,
            None => {
                proof {
                    lemma_walk_end_none(before, stakes@, s as int, remaining as nat);
                }
                break ;
            },
        };
        let ghost cur = stakes@;
        let want: Balance = stakes.entries[m].1.unmatched;
        proof {
            lemma_next_row(before, cur, s as int, remaining as nat, m as int);
            assert(cur[m as int] == before[m as int]);
            assert(cur[m as int].1.position == opposite(side));
        }
        if want <= remaining {
            stakes.entries[m].1.unmatched = 0;
            proof {
                assert(stakes@ =~= cur.update(m as int, with_unmatched(cur[m as int], 0)));
                lemma_walk_full(before, cur, s as int, remaining as nat, m as int, stakes@);
                lemma_matched_shift(cur, m as int, want as nat, stakes@);
                lemma_waiting_drops(cur, s as int, m as int, stakes@);
            }
            remaining = remaining - want;
        } else {
            stakes.entries[m].1.unmatched = want - remaining;
            proof {
                assert(stakes@ =~= cur.update(
                    m as int,
                    with_unmatched(cur[m as int], (want - remaining) as Balance),
                ));
                lemma_walk_end_part(before, cur, s as int, remaining as nat, m as int, stakes@);
                lemma_matched_shift(cur, m as int, remaining as nat, stakes@);
            }
            remaining = 0;
            break ;
        }
    }
    let ghost cur = stakes@;
    stakes.entries[s].1.unmatched = remaining;
    proof {
        lemma_index_of(before, stake_id@);
        assert(stakes@ =~= cur.update(
            s as int,
            with_unmatched(cur[s as int], (have - (have - remaining)) as Balance),
        ));
        lemma_matched_shift(cur, s as int, (have - remaining) as nat, stakes@);
        assert(stakes@ =~= matched_rows(before, stake_id@));
        assert forall|i: int, j: int| 0 <= i < j < stakes@.len() implies (#[trigger] stakes@[i]).0
            != (#[trigger] stakes@[j]).0 by {
            assert(stakes@[i].0 == before[i].0);
            assert(stakes@[j].0 == before[j].0);
        }
        assert forall|i: int| 0 <= i < stakes@.len() implies {
            &&& (#[trigger] stakes@[i]).1.unmatched <= stakes@[i].1.amount
            &&& stakes@[i].1.gentlemans ==> stakes@[i].1.unmatched == stakes@[i].1.amount
        } by {
            assert(before[i].1.unmatched <= before[i].1.amount);
        }
        if balanced(before) {
            assert forall|b: Seq<char>| #[trigger]
                matched_sum(stakes@, b, Position::Back) == matched_sum(
                    stakes@,
                    b,
                    Position::Lay,
                ) by {
                assert(matched_sum(before, b, Position::Back) == matched_sum(
                    before,
                    b,
                    Position::Lay,
                ));
            }
        }
    }
}

/// What row `q` takes, if it is eligible.
pub open spec fn fill_term(rows: StakeRows, subject: int) -> spec_fn(int) -> nat {
    |q: int|
        if eligible(rows, subject, q) {
            fill(rows, subject, q)
        } else {
            0
        }
}

/// What all eligible rows take together.
pub open spec fn filled(rows: StakeRows, subject: int) -> nat {
    sum_to(fill_term(rows, subject), rows.len() as int)
}

/// A row is offered what the rows served before it have left: of two
/// eligible rows the later is served after all that the earlier has asked
/// for.
pub proof fn lemma_demand_grows(rows: StakeRows, subject: int, q: int, p: int)
    requires
        eligible(rows, subject, q),
        eligible(rows, subject, p),
        precedes(rows, q, p),
    ensures
        demand_before(rows, subject, q) + rows[q].1.unmatched <= demand_before(rows, subject, p),
{
    let f = demand_term(rows, subject, q);
    let h = |r: int| if r == q { rows[q].1.unmatched as nat } else { f(r) };
    assert(f(q) == 0);
    lemma_sum_raise(f, h, rows.len() as int, q, rows[q].1.unmatched as nat);
    assert forall|r: int| 0 <= r < rows.len() implies #[trigger] h(r) <= demand_term(
        rows,
        subject,
        p,
    )(r) by {}
    lemma_sum_le(h, demand_term(rows, subject, p), rows.len() as int);
}

/// The smaller opposition is closed first: when a row takes anything, every
/// eligible row that is served before it has taken all that it asked for.
pub proof fn lemma_smaller_first(rows: StakeRows, subject: int, q: int, p: int)
    requires
        eligible(rows, subject, q),
        eligible(rows, subject, p),
        precedes(rows, q, p),
    ensures
        fill(rows, subject, p) > 0 ==> fill(rows, subject, q) == rows[q].1.unmatched,
        fill(rows, subject, q) < rows[q].1.unmatched ==> fill(rows, subject, p) == 0,
{
    lemma_demand_grows(rows, subject, q, p);
}

/// The row among the first `n` that is served last, if any of them is
/// eligible.
proof fn lemma_last_served(rows: StakeRows, subject: int, n: int) -> (m: int)
    requires
        0 <= n <= rows.len(),
    ensures
        m == -1 ==> forall|q: int| 0 <= q < n ==> !eligible(rows, subject, q),
        m != -1 ==> 0 <= m < n && eligible(rows, subject, m) && forall|q: int|
            0 <= q < n && eligible(rows, subject, q) && q != m ==> precedes(rows, q, m),
    decreases n,
{
    if n == 0 {
        -1
    } else {
        let before = lemma_last_served(rows, subject, n - 1);
        if !eligible(rows, subject, n - 1) {
            before
        } else if before == -1 {
            n - 1
        } else if precedes(rows, before, n - 1) {
            n - 1
        } else {
            before
        }
    }
}

/// The fills add up: together the eligible rows take exactly what the
/// subject gives, which is all it has unmatched, or all that is asked for if
/// that is less.
pub proof fn lemma_fills_add_up(rows: StakeRows, subject: int)
    requires
        0 <= subject < rows.len(),
    ensures
        filled(rows, subject) == given(rows, subject),
    decreases waiting(rows, subject),
{
    let n = rows.len() as int;
    let p = lemma_last_served(rows, subject, n);
    if p == -1 {
        lemma_sum_zero(fill_term(rows, subject), n);
        lemma_sum_zero(total_term(rows, subject), n);
    } else {
        let less = rows.update(p, with_unmatched(rows[p], 0));
        assert(less[subject] == rows[subject]);
        lemma_waiting_drops(rows, subject, p, less);
        lemma_fills_add_up(less, subject);
        assert forall|i: int| 0 <= i < n && i != p implies (eligible(less, subject, i)
            <==> eligible(rows, subject, i)) && less[i] == rows[i] by {}
        // What is asked for in all.
        assert forall|i: int| 0 <= i < n && i != p implies #[trigger] total_term(less, subject)(i)
            == total_term(rows, subject)(i) by {}
        lemma_sum_raise(
            total_term(less, subject),
            total_term(rows, subject),
            n,
            p,
            rows[p].1.unmatched as nat,
        );
        // What is asked for before the last row is all that the others ask for.
        assert forall|q: int| 0 <= q < n implies #[trigger] demand_term(rows, subject, p)(q)
            == total_term(less, subject)(q) by {
            if q != p && eligible(rows, subject, q) {
                assert(precedes(rows, q, p));
            }
        }
        lemma_sum_ext(demand_term(rows, subject, p), total_term(less, subject), n);
        // What every other row takes is what it takes without the last row.
        assert forall|i: int| 0 <= i < n && i != p implies #[trigger] fill_term(less, subject)(i)
            == fill_term(rows, subject)(i) by {
            if eligible(rows, subject, i) {
                assert(precedes(rows, i, p));
                assert forall|q: int| 0 <= q < n implies #[trigger] demand_term(
                    less,
                    subject,
                    i,
                )(q) == demand_term(rows, subject, i)(q) by {
                    if q != p {
                        assert(less[q] == rows[q]);
                    }
                }
                lemma_sum_ext(demand_term(less, subject, i), demand_term(rows, subject, i), n);
            }
        }
        assert(fill_term(less, subject)(p) == 0);
        lemma_sum_raise(
            fill_term(less, subject),
            fill_term(rows, subject),
            n,
            p,
            fill(rows, subject, p),
        );
    }
}

/// The rule by which a stake is matched, read off the table afterwards.
///
/// The stake keeps what it had unmatched less what it gives, and it gives
/// all it has, or all that the opposition asks for if that is less. The
/// eligible rows take exactly that much between them. The smaller opposition
/// is closed first: when a row has taken anything, every eligible row that
/// is served before it has nothing left unmatched. So at most one row is
/// filled in part; the rows before it are closed, and the rows after it are
/// as they were.
pub proof fn lemma_allocation(rows: StakeRows, key: Seq<char>)
    requires
        has_key(rows, key),
        !rows[index_of(rows, key)].1.gentlemans,
    ensures
        ({
            let subject = index_of(rows, key);
            let after = matched_rows(rows, key);
            &&& after.len() == rows.len()
            &&& after[subject].1.unmatched == rows[subject].1.unmatched - given(rows, subject)
            &&& filled(rows, subject) == given(rows, subject)
            &&& forall|i: int|
                eligible(rows, subject, i) ==> (#[trigger] after[i]).1.unmatched
                    == rows[i].1.unmatched - fill(rows, subject, i)
            &&& forall|i: int|
                0 <= i < rows.len() && i != subject && !eligible(rows, subject, i)
                    ==> #[trigger] after[i] == rows[i]
            &&& forall|q: int, p: int|
                eligible(rows, subject, q) && eligible(rows, subject, p) && precedes(rows, q, p)
                    && (#[trigger] after[p]).1.unmatched < rows[p].1.unmatched ==> (
                #[trigger] after[q]).1.unmatched == 0
            &&& forall|q: int, p: int|
                eligible(rows, subject, q) && eligible(rows, subject, p) && q != p ==> !(0 < (
                #[trigger] after[q]).1.unmatched < rows[q].1.unmatched && 0 < (
                #[trigger] after[p]).1.unmatched < rows[p].1.unmatched)
        }),
{
    let subject = index_of(rows, key);
    let after = matched_rows(rows, key);
    lemma_index_of(rows, key);
    lemma_fills_add_up(rows, subject);
    assert forall|i: int| 0 <= i < rows.len() implies #[trigger] after[i] == matched_row(
        rows,
        subject,
        i,
    ) by {}
    assert forall|q: int, p: int|
        eligible(rows, subject, q) && eligible(rows, subject, p) && precedes(rows, q, p) && (
        #[trigger] after[p]).1.unmatched < rows[p].1.unmatched implies (
    #[trigger] after[q]).1.unmatched == 0 by {
        lemma_smaller_first(rows, subject, q, p);
    }
    assert forall|q: int, p: int|
        eligible(rows, subject, q) && eligible(rows, subject, p) && q != p implies !(0 < (
        #[trigger] after[q]).1.unmatched < rows[q].1.unmatched && 0 < (
        #[trigger] after[p]).1.unmatched < rows[p].1.unmatched) by {
        if precedes(rows, q, p) {
            lemma_smaller_first(rows, subject, q, p);
        } else {
            assert(precedes(rows, p, q));
            lemma_smaller_first(rows, subject, p, q);
        }
    }
}

/// No two stakes that could be matched with each other both have something
/// left unmatched.
pub open spec fn settled(rows: StakeRows) -> bool {
    forall|q: int, p: int|
        0 <= q < rows.len() && 0 <= p < rows.len() && (#[trigger] rows[q]).1.bet_id == (
        #[trigger] rows[p]).1.bet_id && rows[q].1.position != rows[p].1.position
            && !rows[q].1.gentlemans && !rows[p].1.gentlemans ==> rows[q].1.unmatched == 0
            || rows[p].1.unmatched == 0
}

/// As [`settled`], but for the pairs that do not involve row `subject`.
pub open spec fn settled_but(rows: StakeRows, subject: int) -> bool {
    forall|q: int, p: int|
        0 <= q < rows.len() && 0 <= p < rows.len() && q != subject && p != subject && (
        #[trigger] rows[q]).1.bet_id == (#[trigger] rows[p]).1.bet_id && rows[q].1.position
            != rows[p].1.position && !rows[q].1.gentlemans && !rows[p].1.gentlemans
            ==> rows[q].1.unmatched == 0 || rows[p].1.unmatched == 0
}

/// Matching touches nothing but unmatched amounts, and only lowers them.
///
/// For every stake, `amount - unmatched` is therefore at least what it was.
pub proof fn lemma_matching_only_lowers(rows: StakeRows, key: Seq<char>)
    ensures
        matched_rows(rows, key).len() == rows.len(),
        forall|i: int|
            0 <= i < rows.len() ==> {
                let after = #[trigger] matched_rows(rows, key)[i];
                &&& after == with_unmatched(rows[i], after.1.unmatched)
                &&& after.1.unmatched <= rows[i].1.unmatched
                &&& after.1.amount - after.1.unmatched >= rows[i].1.amount - rows[i].1.unmatched
            },
{
    let subject = index_of(rows, key);
    if has_key(rows, key) && !rows[subject].1.gentlemans {
        assert forall|i: int| 0 <= i < rows.len() implies {
            let after = #[trigger] matched_rows(rows, key)[i];
            &&& after == with_unmatched(rows[i], after.1.unmatched)
            &&& after.1.unmatched <= rows[i].1.unmatched
            &&& after.1.amount - after.1.unmatched >= rows[i].1.amount - rows[i].1.unmatched
        } by {
            assert(matched_rows(rows, key)[i] == matched_row(rows, subject, i));
        }
    }
}

/// A stake that opted out of matching is never changed by matching, whichever
/// stake is being matched.
pub proof fn lemma_gentlemans_untouched(rows: StakeRows, key: Seq<char>, i: int)
    requires
        0 <= i < rows.len(),
        rows[i].1.gentlemans,
    ensures
        matched_rows(rows, key)[i] == rows[i],
{
    let subject = index_of(rows, key);
    if has_key(rows, key) && !rows[subject].1.gentlemans {
        assert(matched_rows(rows, key)[i] == matched_row(rows, subject, i));
    }
}

/// Matching the same stake a second time, with no stake added in between,
/// changes nothing.
pub proof fn lemma_match_again(rows: StakeRows, key: Seq<char>)
    ensures
        matched_rows(matched_rows(rows, key), key) == matched_rows(rows, key),
{
    let subject = index_of(rows, key);
    let once = matched_rows(rows, key);
    if has_key(rows, key) && !rows[subject].1.gentlemans {
        lemma_index_of(rows, key);
        lemma_matching_only_lowers(rows, key);
        lemma_same_keys(once, rows, key);
        assert(once[subject] == matched_row(rows, subject, subject));
        assert forall|i: int| 0 <= i < rows.len() implies !eligible(once, subject, i) || given(
            rows,
            subject,
        ) == rows[subject].1.unmatched by {
            assert(once[i] == matched_row(rows, subject, i));
            if given(rows, subject) != rows[subject].1.unmatched {
                if eligible(rows, subject, i) {
                    lemma_demand_within_total(rows, subject, i);
                    assert(fill(rows, subject, i) == rows[i].1.unmatched);
                }
            }
        }
        if given(rows, subject) == rows[subject].1.unmatched {
            assert(once[subject].1.unmatched == 0);
            assert(given(once, subject) == 0);
            assert forall|i: int| 0 <= i < rows.len() implies matched_row(once, subject, i)
                == once[i] by {
                assert(offered(once, subject, i) == 0);
            }
        } else {
            lemma_sum_zero(total_term(once, subject), once.len() as int);
            assert(given(once, subject) == 0);
            assert forall|i: int| 0 <= i < rows.len() implies matched_row(once, subject, i)
                == once[i] by {}
        }
        assert(matched_rows(once, key) =~= once);
    }
}

/// In a settled table, matching any stake changes nothing.
pub proof fn lemma_settled_is_quiet(rows: StakeRows, key: Seq<char>)
    requires
        settled(rows),
    ensures
        matched_rows(rows, key) == rows,
{
    let subject = index_of(rows, key);
    if has_key(rows, key) && !rows[subject].1.gentlemans {
        lemma_index_of(rows, key);
        if rows[subject].1.unmatched == 0 {
            assert forall|i: int| 0 <= i < rows.len() implies matched_row(rows, subject, i)
                == rows[i] by {
                assert(offered(rows, subject, i) == 0);
            }
        } else {
            assert forall|i: int| 0 <= i < rows.len() implies !eligible(rows, subject, i) by {
                if eligible(rows, subject, i) {
                    assert(rows[i].1.unmatched == 0 || rows[subject].1.unmatched == 0);
                }
            }
            lemma_sum_zero(total_term(rows, subject), rows.len() as int);
            assert forall|i: int| 0 <= i < rows.len() implies matched_row(rows, subject, i)
                == rows[i] by {}
        }
        assert(matched_rows(rows, key) =~= rows);
    }
}

/// Matching the one stake that may still face open opposition settles the
/// table.
pub proof fn lemma_matching_settles(rows: StakeRows, key: Seq<char>)
    requires
        has_key(rows, key),
        settled_but(rows, index_of(rows, key)),
    ensures
        settled(matched_rows(rows, key)),
{
    let subject = index_of(rows, key);
    let after = matched_rows(rows, key);
    lemma_index_of(rows, key);
    lemma_matching_only_lowers(rows, key);
    assert forall|q: int, p: int|
        0 <= q < after.len() && 0 <= p < after.len() && (#[trigger] after[q]).1.bet_id == (
        #[trigger] after[p]).1.bet_id && after[q].1.position != after[p].1.position
            && !after[q].1.gentlemans && !after[p].1.gentlemans implies after[q].1.unmatched == 0
        || after[p].1.unmatched == 0 by {
        assert(after[q] == with_unmatched(rows[q], after[q].1.unmatched));
        assert(after[p] == with_unmatched(rows[p], after[p].1.unmatched));
        if q != subject && p != subject {
            assert(rows[q].1.unmatched == 0 || rows[p].1.unmatched == 0);
        } else {
            let other = if q == subject { p } else { q };
            assert(!rows[subject].1.gentlemans);
            assert(after[subject] == matched_row(rows, subject, subject));
            assert(after[other] == matched_row(rows, subject, other));
            if after[subject].1.unmatched != 0 && after[other].1.unmatched != 0 {
                assert(eligible(rows, subject, other));
                lemma_demand_within_total(rows, subject, other);
                assert(fill(rows, subject, other) == rows[other].1.unmatched);
            }
        }
    }
}

/// A part is at most the whole: what is matched on a side of a bet is at
/// most what is staked on it.
pub proof fn lemma_matched_within_amount(rows: StakeRows, bet: Seq<char>, side: Position)
    ensures
        matched_sum(rows, bet, side) <= amount_sum(rows, bet, side),
{
    assert forall|q: int| 0 <= q < rows.len() implies #[trigger] matched_term(rows, bet, side)(q)
        <= amount_term(rows, bet, side)(q) by {}
    lemma_sum_le(matched_term(rows, bet, side), amount_term(rows, bet, side), rows.len() as int);
}

/// In a balanced table, what is matched on a bet, on either side, is at most
/// the smaller of the two amounts staked on its sides.
pub proof fn lemma_matched_within_stakes(rows: StakeRows, bet: Seq<char>)
    requires
        balanced(rows),
    ensures
        matched_sum(rows, bet, Position::Back) == matched_sum(rows, bet, Position::Lay),
        matched_sum(rows, bet, Position::Back) <= amount_sum(rows, bet, Position::Back),
        matched_sum(rows, bet, Position::Back) <= amount_sum(rows, bet, Position::Lay),
{
    assert(matched_sum(rows, bet, Position::Back) == matched_sum(rows, bet, Position::Lay));
    lemma_matched_within_amount(rows, bet, Position::Back);
    lemma_matched_within_amount(rows, bet, Position::Lay);
}

/// Whatever has been staked and matched, as long as the table is sound and
/// balanced: on every bet the two sides have the same amount matched, this
/// amount is at most what is staked on either side, and no stake has more
/// unmatched than was staked.
pub proof fn lemma_matched_within_min(rows: StakeRows, bet: Seq<char>)
    requires
        stakes_sound(rows),
        balanced(rows),
    ensures
        matched_sum(rows, bet, Position::Back) == matched_sum(rows, bet, Position::Lay),
        matched_sum(rows, bet, Position::Back) <= if amount_sum(rows, bet, Position::Back)
            <= amount_sum(rows, bet, Position::Lay) {
            amount_sum(rows, bet, Position::Back)
        } else {
            amount_sum(rows, bet, Position::Lay)
        },
        forall|i: int|
            0 <= i < rows.len() ==> 0 <= (#[trigger] rows[i]).1.amount - rows[i].1.unmatched,
{
    lemma_matched_within_stakes(rows, bet);
}

/// With no stakes nothing is matched.
pub proof fn lemma_empty_balanced()
    ensures
        balanced(Seq::<(Seq<char>, StakeView)>::empty()),
        settled(Seq::<(Seq<char>, StakeView)>::empty()),
        stakes_sound(Seq::<(Seq<char>, StakeView)>::empty()),
{
}

} // verus!
