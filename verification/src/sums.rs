//! Finite sums of natural numbers over an index range.

use vstd::prelude::*;

verus! {

/// `f(0) + f(1) + ... + f(n - 1)`.
pub open spec fn sum_to(f: spec_fn(int) -> nat, n: int) -> nat
    decreases n,
{
    if n <= 0 {
        0
    } else {
        sum_to(f, n - 1) + f(n - 1)
    }
}

/// Sums of pointwise equal terms are equal.
pub proof fn lemma_sum_ext(f: spec_fn(int) -> nat, g: spec_fn(int) -> nat, n: int)
    requires
        forall|i: int| 0 <= i < n ==> #[trigger] f(i) == g(i),
    ensures
        sum_to(f, n) == sum_to(g, n),
    decreases n,
{
    if n > 0 {
        lemma_sum_ext(f, g, n - 1);
    }
}

/// A sum grows with its terms.
pub proof fn lemma_sum_le(f: spec_fn(int) -> nat, g: spec_fn(int) -> nat, n: int)
    requires
        forall|i: int| 0 <= i < n ==> #[trigger] f(i) <= g(i),
    ensures
        sum_to(f, n) <= sum_to(g, n),
    decreases n,
{
    if n > 0 {
        lemma_sum_le(f, g, n - 1);
    }
}

/// A sum of zeros is zero.
pub proof fn lemma_sum_zero(f: spec_fn(int) -> nat, n: int)
    requires
        forall|i: int| 0 <= i < n ==> #[trigger] f(i) == 0,
    ensures
        sum_to(f, n) == 0,
    decreases n,
{
    if n > 0 {
        lemma_sum_zero(f, n - 1);
    }
}

/// Raising one term by `d` raises the sum by `d`.
pub proof fn lemma_sum_raise(f: spec_fn(int) -> nat, g: spec_fn(int) -> nat, n: int, m: int, d: nat)
    requires
        0 <= m < n,
        g(m) == f(m) + d,
        forall|i: int| 0 <= i < n && i != m ==> #[trigger] f(i) == g(i),
    ensures
        sum_to(g, n) == sum_to(f, n) + d,
    decreases n,
{
    if n - 1 == m {
        lemma_sum_ext(f, g, n - 1);
    } else {
        lemma_sum_raise(f, g, n - 1, m, d);
    }
}

} // verus!
