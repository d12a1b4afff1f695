//! Scaling a balance by a ratio without intermediate overflow.

use vstd::prelude::*;
use vstd::arithmetic::div_mod::*;
use vstd::arithmetic::mul::*;

verus! {

/// `(q * den + r) * num / den == q * num + r * num / den`.
pub proof fn lemma_scale_split(q: int, r: int, num: int, den: int)
    requires
        den > 0,
        0 <= q,
        0 <= r < den,
        0 <= num,
    ensures
        ((q * den + r) * num) / den == q * num + (r * num) / den,
{
    let x = r * num;
    lemma_fundamental_div_mod(x, den);
    lemma_mod_bound(x, den);
    let k = q * num + x / den;
    assert((q * den + r) * num == den * k + x % den) by (nonlinear_arith)
        requires
            x == r * num,
            k == q * num + x / den,
            x == den * (x / den) + x % den,
    ;
    lemma_div_multiples_vanish_fancy(k, x % den, den);
}

/// Computes `floor(value * num / den)` exactly, although `value * num` may
/// exceed 128 bits.
pub fn scale(value: u128, num: u32, den: u32) -> (scaled: u128)
    requires
        den > 0,
        value * num / (den as int) <= u128::MAX,
    ensures
        scaled == value * num / (den as int),
{
    let q: u128 = value / (den as u128);
    let r: u128 = value % (den as u128);
    proof {
        lemma_fundamental_div_mod(value as int, den as int);
        lemma_scale_split(q as int, r as int, num as int, den as int);
        assert(value as int == q * den + r) by (nonlinear_arith)
            requires value as int == den * q + r;
        assert(0 <= r * num < 0x1_0000_0000 * 0x1_0000_0000) by (nonlinear_arith)
            requires 0 <= r < 0x1_0000_0000, 0 <= num < 0x1_0000_0000;
        assert(0 <= (r * num) / (den as int)) by {
            lemma_div_pos_is_pos(r * num, den as int);
        }
        assert(0 <= q * num) by (nonlinear_arith)
            requires 0 <= q, 0 <= num;
    }
    let high: u128 = q * (num as u128);
    let low: u128 = (r * (num as u128)) / (den as u128);
    high + low
}

} // verus!
