use vstd::prelude::*;

use vstd::arithmetic::div_mod::{
    lemma_fundamental_div_mod,
    lemma_fundamental_div_mod_converse,
};

verus! {

/// Adding one to `x` either bumps its last digit in base `m` or wraps that
/// digit to zero and carries one into the quotient.
pub proof fn lemma_succ_div_mod(x: int, m: int)
    requires
        x >= 0,
        m > 0,
    ensures
        0 <= x % m < m,
        x / m >= 0,
        x % m + 1 < m ==> (x + 1) % m == x % m + 1 && (x + 1) / m == x / m,
        x % m + 1 == m ==> (x + 1) % m == 0 && (x + 1) / m == x / m + 1,
{
    lemma_fundamental_div_mod(x, m);
    assert(0 <= x % m < m);
    assert(x / m >= 0) by {
        vstd::arithmetic::div_mod::lemma_div_pos_is_pos(x, m);
    }
    if x % m + 1 < m {
        assert(x + 1 == (x / m) * m + (x % m + 1)) by (nonlinear_arith)
            requires
                x == m * (x / m) + (x % m),
        ;
        lemma_fundamental_div_mod_converse(x + 1, m, x / m, x % m + 1);
    } else {
        assert(x + 1 == (x / m + 1) * m + 0) by (nonlinear_arith)
            requires
                x == m * (x / m) + (x % m),
                x % m + 1 == m,
        ;
        lemma_fundamental_div_mod_converse(x + 1, m, x / m + 1, 0);
    }
}

/// The quotient and remainder of `q * m + r` for a digit `r` in base `m`.
pub proof fn lemma_div_mod_of(q: int, m: int, r: int)
    requires
        m > 0,
        0 <= r < m,
    ensures
        (q * m + r) / m == q,
        (q * m + r) % m == r,
{
    lemma_fundamental_div_mod_converse(q * m + r, m, q, r);
}

/// `x` split into its quotient and last digit in base `m`.
pub proof fn lemma_split(x: int, m: int)
    requires
        x >= 0,
        m > 0,
    ensures
        x == (x / m) * m + x % m,
        x / m >= 0,
        0 <= x % m < m,
{
    lemma_fundamental_div_mod(x, m);
    vstd::arithmetic::div_mod::lemma_div_pos_is_pos(x, m);
    assert(m * (x / m) == (x / m) * m) by (nonlinear_arith);
}

} // verus!
