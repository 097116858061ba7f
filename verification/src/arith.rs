//! Euclidean division helpers for signed coordinates.
//!
//! Rust's `/` and `%` on signed integers truncate toward zero; the world's
//! torus wrap-around needs the Euclidean quotient and remainder, whose
//! remainder is never negative.  In specifications `/` and `%` on `int`
//! are already Euclidean, so these functions are specified directly by them.
use vstd::prelude::*;
use vstd::arithmetic::div_mod::{lemma_fundamental_div_mod, lemma_fundamental_div_mod_converse};

verus! {

proof fn lemma_negative_euclid(a: int, b: int, tq: int, tr: int)
    requires
        b > 0,
        a < 0,
        tq == -((-a) / b),
        tr == -((-a) % b),
    ensures
        tr <= 0,
        tr > -b,
        tr < 0 ==> a % b == tr + b && a / b == tq - 1,
        tr == 0 ==> a % b == 0 && a / b == tq,
{
    let n = -a;
    lemma_fundamental_div_mod(n, b);
    assert(n == b * (n / b) + n % b);
    if n % b == 0 {
        assert(a == (-(n / b)) * b + 0) by (nonlinear_arith)
            requires n == b * (n / b) + n % b, n % b == 0, a == -n;
        lemma_fundamental_div_mod_converse(a, b, -(n / b), 0);
    } else {
        assert(a == (-(n / b) - 1) * b + (b - n % b)) by (nonlinear_arith)
            requires n == b * (n / b) + n % b, a == -n;
        lemma_fundamental_div_mod_converse(a, b, -(n / b) - 1, b - n % b);
    }
}

/// The least non-negative remainder of `a` modulo `b` (Euclidean remainder).
pub fn rem_euclid_i64(a: i64, b: i64) -> (r: i64)
    requires
        b > 0,
    ensures
        r == a % b,
        0 <= r < b,
{
    let q = a / b;
    let r = a % b;
    if a < 0 {
        proof {
            lemma_negative_euclid(a as int, b as int, q as int, r as int);
        }
    }
    if r < 0 {
        r + b
    } else {
        r
    }
}

/// The Euclidean quotient of `a` by `b`: the quotient that goes with the
/// non-negative remainder.
pub fn div_euclid_i64(a: i64, b: i64) -> (q: i64)
    requires
        b > 0,
    ensures
        q == a / b,
{
    let q = a / b;
    let r = a % b;
    if a < 0 {
        proof {
            lemma_negative_euclid(a as int, b as int, q as int, r as int);
        }
    }
    if r < 0 {
        assert(b >= 2);
        assert(((-(a as int)) / (b as int)) * 2 <= -(a as int)) by (nonlinear_arith)
            requires a < 0, b >= 2;
        q - 1
    } else {
        q
    }
}

} // verus!
