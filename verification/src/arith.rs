//! Integer division and sums that must fit in 64 bits.

use vstd::prelude::*;

verus! {

/// Whether a number fits in `i64`.
pub open spec fn fits(n: int) -> bool {
    i64::MIN <= n <= i64::MAX
}

/// Division that rounds towards zero.
pub open spec fn div_trunc(a: int, b: int) -> int {
    if a < 0 {
        -((-a) / b)
    } else {
        a / b
    }
}

/// Quotient rounded down, for a positive divisor.
pub fn floor_div(a: i64, b: i64) -> (r: i64)
    requires
        b > 0,
    ensures
        r == a as int / b as int,
{
    if a >= 0 {
        a / b
    } else {
        let n: i64 = -(a + 1);
        let q: i64 = n / b;
        proof {
            assert(a as int / b as int == -1 - (n as int / b as int)) by (nonlinear_arith)
                requires
                    n == -(a + 1),
                    n >= 0,
                    b > 0,
            ;
            assert(0 <= n as int / b as int <= n) by (nonlinear_arith)
                requires
                    n >= 0,
                    b > 0,
            ;
        }
        -1 - q
    }
}

/// Remainder of the rounded-down quotient, for a positive divisor.
pub fn floor_mod(a: i64, b: i64) -> (r: i64)
    requires
        b > 0,
    ensures
        r == a as int % b as int,
        0 <= r < b,
{
    if a >= 0 {
        a % b
    } else {
        let n: i64 = -(a + 1);
        let m: i64 = n % b;
        proof {
            vstd::arithmetic::div_mod::lemma_fundamental_div_mod(n as int, b as int);
            let q = n as int / b as int;
            assert(a == (-q - 1) * b + (b - 1 - m)) by (nonlinear_arith)
                requires
                    n == b * q + m,
                    n == -(a + 1),
            ;
            vstd::arithmetic::div_mod::lemma_fundamental_div_mod_converse(
                a as int,
                b as int,
                -q - 1,
                b - 1 - m,
            );
        }
        b - 1 - m
    }
}

/// Quotient rounded towards zero, for a positive divisor.
pub fn trunc_div(a: i64, b: i64) -> (r: i64)
    requires
        b > 0,
    ensures
        r == div_trunc(a as int, b as int),
{
    if a >= 0 {
        a / b
    } else {
        let n: i128 = -(a as i128);
        let q: i128 = n / (b as i128);
        proof {
            assert(0 <= n as int / b as int <= n) by (nonlinear_arith)
                requires
                    n >= 0,
                    b > 0,
            ;
        }
        (-q) as i64
    }
}

/// The sum of a sequence of numbers.
pub open spec fn sum(s: Seq<int>) -> int
    decreases s.len(),
{
    if s.len() == 0 {
        0
    } else {
        sum(s.drop_last()) + s.last()
    }
}

/// Whether adding the numbers up from the left never leaves the range of `i64`.
pub open spec fn sum_fits(s: Seq<int>) -> bool {
    forall|k: int| 0 <= k <= s.len() ==> fits(sum(#[trigger] s.take(k)))
}

/// One step of a running sum.
pub proof fn lemma_sum_step(s: Seq<int>, k: int)
    requires
        0 <= k < s.len(),
    ensures
        sum(s.take(k + 1)) == sum(s.take(k)) + s[k],
{
    assert(s.take(k + 1).drop_last() =~= s.take(k));
}

} // verus!
