//! Triangle matrix operations: the triangular number and its basic laws.

use vstd::prelude::*;

verus! {

/// The n-th triangular number: the sum `0 + 1 + ... + n`, which is the number
/// of elements in a triangle whose longest row holds `n` elements.
///
/// Defined as `0` for negative arguments.
pub open spec fn spec_tri_num(n: int) -> int
    decreases n,
{
    if n <= 0 {
        0
    } else {
        n + spec_tri_num(n - 1)
    }
}

/// The triangular number in closed form: `tri_num(n) == n * (n + 1) / 2`.
pub proof fn lemma_tri_num_closed_form(n: int)
    requires
        0 <= n,
    ensures
        2 * spec_tri_num(n) == n * (n + 1),
        spec_tri_num(n) == n * (n + 1) / 2,
    decreases n,
{
    if n > 0 {
        lemma_tri_num_closed_form(n - 1);
        assert((n - 1) * n + 2 * n == n * (n + 1)) by (nonlinear_arith);
    }
    assert(2 * spec_tri_num(n) == n * (n + 1) ==> spec_tri_num(n) == n * (n + 1) / 2);
}

/// The triangular number grows with its argument, and at least as fast.
pub proof fn lemma_tri_num_is_monotonic(a: int, b: int)
    requires
        a <= b,
    ensures
        spec_tri_num(a) <= spec_tri_num(b),
        0 <= b ==> b <= spec_tri_num(b),
        0 <= a < b ==> spec_tri_num(a) < spec_tri_num(b),
    decreases b,
{
    if b > 0 {
        if a < b {
            lemma_tri_num_is_monotonic(a, b - 1);
        } else {
            lemma_tri_num_is_monotonic(a - 1, b - 1);
        }
    }
}

/// Between two arguments the triangular number grows by at least the gap
/// times the smaller argument plus one: every row added holds that many
/// elements or more.
pub proof fn lemma_tri_num_gap(a: int, b: int)
    requires
        0 <= a <= b,
    ensures
        spec_tri_num(b) - spec_tri_num(a) >= (b - a) * (a + 1),
    decreases b,
{
    if a < b {
        lemma_tri_num_gap(a, b - 1);
        assert((b - 1 - a) * (a + 1) + (a + 1) == (b - a) * (a + 1)) by (nonlinear_arith);
    } else {
        assert((b - a) * (a + 1) == 0) by (nonlinear_arith)
            requires
                a == b,
        ;
    }
}

/// Calculate the triangle number for `n`.
pub fn tri_num(n: usize) -> (r: usize)
    requires
        spec_tri_num(n as int) <= usize::MAX,
    ensures
        r == spec_tri_num(n as int),
{
    proof {
        lemma_tri_num_closed_form(n as int);
        lemma_tri_num_is_monotonic(n as int, n as int);
    }
    if n % 2 == 0 {
        let half = n / 2;
        assert(half * n + half == spec_tri_num(n as int)) by (nonlinear_arith)
            requires
                n % 2 == 0,
                half == n / 2,
                2 * spec_tri_num(n as int) == n * (n as int + 1),
        ;
        half * n + half
    } else {
        let half = (n - 1) / 2 + 1;
        assert(n * half == spec_tri_num(n as int)) by (nonlinear_arith)
            requires
                n % 2 == 1,
                half == (n - 1) / 2 + 1,
                2 * spec_tri_num(n as int) == n * (n as int + 1),
        ;
        n * half
    }
}

} // verus!
