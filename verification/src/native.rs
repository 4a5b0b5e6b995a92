//! The reference computation: an iterative factorial with no interpreter at all.
//!
//! Every interpreter in this crate runs a program that must agree with
//! [`factorial_spec`], and [`factorial`] is the plain loop they are measured
//! against.

use vstd::prelude::*;

verus! {

/// The product `1 * 2 * ... * n`.
pub open spec fn factorial_spec(n: nat) -> nat
    decreases n,
{
    if n == 0 {
        1
    } else {
        n * factorial_spec((n - 1) as nat)
    }
}

/// The largest argument whose factorial fits in a `u32`.
pub const MAX_INPUT: u32 = 12;

/// The argument that `run` of every variant is fixed to.
pub const DEFAULT_INPUT: u32 = 10;

/// The factorials up to `MAX_INPUT`, one by one.
pub proof fn lemma_factorial_values()
    ensures
        factorial_spec(0) == 1,
        factorial_spec(1) == 1,
        factorial_spec(2) == 2,
        factorial_spec(3) == 6,
        factorial_spec(4) == 24,
        factorial_spec(5) == 120,
        factorial_spec(6) == 720,
        factorial_spec(7) == 5040,
        factorial_spec(8) == 40320,
        factorial_spec(9) == 362880,
        factorial_spec(10) == 3628800,
        factorial_spec(11) == 39916800,
        factorial_spec(12) == 479001600,
{
    reveal_with_fuel(factorial_spec, 14);
}

/// Factorials never shrink as the argument grows.
pub proof fn lemma_factorial_monotonic(i: nat, j: nat)
    requires
        i <= j,
    ensures
        1 <= factorial_spec(i) <= factorial_spec(j),
    decreases j,
{
    if j == 0 {
    } else if i == j {
        lemma_factorial_monotonic((i - 1) as nat, (j - 1) as nat);
        assert(factorial_spec((j - 1) as nat) <= j * factorial_spec((j - 1) as nat))
            by (nonlinear_arith)
            requires
                j >= 1,
                factorial_spec((j - 1) as nat) >= 1,
        ;
    } else {
        lemma_factorial_monotonic(i, (j - 1) as nat);
        assert(factorial_spec((j - 1) as nat) <= j * factorial_spec((j - 1) as nat))
            by (nonlinear_arith)
            requires
                j >= 1,
                factorial_spec((j - 1) as nat) >= 1,
        ;
    }
}

/// Up to `MAX_INPUT` every factorial fits in a `u32`.
pub proof fn lemma_factorial_fits(n: nat)
    requires
        n <= MAX_INPUT,
    ensures
        1 <= factorial_spec(n) <= 479001600,
{
    lemma_factorial_values();
    lemma_factorial_monotonic(n, 12);
}

/// Computes `n!` with a plain loop.
pub fn factorial(n: u32) -> (x: u32)
    requires
        n <= MAX_INPUT,
    ensures
        x == factorial_spec(n as nat),
{
    let mut x: u32 = 1;
    let mut i: u32 = 1;
    while i <= n
        invariant
            n <= MAX_INPUT,
            1 <= i <= n + 1,
            x == factorial_spec((i - 1) as nat),
        decreases n + 1 - i,
    {
        proof {
            lemma_factorial_fits(i as nat);
            assert(factorial_spec(i as nat) == i * factorial_spec((i - 1) as nat));
        }
        assert(x * i == factorial_spec(i as nat)) by (nonlinear_arith)
            requires
                x == factorial_spec((i - 1) as nat),
                factorial_spec(i as nat) == i * factorial_spec((i - 1) as nat),
        ;
        x = x * i;
        i = i + 1;
    }
    x
}

/// Computes the factorial of `DEFAULT_INPUT`.
pub fn run() -> (x: u32)
    ensures
        x == factorial_spec(DEFAULT_INPUT as nat),
        x == 3628800,
{
    proof {
        lemma_factorial_values();
    }
    factorial(DEFAULT_INPUT)
}

} // verus!
