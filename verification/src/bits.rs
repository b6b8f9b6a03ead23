use vstd::prelude::*;

verus! {

/// Number of set bits in the binary representation of `n`.
pub open spec fn popcount(n: nat) -> nat
    decreases n,
{
    if n == 0 {
        0
    } else {
        n % 2 + popcount(n / 2)
    }
}

/// For a byte-sized value the population count is the sum of its eight bits.
pub proof fn lemma_popcount_byte(n: nat)
    requires
        n < 256,
    ensures
        popcount(n) == n % 2 + n / 2 % 2 + n / 4 % 2 + n / 8 % 2 + n / 16 % 2 + n / 32 % 2 + n
            / 64 % 2 + n / 128,
        popcount(n) <= 8,
{
    assert(n / 2 / 2 == n / 4) by (nonlinear_arith);
    assert(n / 4 / 2 == n / 8) by (nonlinear_arith);
    assert(n / 8 / 2 == n / 16) by (nonlinear_arith);
    assert(n / 16 / 2 == n / 32) by (nonlinear_arith);
    assert(n / 32 / 2 == n / 64) by (nonlinear_arith);
    assert(n / 64 / 2 == n / 128) by (nonlinear_arith);
    assert(n / 128 / 2 == 0) by (nonlinear_arith)
        requires
            n < 256,
    ;
    assert(popcount(n) == n % 2 + popcount(n / 2));
    assert(popcount(n / 2) == n / 2 % 2 + popcount(n / 4));
    assert(popcount(n / 4) == n / 4 % 2 + popcount(n / 8));
    assert(popcount(n / 8) == n / 8 % 2 + popcount(n / 16));
    assert(popcount(n / 16) == n / 16 % 2 + popcount(n / 32));
    assert(popcount(n / 32) == n / 32 % 2 + popcount(n / 64));
    assert(popcount(n / 64) == n / 64 % 2 + popcount(n / 128));
    assert(popcount(n / 128) == n / 128 % 2 + popcount(0nat));
    assert(popcount(0nat) == 0);
    assert(n / 128 % 2 == n / 128);
}

/// Counts the set bits of one byte.
pub fn popcount8(b: u8) -> (r: u8)
    ensures
        r as nat == popcount(b as nat),
        r <= 8,
{
    proof {
        lemma_popcount_byte(b as nat);
    }
    b % 2 + b / 2 % 2 + b / 4 % 2 + b / 8 % 2 + b / 16 % 2 + b / 32 % 2 + b / 64 % 2 + b / 128
}

} // verus!
