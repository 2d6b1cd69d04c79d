//! How long a sender waits between two attempts.

use vstd::arithmetic::power2::*;
use vstd::prelude::*;

verus! {

/// The wait after attempt `attempt`, counted from nought: the base, doubled
/// for every attempt before.
pub open spec fn doubled(base_ms: u64, attempt: nat) -> int {
    base_ms * pow2(attempt)
}

/// The wait after an attempt, in milliseconds.
pub fn backoff_ms(base_ms: u64, attempt: u32) -> (r: u128)
    requires
        attempt < 64,
    ensures
        r == doubled(base_ms, attempt as nat),
{
    let mut r: u128 = base_ms as u128;
    let mut i: u32 = 0;
    proof {
        lemma2_to64();
        assert(pow2(0) == 1);
        assert(base_ms * 1 == base_ms) by (nonlinear_arith);
    }
    while i < attempt
        invariant
            i <= attempt < 64,
            r == doubled(base_ms, i as nat),
        decreases attempt - i,
    {
        proof {
            lemma_pow2_unfold((i + 1) as nat);
            lemma2_to64();
            lemma_pow2_strictly_increases((i + 1) as nat, 64);
            let p = pow2(i as nat);
            let q = pow2((i + 1) as nat);
            assert(base_ms * q <= 0xffff_ffff_ffff_ffff * 0x1_0000_0000_0000_0000)
                by (nonlinear_arith)
                requires
                    base_ms <= 0xffff_ffff_ffff_ffff,
                    q <= 0x1_0000_0000_0000_0000,
            ;
            assert(base_ms * q == 2 * (base_ms * p)) by (nonlinear_arith)
                requires
                    q == 2 * p,
            ;
        }
        r = r * 2;
        i += 1;
    }
    r
}

/// Each wait is twice the one before.
pub proof fn law_waits_double(base_ms: u64, attempt: nat)
    ensures
        doubled(base_ms, attempt + 1) == 2 * doubled(base_ms, attempt),
        doubled(base_ms, 0) == base_ms,
{
    lemma_pow2_unfold(attempt + 1);
    lemma2_to64();
    let p = pow2(attempt);
    assert(base_ms * (2 * p) == 2 * (base_ms * p)) by (nonlinear_arith);
    assert(base_ms * 1 == base_ms) by (nonlinear_arith);
}

} // verus!
