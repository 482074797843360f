use vstd::prelude::*;

verus! {

pub const POW_TABLE_POWER_START: u64 = 128;

/// The smallest circuit-size parameter.
pub const MIN_K: u32 = 18;

/// The largest circuit-size parameter.
pub const MAX_K: u32 = 22;

/// The number of rows of a circuit of size `2^k` that hold values.
pub open spec fn rows(k: u32) -> int {
    pow2(k as nat) - 256
}

pub open spec fn pow2(n: nat) -> int
    decreases n,
{
    if n == 0 {
        1
    } else {
        2 * pow2((n - 1) as nat)
    }
}

/// Whether `k` is a circuit-size parameter that the prover accepts.
pub fn is_valid_k(k: u32) -> (r: bool)
    ensures
        r == (MIN_K <= k <= MAX_K),
{
    MIN_K <= k && k <= MAX_K
}

/// The range that values of a circuit of size `2^k` are checked against.
pub fn common_range(k: u32) -> (r: u32)
    requires
        8 <= k < 32,
    ensures
        r == rows(k),
{
    let p = 1u32 << k;
    assert(1u32 << k == pow2(k as nat)) by {
        lemma_shl_pow2(k);
    }
    assert(pow2(k as nat) >= 256) by {
        lemma_pow2_mono(8, k as nat);
        reveal_with_fuel(pow2, 9);
    }
    p - 256
}

/// The largest value in the common range.
pub fn common_range_max(k: u32) -> (r: u32)
    requires
        8 <= k < 32,
        rows(k) > 0,
    ensures
        r == rows(k) - 1,
{
    common_range(k) - 1
}

proof fn lemma_pow2_mono(a: nat, b: nat)
    requires
        a <= b,
    ensures
        pow2(a) <= pow2(b),
    decreases b,
{
    if a < b {
        lemma_pow2_mono(a, (b - 1) as nat);
        lemma_pow2_pos((b - 1) as nat);
    }
}

proof fn lemma_pow2_pos(n: nat)
    ensures
        pow2(n) >= 1,
    decreases n,
{
    if n > 0 {
        lemma_pow2_pos((n - 1) as nat);
    }
}

proof fn lemma_shl_pow2(k: u32)
    requires
        k < 32,
    ensures
        (1u32 << k) as int == pow2(k as nat),
    decreases k,
{
    if k == 0 {
        assert(1u32 << 0u32 == 1u32) by (bit_vector);
    } else {
        lemma_shl_pow2((k - 1) as u32);
        let j = (k - 1) as u32;
        assert(1u32 << k == 2 * (1u32 << j)) by (bit_vector)
            requires
                j < 31,
                k == j + 1,
        ;
    }
}

} // verus!
