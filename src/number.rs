//! Lua numbers, held as the bits of an IEEE 754 double.
use vstd::prelude::*;

verus! {

/// Whether the double with these bits is neither infinite nor NaN.
pub open spec fn finite_bits(b: u64) -> bool {
    (b >> 52u64) & 0x7ffu64 != 0x7ffu64
}

/// The number of binary digits of `n`.
pub open spec fn bit_len(n: nat) -> nat
    decreases n,
{
    if n == 0 {
        0
    } else {
        1 + bit_len(n / 2)
    }
}

spec fn two_to(k: nat) -> nat
    decreases k,
{
    if k == 0 {
        1
    } else {
        2 * two_to((k - 1) as nat)
    }
}

/// The bits of the double whose value is the integer `i` (exact below 2^53).
pub open spec fn int_bits(i: u64) -> u64 {
    if i == 0 {
        0
    } else {
        let p = (bit_len(i as nat) - 1) as u64;
        (((1023 + p) as u64) << 52u64) | ((i << ((52 - p) as u64)) & 0xfffffffffffffu64)
    }
}

/// The double with these bits, truncated toward zero and saturated to the
/// range of `u32` (NaN gives zero).
pub open spec fn trunc_u32(b: u64) -> u32 {
    let exp = (b >> 52u64) & 0x7ffu64;
    let mant = b & 0xfffffffffffffu64;
    if exp == 0x7ff && mant != 0 {
        0
    } else if b >> 63u64 == 1 {
        0
    } else if exp >= 1055 {
        u32::MAX
    } else if exp < 1023 {
        0
    } else {
        ((mant | 0x10000000000000u64) >> ((1075 - exp) as u64)) as u32
    }
}

proof fn lemma_bit_len_bound(n: nat, k: nat)
    requires
        n < two_to(k),
    ensures
        bit_len(n) <= k,
    decreases k,
{
    if n > 0 {
        lemma_bit_len_bound(n / 2, (k - 1) as nat);
    }
}

/// The bits of the double whose value is `i`.
pub fn index_bits(i: u64) -> (r: u64)
    requires
        i < 0x20000000000000,
    ensures
        r == int_bits(i),
{
    if i == 0 {
        return 0;
    }
    proof {
        reveal_with_fuel(two_to, 54);
        assert(two_to(53) == 0x20000000000000);
        lemma_bit_len_bound(i as nat, 53);
    }
    let mut rest: u64 = i;
    let mut p: u64 = 0;
    while rest > 1
        invariant
            1 <= rest,
            p + bit_len(rest as nat) == bit_len(i as nat),
            bit_len(i as nat) <= 53,
        decreases rest,
    {
        assert(bit_len(rest as nat) == 1 + bit_len((rest / 2) as nat));
        rest = rest / 2;
        p = p + 1;
    }
    assert(bit_len(1) == 1) by {
        assert(bit_len(0) == 0);
    }
    ((1023 + p) << 52u64) | ((i << (52 - p)) & 0xfffffffffffffu64)
}

/// The double with bits `b`, truncated toward zero into a `u32`, saturating.
pub fn number_to_u32(b: u64) -> (r: u32)
    ensures
        r == trunc_u32(b),
{
    let exp = (b >> 52u64) & 0x7ffu64;
    let mant = b & 0xfffffffffffffu64;
    if exp == 0x7ff && mant != 0 {
        0
    } else if b >> 63u64 == 1 {
        0
    } else if exp >= 1055 {
        u32::MAX
    } else if exp < 1023 {
        0
    } else {
        ((mant | 0x10000000000000u64) >> (1075 - exp)) as u32
    }
}

/// Whether the double with bits `b` is finite.
pub fn is_finite_number(b: u64) -> (r: bool)
    ensures
        r == finite_bits(b),
{
    (b >> 52u64) & 0x7ffu64 != 0x7ffu64
}

} // verus!
