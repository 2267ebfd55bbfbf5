//! Powers of two and the rounding of an index up to an alignment.

use crate::algorithms::bit_index::{
    bit_is_set, lemma_scans_find_extremes, lemma_word_has_no_high_bits, lowest_set_bit,
};
use vstd::arithmetic::div_mod::{
    lemma_fundamental_div_mod, lemma_mod_multiples_basic, lemma_mod_pos_bound,
};
use vstd::arithmetic::power2::{
    lemma2_to64, lemma2_to64_rest, lemma_pow2_pos, lemma_pow2_strictly_increases,
    lemma_pow2_unfold, pow2,
};
use vstd::bits::{
    lemma_usize_low_bits_mask_is_mod, lemma_usize_pow2_no_overflow, lemma_usize_shl_is_mul,
    low_bits_mask,
};
use vstd::prelude::*;

verus! {

/// `n` is 1, 2, 4, 8, and so on.
pub open spec fn is_power_of_two(n: nat) -> bool {
    exists|k: nat| n == pow2(k)
}

/// The smallest multiple of `align` that is not below `index`.
pub open spec fn align_up(index: nat, align: nat) -> nat
    recommends
        align > 0,
{
    (((index + align - 1) / (align as int)) * align) as nat
}

/// The smallest power of two that is not below `n`.
pub open spec fn power_of_two_ceiling(n: nat) -> nat
    decreases n,
{
    if n <= 1 {
        1
    } else {
        2 * power_of_two_ceiling((n + 1) / 2)
    }
}

/// `align_up(index, align)` is a multiple of `align`, not below `index` and below
/// `index + align`.
pub proof fn lemma_align_up(index: nat, align: nat)
    requires
        align > 0,
    ensures
        align_up(index, align) % align == 0,
        index <= align_up(index, align) < index + align,
{
    let x = (index + align - 1) as int;
    let a = align as int;
    lemma_fundamental_div_mod(x, a);
    lemma_mod_pos_bound(x, a);
    lemma_mod_multiples_basic(x / a, a);
    assert((x / a) * a == a * (x / a)) by (nonlinear_arith);
}

/// No other multiple of `align` lies from `index` up to, but not with, `index + align`.
pub proof fn lemma_align_up_is_unique(index: nat, align: nat, m: nat)
    requires
        align > 0,
        m % align == 0,
        index <= m < index + align,
    ensures
        m == align_up(index, align),
{
    let x = (index + align - 1) as int;
    let a = align as int;
    let mi = m as int;
    let up = align_up(index, align) as int;
    lemma_align_up(index, align);
    lemma_fundamental_div_mod(mi, a);
    lemma_fundamental_div_mod(up, a);
    assert(mi / a == up / a) by (nonlinear_arith)
        requires
            mi == a * (mi / a),
            up == a * (up / a),
            -a < mi - up < a,
            a > 0,
    ;
}

/// `power_of_two_ceiling(n)` is a power of two, it is not below `n`, and no power of two that
/// is not below `n` is smaller.
pub proof fn lemma_power_of_two_ceiling(n: nat)
    ensures
        is_power_of_two(power_of_two_ceiling(n)),
        n <= power_of_two_ceiling(n),
        forall|p: nat| is_power_of_two(p) && n <= p ==> power_of_two_ceiling(n) <= p,
    decreases n,
{
    if n <= 1 {
        lemma2_to64();
        assert(power_of_two_ceiling(n) == pow2(0));
        assert forall|p: nat| is_power_of_two(p) && n <= p implies power_of_two_ceiling(n) <= p by {
            let k = choose|k: nat| p == pow2(k);
            lemma_pow2_pos(k);
        }
    } else {
        let half = (n + 1) / 2;
        lemma_power_of_two_ceiling(half);
        let k = choose|k: nat| power_of_two_ceiling(half) == pow2(k);
        lemma_pow2_unfold(k + 1);
        assert(power_of_two_ceiling(n) == pow2(k + 1));
        assert forall|p: nat| is_power_of_two(p) && n <= p implies power_of_two_ceiling(n) <= p by {
            let j = choose|j: nat| p == pow2(j);
            if j == 0 {
                lemma2_to64();
            } else {
                lemma_pow2_unfold(j);
                let q = pow2((j - 1) as nat);
                assert(is_power_of_two(q));
                assert(half <= q);
            }
        }
    }
}

/// A machine word with exactly one bit, that one being bit `k`, is `1 << k`.
proof fn lemma_one_bit_word(v: u64, k: u64)
    by (bit_vector)
    requires
        k < 64,
        v != 0,
        v & ((v - 1) as u64) == 0,
        (v >> k) & 1 == 1,
    ensures
        v == 1u64 << k,
{
}

/// The word `1 << k` has exactly one bit.
proof fn lemma_shifted_one_has_one_bit(k: usize)
    by (bit_vector)
    requires
        k < usize::BITS,
    ensures
        1usize << k != 0,
        (1usize << k) & (((1usize << k) - 1) as usize) == 0,
{
}

/// The test with a mask tells, of a machine word, whether it is a power of two.
pub proof fn lemma_power_of_two_test(align: usize)
    ensures
        (align != 0 && align & ((align - 1) as usize) == 0) <==> is_power_of_two(align as nat),
{
    if align != 0 && align & ((align - 1) as usize) == 0 {
        let k = lemma_exponent(align);
    }
    if is_power_of_two(align as nat) {
        let k = choose|k: nat| align as nat == pow2(k);
        lemma_power_of_two_fits(align, k);
        lemma_usize_shl_is_mul(1, k as usize);
        lemma_shifted_one_has_one_bit(k as usize);
    }
}

/// A power of two that fits a machine word has an exponent below the word size.
proof fn lemma_power_of_two_fits(align: usize, k: nat)
    requires
        align == pow2(k),
    ensures
        k < usize::BITS,
{
    lemma2_to64();
    lemma2_to64_rest();
    if k >= usize::BITS {
        if k > usize::BITS {
            lemma_pow2_strictly_increases(usize::BITS as nat, k);
        }
    }
}

/// The exponent of a machine word that passes the test with a mask.
proof fn lemma_exponent(align: usize) -> (k: nat)
    requires
        align != 0,
        align & ((align - 1) as usize) == 0,
    ensures
        k < usize::BITS,
        align == pow2(k),
        align - 1 == low_bits_mask(k),
{
    let v = align as u64;
    lemma_scans_find_extremes(v);
    let k = lowest_set_bit(v);
    if k >= usize::BITS {
        lemma_word_has_no_high_bits(align, k);
    }
    assert(bit_is_set(v, k));
    let s = k as u64;
    assert(v & ((v - 1) as u64) == 0) by (bit_vector)
        requires
            v == align as u64,
            align != 0,
            align & ((align - 1) as usize) == 0,
    ;
    lemma_one_bit_word(v, s);
    lemma_usize_pow2_no_overflow(k);
    lemma_usize_shl_is_mul(1, k as usize);
    let w = 1usize << (k as usize);
    assert(w as u64 == 1u64 << s) by (bit_vector)
        requires
            w == 1usize << (s as usize),
            s < usize::BITS,
    ;
    k
}

/// Clearing the low bits of `index + align - 1` rounds `index` up to the power of two
/// `align`.
pub proof fn lemma_align_up_by_mask(index: usize, align: usize)
    requires
        align != 0,
        align & ((align - 1) as usize) == 0,
        index + align - 1 <= usize::MAX,
    ensures
        ((index + (align - 1)) as usize) & !((align - 1) as usize) == align_up(
            index as nat,
            align as nat,
        ),
{
    let k = lemma_exponent(align);
    let x = (index + (align - 1)) as usize;
    let mask = (align - 1) as usize;
    lemma_usize_low_bits_mask_is_mod(x, k);
    assert(x & mask == x % align);
    assert(x & !mask == x - (x & mask)) by (bit_vector);
    lemma_fundamental_div_mod(x as int, align as int);
    assert((x as int / align as int) * align == align * (x as int / align as int))
        by (nonlinear_arith);
}

/// An address has no bit in common with `align - 1` exactly when it is a multiple of the
/// power of two `align`.
pub proof fn lemma_aligned_by_mask(address: usize, align: usize)
    requires
        align != 0,
        align & ((align - 1) as usize) == 0,
    ensures
        (address & ((align - 1) as usize) == 0) <==> address % align == 0,
{
    let k = lemma_exponent(align);
    lemma_usize_low_bits_mask_is_mod(address, k);
}

} // verus!
