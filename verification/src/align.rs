//! Alignment helpers for addresses and sizes.
use vstd::prelude::*;

verus! {

/// The mask of the bits below a (power-of-two) alignment.
pub open spec fn low_mask(alignment: usize) -> usize {
    (alignment - 1) as usize
}

/// True when `x` is a power of two.
pub open spec fn is_pow2(x: usize) -> bool {
    x != 0 && x & low_mask(x) == 0
}

/// What `align_up` computes: add the mask, then clear the masked bits.
pub open spec fn align_up_spec(value: usize, alignment: usize) -> usize {
    ((value + low_mask(alignment)) as usize) & !low_mask(alignment)
}

/// Tests the low bits of `value` against `alignment`.
///
/// The result is `true` exactly when some bit of `value` below the
/// alignment is set, that is, when `value` is *not* a multiple of a
/// power-of-two `alignment`.
pub fn is_aligned(value: usize, alignment: usize) -> (r: bool)
    requires
        alignment >= 1,
    ensures
        r == (value & low_mask(alignment) != 0),
        is_pow2(alignment) ==> (r <==> value % alignment != 0),
{
    let a = alignment - 1;
    proof {
        if is_pow2(alignment) {
            lemma_low_mask_is_mod(value, alignment);
        }
    }
    (value & a) != 0
}

/// Rounds `value` up to the next multiple of `alignment`.
pub fn align_up(value: usize, alignment: usize) -> (r: usize)
    requires
        alignment >= 1,
        value + (alignment - 1) <= usize::MAX,
    ensures
        r == align_up_spec(value, alignment),
        is_pow2(alignment) ==> {
            &&& r % alignment == 0
            &&& value <= r
            &&& r < value + alignment
        },
{
    let a = alignment - 1;
    let r = (value + a) & !a;
    proof {
        if is_pow2(alignment) {
            lemma_align_up_pow2(value, alignment);
        }
    }
    r
}

/// For a power of two `n`, masking with `n - 1` keeps the remainder modulo `n`,
/// and clearing those bits rounds down to a multiple of `n`.
pub proof fn lemma_low_mask_is_mod(x: usize, n: usize)
    requires
        is_pow2(n),
    ensures
        x & low_mask(n) == x % n,
        (x & !low_mask(n)) == x - x % n,
    decreases n,
{
    let m = low_mask(n);
    let h = (n / 2) as usize;
    let hm = low_mask(h);
    assert((n == 1 ==> x & m == 0)
        && (n != 1 ==> n % 2 == 0 && h != 0 && h & hm == 0 && h * 2 == n
            && x & m == 2 * ((x / 2) & hm) + x % 2)
        && (x & !m) == x - (x & m)) by (bit_vector)
        requires
            n != 0,
            n & m == 0,
            m == (n - 1) as usize,
            h == n / 2,
            hm == (h - 1) as usize,
    ;
    if n != 1 {
        lemma_low_mask_is_mod((x / 2) as usize, h);
        vstd::arithmetic::div_mod::lemma_mod_breakdown(x as int, 2, h as int);
    }
}

/// The mask of the bits below a 64-bit alignment.
pub open spec fn low_mask_u64(alignment: u64) -> u64 {
    (alignment - 1) as u64
}

/// True when the 64-bit value `x` is a power of two.
pub open spec fn is_pow2_u64(x: u64) -> bool {
    x != 0 && x & low_mask_u64(x) == 0
}

/// The 64-bit form of [`lemma_low_mask_is_mod`].
pub proof fn lemma_low_mask_is_mod_u64(x: u64, n: u64)
    requires
        is_pow2_u64(n),
    ensures
        x & low_mask_u64(n) == x % n,
        (x & !low_mask_u64(n)) == x - x % n,
    decreases n,
{
    let m = low_mask_u64(n);
    let h = (n / 2) as u64;
    let hm = low_mask_u64(h);
    assert((n == 1 ==> x & m == 0)
        && (n != 1 ==> n % 2 == 0 && h != 0 && h & hm == 0 && h * 2 == n
            && x & m == 2 * ((x / 2) & hm) + x % 2)
        && (x & !m) == x - (x & m)) by (bit_vector)
        requires
            n != 0,
            n & m == 0,
            m == (n - 1) as u64,
            h == n / 2,
            hm == (h - 1) as u64,
    ;
    if n != 1 {
        lemma_low_mask_is_mod_u64((x / 2) as u64, h);
        vstd::arithmetic::div_mod::lemma_mod_breakdown(x as int, 2, h as int);
    }
}

/// Law: `align_up` lands on the least multiple of a power-of-two alignment
/// that is not below its input.
pub proof fn lemma_align_up_pow2(value: usize, alignment: usize)
    requires
        is_pow2(alignment),
        value + (alignment - 1) <= usize::MAX,
    ensures
        align_up_spec(value, alignment) % alignment == 0,
        value <= align_up_spec(value, alignment),
        align_up_spec(value, alignment) < value + alignment,
{
    let s = (value + low_mask(alignment)) as usize;
    lemma_low_mask_is_mod(s, alignment);
    let r = align_up_spec(value, alignment);
    assert(r == s - s % alignment);
    assert(r % alignment == 0) by {
        vstd::arithmetic::div_mod::lemma_fundamental_div_mod(s as int, alignment as int);
        vstd::arithmetic::div_mod::lemma_mod_multiples_basic(s as int / alignment as int, alignment as int);
        vstd::arithmetic::mul::lemma_mul_is_commutative(s as int / alignment as int, alignment as int);
    }
    assert(s % alignment < alignment) by {
        vstd::arithmetic::div_mod::lemma_mod_pos_bound(s as int, alignment as int);
    }
}

} // verus!
