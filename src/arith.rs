//! Two's-complement wrap-around of mathematical integers into `i32`.

use vstd::arithmetic::div_mod::{
    lemma_fundamental_div_mod, lemma_mod_multiples_vanish, lemma_small_mod,
};
use vstd::prelude::*;

verus! {

/// Number of distinct `i32` values.
pub open spec fn modulus() -> int {
    0x1_0000_0000
}

/// The `i32` that is congruent to `x` modulo 2^32, i.e. the value that
/// fixed-width signed arithmetic produces for the exact result `x`.
pub open spec fn wrap(x: int) -> i32 {
    let m = x % modulus();
    if m > i32::MAX {
        (m - modulus()) as i32
    } else {
        m as i32
    }
}

/// Wrapping leaves values that already fit unchanged.
pub proof fn lemma_wrap_id(x: int)
    requires
        i32::MIN <= x <= i32::MAX,
    ensures
        wrap(x) == x,
{
    if x >= 0 {
        lemma_small_mod(x as nat, modulus() as nat);
    } else {
        lemma_mod_multiples_vanish(1, x, modulus());
        lemma_small_mod((x + modulus()) as nat, modulus() as nat);
    }
}

/// Adding a multiple of 2^32 does not change the wrapped value.
pub proof fn lemma_wrap_shift(x: int, k: int)
    ensures
        wrap(x + modulus() * k) == wrap(x),
{
    lemma_mod_multiples_vanish(k, x, modulus());
    assert(modulus() * k + x == x + modulus() * k);
}

/// A wrapped value differs from the exact one by a multiple of 2^32.
pub proof fn lemma_wrap_congruent(x: int) -> (k: int)
    ensures
        wrap(x) == x + modulus() * k,
{
    lemma_fundamental_div_mod(x, modulus());
    let q = x / modulus();
    if x % modulus() > i32::MAX {
        -q - 1
    } else {
        -q
    }
}

/// Wrapping an operand before adding does not change the wrapped sum.
pub proof fn lemma_wrap_add_left(x: int, y: int)
    ensures
        wrap(wrap(x) + y) == wrap(x + y),
{
    let k = lemma_wrap_congruent(x);
    assert(wrap(x) + y == (x + y) + modulus() * k);
    lemma_wrap_shift(x + y, k);
}

/// Wrapping the right operand before adding does not change the wrapped sum.
pub proof fn lemma_wrap_add_right(x: int, y: int)
    ensures
        wrap(x + wrap(y)) == wrap(x + y),
{
    lemma_wrap_add_left(y, x);
}

/// `i32::wrapping_add` is the wrapped exact sum.
pub proof fn lemma_wrapping_add(a: i32, b: i32)
    ensures
        a.wrapping_add(b) == wrap(a + b),
{
    let s = a + b;
    if s > i32::MAX {
        lemma_wrap_id(s - modulus());
        lemma_wrap_shift(s - modulus(), 1);
    } else if s < i32::MIN {
        lemma_wrap_id(s + modulus());
        lemma_wrap_shift(s, 1);
    } else {
        lemma_wrap_id(s);
    }
}

/// `i32::wrapping_sub` is the wrapped exact difference.
pub proof fn lemma_wrapping_sub(a: i32, b: i32)
    ensures
        a.wrapping_sub(b) == wrap(a - b),
{
    let s = a - b;
    if s > i32::MAX {
        lemma_wrap_id(s - modulus());
        lemma_wrap_shift(s - modulus(), 1);
    } else if s < i32::MIN {
        lemma_wrap_id(s + modulus());
        lemma_wrap_shift(s, 1);
    } else {
        lemma_wrap_id(s);
    }
}

/// `i32::wrapping_mul` is the wrapped exact product.
pub proof fn lemma_wrapping_mul(a: i32, b: i32)
    ensures
        a.wrapping_mul(b) == wrap(a * b),
{
}

} // verus!
