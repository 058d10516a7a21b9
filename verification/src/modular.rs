//! Arithmetic modulo the field's prime, as mathematical definitions and as
//! checked executable helpers over `u64` representatives.
//!
//! A field element is represented by its canonical representative: a `u64`
//! strictly below the modulus. The spec functions below are phrased so that,
//! for reduced operands, addition, negation and subtraction need no `%`
//! operator at all, which keeps the reasoning about the gadgets linear.

use vstd::prelude::*;
use vstd::arithmetic::div_mod::lemma_small_mod;

verus! {

/// `(a + b) mod p`, for reduced operands `0 <= a, b < p`.
pub open spec fn add_mod(a: int, b: int, p: int) -> int {
    if a + b < p {
        a + b
    } else {
        a + b - p
    }
}

/// `(-a) mod p`, for a reduced operand `0 <= a < p`.
pub open spec fn neg_mod(a: int, p: int) -> int {
    if a == 0 {
        0
    } else {
        p - a
    }
}

/// `(a - b) mod p`, for reduced operands.
pub open spec fn sub_mod(a: int, b: int, p: int) -> int {
    add_mod(a, neg_mod(b, p), p)
}

/// `(a * b) mod p`.
pub open spec fn mul_mod(a: int, b: int, p: int) -> int {
    (a * b) % p
}

/// Whether `d` has a multiplicative inverse modulo `p`.
pub open spec fn has_inverse(d: int, p: int) -> bool {
    exists|y: int| 0 <= y < p && #[trigger] mul_mod(d, y, p) == 1
}

/// The smallest multiplicative inverse of `d` modulo `p`, or `0` when none
/// exists (in particular for `d == 0`). This is the deterministic value the
/// witness solver assigns to a deferred inverse expression.
pub open spec fn inv_mod(d: int, p: int) -> int {
    if has_inverse(d, p) {
        choose|y: int|
            0 <= y < p && #[trigger] mul_mod(d, y, p) == 1 && forall|z: int|
                0 <= z < y ==> mul_mod(d, z, p) != 1
    } else {
        0
    }
}

/// `(a * b) mod p` is reduced, for any non-negative operands.
pub proof fn lemma_mul_mod_bounded(a: int, b: int, p: int)
    requires
        1 <= p,
        0 <= a,
        0 <= b,
    ensures
        0 <= mul_mod(a, b, p) < p,
{
    assert(0 <= a * b) by (nonlinear_arith)
        requires
            0 <= a,
            0 <= b,
    ;
    assert(0 <= (a * b) % p < p) by (nonlinear_arith)
        requires
            1 <= p,
            0 <= a * b,
    ;
}

/// Subtraction of reduced operands yields zero exactly when they are equal:
/// the difference cell of the equality gadget is a faithful equality witness.
pub proof fn lemma_sub_mod_zero_iff_eq(a: int, b: int, p: int)
    requires
        2 <= p,
        0 <= a < p,
        0 <= b < p,
    ensures
        sub_mod(a, b, p) == 0 <==> a == b,
{
}

/// Modular multiplication does not depend on the operand order.
pub proof fn lemma_mul_mod_comm(a: int, b: int, p: int)
    ensures
        mul_mod(a, b, p) == mul_mod(b, a, p),
{
    assert(a * b == b * a);
}

/// Multiplying by zero yields zero; multiplying a reduced value by one
/// yields it back.
pub proof fn lemma_mul_mod_units(a: int, p: int)
    requires
        2 <= p,
        0 <= a < p,
    ensures
        mul_mod(a, 0, p) == 0,
        mul_mod(0, a, p) == 0,
        mul_mod(a, 1, p) == a,
        mul_mod(1, a, p) == a,
{
    assert(a * 0 == 0);
    assert(0 * a == 0);
    assert(a * 1 == a);
    assert(1 * a == a);
    lemma_small_mod(0nat, p as nat);
    lemma_small_mod(a as nat, p as nat);
}

/// `(a + b) mod p` computed on representatives.
pub fn fe_add(a: u64, b: u64, p: u64) -> (r: u64)
    requires
        2 <= p,
        a < p,
        b < p,
    ensures
        r < p,
        r as int == add_mod(a as int, b as int, p as int),
{
    if b < p - a {
        a + b
    } else {
        a - (p - b)
    }
}

/// `(-a) mod p` computed on representatives.
pub fn fe_neg(a: u64, p: u64) -> (r: u64)
    requires
        2 <= p,
        a < p,
    ensures
        r < p,
        r as int == neg_mod(a as int, p as int),
{
    if a == 0 {
        0
    } else {
        p - a
    }
}

/// `(a - b) mod p` computed on representatives.
pub fn fe_sub(a: u64, b: u64, p: u64) -> (r: u64)
    requires
        2 <= p,
        a < p,
        b < p,
    ensures
        r < p,
        r as int == sub_mod(a as int, b as int, p as int),
{
    let nb = fe_neg(b, p);
    fe_add(a, nb, p)
}

/// `(a * b) mod p` computed on representatives, through a 128-bit product.
pub fn fe_mul(a: u64, b: u64, p: u64) -> (r: u64)
    requires
        2 <= p,
        a < p,
        b < p,
    ensures
        r < p,
        r as int == mul_mod(a as int, b as int, p as int),
{
    proof {
        assert(a as int * b as int <= 0xffffffffffffffffint * 0xffffffffffffffffint)
            by (nonlinear_arith)
            requires
                a <= 0xffffffffffffffffint,
                b <= 0xffffffffffffffffint,
                0 <= a,
                0 <= b,
        ;
        lemma_mul_mod_bounded(a as int, b as int, p as int);
    }
    let prod: u128 = (a as u128) * (b as u128);
    (prod % (p as u128)) as u64
}


/// A first-hit upward search pins down `inv_mod` exactly.
pub proof fn lemma_inv_mod_unique(d: int, p: int, y: int)
    requires
        2 <= p,
        0 <= y < p,
        mul_mod(d, y, p) == 1,
        forall|z: int| 0 <= z < y ==> mul_mod(d, z, p) != 1,
    ensures
        inv_mod(d, p) == y,
{
    assert(has_inverse(d, p));
    let yc = choose|yy: int|
        0 <= yy < p && #[trigger] mul_mod(d, yy, p) == 1 && forall|z: int|
            0 <= z < yy ==> mul_mod(d, z, p) != 1;
    assert(0 <= y < p && mul_mod(d, y, p) == 1 && (forall|z: int|
        0 <= z < y ==> mul_mod(d, z, p) != 1));
    assert(0 <= yc < p && mul_mod(d, yc, p) == 1 && (forall|z: int|
        0 <= z < yc ==> mul_mod(d, z, p) != 1));
    if yc < y {
        assert(mul_mod(d, yc, p) != 1);
    }
    if y < yc {
        assert(mul_mod(d, y, p) != 1);
    }
}

/// When no residue inverts `d`, the solver's fallback value is zero.
pub proof fn lemma_inv_mod_none(d: int, p: int)
    requires
        2 <= p,
        forall|z: int| 0 <= z < p ==> mul_mod(d, z, p) != 1,
    ensures
        inv_mod(d, p) == 0,
{
    assert(!has_inverse(d, p));
}

/// The deterministic witness-filling rule for a deferred inverse: the
/// smallest multiplicative inverse of `d` modulo `p`, found by upward
/// search, or zero when none exists — in particular, inverting zero never
/// fails but yields zero.
pub fn fe_inv_search(d: u64, p: u64) -> (r: u64)
    requires
        2 <= p,
        d < p,
    ensures
        r < p,
        r as int == inv_mod(d as int, p as int),
{
    let mut y: u64 = 0;
    while y < p
        invariant
            2 <= p,
            d < p,
            y <= p,
            forall|z: int| 0 <= z < y ==> mul_mod(d as int, z, p as int) != 1,
        decreases p - y,
    {
        let m = fe_mul(d, y, p);
        if m == 1 {
            proof {
                lemma_inv_mod_unique(d as int, p as int, y as int);
            }
            return y;
        }
        y = y + 1;
    }
    proof {
        lemma_inv_mod_none(d as int, p as int);
    }
    0
}

} // verus!
