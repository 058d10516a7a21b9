//! The arithmetic, equality and selection gadgets.
//!
//! Every function lowers one scalar or compound operation to backend gates,
//! constant-folding whenever the result is decidable at compile time. Each
//! contract states, for every witness consistent with the grown circuit,
//! the value the result takes in terms of the operands' values — so the
//! emitted constraints are proved to capture the operation exactly.

use vstd::prelude::*;

use crate::backend::{
    cell_holds, lemma_consistent_extends, lemma_extends_trans, lemma_scalar_ok_extends,
    lemma_scalar_value_bounded, lc_mod, scalar_value, var_values, CellDef, CircuitWriter,
    Constraint, Value,
};
use crate::modular::{
    add_mod, fe_add, fe_mul, fe_neg, lemma_mul_mod_comm, lemma_mul_mod_units, mul_mod, neg_mod,
    sub_mod,
};
use crate::var::{ConstOrCell, Span, Var};

verus! {

/// Negates a field element. A constant folds with no backend interaction; a
/// cell gets a negation gate.
pub fn neg(compiler: &mut CircuitWriter, cvar: &ConstOrCell, span: Span) -> (res: Var)
    requires
        old(compiler).wf(),
        old(compiler).scalar_ok(*cvar),
    ensures
        final(compiler).wf(),
        final(compiler).extends(*old(compiler)),
        final(compiler).n_inputs == old(compiler).n_inputs,
        final(compiler).constraints@ == old(compiler).constraints@,
        final(compiler).cells@.len() <= old(compiler).cells@.len() + 1,
        res.cvars@.len() == 1,
        final(compiler).scalar_ok(res.cvars@[0]),
        res.span == span,
        forall|w: Seq<u64>|
            #[trigger] final(compiler).consistent(w) ==> scalar_value(res.cvars@[0], w) as int
                == neg_mod(scalar_value(*cvar, w) as int, final(compiler).modulus as int),
        cvar matches ConstOrCell::Const(c) ==> final(compiler).same_state(*old(compiler)) && (
        res.cvars@[0] matches ConstOrCell::Const(r) && r as int == neg_mod(
            c as int,
            old(compiler).modulus as int,
        )),
        cvar matches ConstOrCell::Cell(v) ==> (final(compiler).cells@ == old(
            compiler,
        ).cells@.push(CellDef::Neg(*v)) && res.cvars@[0] == ConstOrCell::Cell(
            old(compiler).cells@.len() as usize,
        )),
{
    match cvar {
        ConstOrCell::Const(ff) => {
            let r = fe_neg(*ff, compiler.modulus);
            Var::new_constant(r, span)
        },
        ConstOrCell::Cell(v) => {
            let r = compiler.neg(*v, span);
            Var::new_var(r, span)
        },
    }
}

/// Adds two field elements. Two constants fold; adding the additive
/// identity to a cell returns the cell itself with no gate (the result's
/// provenance is the call site's span, a deliberate imprecision); otherwise
/// an add-constant or general addition gate is emitted.
pub fn add(compiler: &mut CircuitWriter, lhs: &ConstOrCell, rhs: &ConstOrCell, span: Span) -> (res:
    Var)
    requires
        old(compiler).wf(),
        old(compiler).scalar_ok(*lhs),
        old(compiler).scalar_ok(*rhs),
    ensures
        final(compiler).wf(),
        final(compiler).extends(*old(compiler)),
        final(compiler).n_inputs == old(compiler).n_inputs,
        final(compiler).constraints@ == old(compiler).constraints@,
        final(compiler).cells@.len() <= old(compiler).cells@.len() + 1,
        res.cvars@.len() == 1,
        final(compiler).scalar_ok(res.cvars@[0]),
        res.span == span,
        forall|w: Seq<u64>|
            #[trigger] final(compiler).consistent(w) ==> scalar_value(res.cvars@[0], w) as int
                == add_mod(
                scalar_value(*lhs, w) as int,
                scalar_value(*rhs, w) as int,
                final(compiler).modulus as int,
            ),
        lhs matches ConstOrCell::Const(a) ==> rhs matches ConstOrCell::Const(b) ==> (final(
            compiler).same_state(*old(compiler)) && (res.cvars@[0] matches ConstOrCell::Const(r)
            && r as int == add_mod(a as int, b as int, old(compiler).modulus as int))),
        lhs matches ConstOrCell::Const(c) ==> rhs matches ConstOrCell::Cell(x) ==> c == 0 ==> (
            final(compiler).same_state(*old(compiler)) && res.cvars@[0] == *rhs),
        rhs matches ConstOrCell::Const(c) ==> lhs matches ConstOrCell::Cell(x) ==> c == 0 ==> (
            final(compiler).same_state(*old(compiler)) && res.cvars@[0] == *lhs),
        lhs matches ConstOrCell::Cell(a) ==> rhs matches ConstOrCell::Cell(b) ==> (final(
            compiler).cells@ == old(compiler).cells@.push(CellDef::Add(*a, *b)) && res.cvars@[0]
            == ConstOrCell::Cell(old(compiler).cells@.len() as usize)),
        lhs matches ConstOrCell::Const(c) ==> rhs matches ConstOrCell::Cell(v) ==> c != 0 ==> (
            final(compiler).cells@ == old(compiler).cells@.push(CellDef::AddConst(*v, *c))
            && res.cvars@[0] == ConstOrCell::Cell(old(compiler).cells@.len() as usize)),
        rhs matches ConstOrCell::Const(c) ==> lhs matches ConstOrCell::Cell(v) ==> c != 0 ==> (
            final(compiler).cells@ == old(compiler).cells@.push(CellDef::AddConst(*v, *c))
            && res.cvars@[0] == ConstOrCell::Cell(old(compiler).cells@.len() as usize)),
{
    match (lhs, rhs) {
        (ConstOrCell::Const(a), ConstOrCell::Const(b)) => {
            let r = fe_add(*a, *b, compiler.modulus);
            Var::new_constant(r, span)
        },
        (ConstOrCell::Const(cst), ConstOrCell::Cell(cvar)) | (
            ConstOrCell::Cell(cvar),
            ConstOrCell::Const(cst),
        ) => {
            // adding zero is the identity: no gate
            if *cst == 0 {
                return Var::new_var(*cvar, span);
            }
            let r = compiler.add_const(*cvar, *cst, span);
            Var::new_var(r, span)
        },
        (ConstOrCell::Cell(l), ConstOrCell::Cell(r)) => {
            let i = compiler.add(*l, *r, span);
            Var::new_var(i, span)
        },
    }
}

/// Subtracts two field elements: `lhs + (-rhs)`, folding like `add`.
pub fn sub(compiler: &mut CircuitWriter, lhs: &ConstOrCell, rhs: &ConstOrCell, span: Span) -> (res:
    Var)
    requires
        old(compiler).wf(),
        old(compiler).scalar_ok(*lhs),
        old(compiler).scalar_ok(*rhs),
    ensures
        final(compiler).wf(),
        final(compiler).extends(*old(compiler)),
        final(compiler).n_inputs == old(compiler).n_inputs,
        final(compiler).constraints@ == old(compiler).constraints@,
        final(compiler).cells@.len() <= old(compiler).cells@.len() + 2,
        res.cvars@.len() == 1,
        final(compiler).scalar_ok(res.cvars@[0]),
        res.span == span,
        forall|w: Seq<u64>|
            #[trigger] final(compiler).consistent(w) ==> scalar_value(res.cvars@[0], w) as int
                == sub_mod(
                scalar_value(*lhs, w) as int,
                scalar_value(*rhs, w) as int,
                final(compiler).modulus as int,
            ),
        lhs matches ConstOrCell::Const(a) ==> rhs matches ConstOrCell::Const(b) ==> (final(
            compiler).same_state(*old(compiler)) && (res.cvars@[0] matches ConstOrCell::Const(r)
            && r as int == sub_mod(a as int, b as int, old(compiler).modulus as int))),
{
    let neg_rhs = neg(compiler, rhs, span);
    let ghost mid = *compiler;
    let neg_scalar = neg_rhs.cvar(0);
    proof {
        lemma_scalar_ok_extends(mid, *old(compiler), *lhs);
    }
    let res = crate::field::add(compiler, lhs, &neg_scalar, span);
    proof {
        assert forall|w: Seq<u64>| #[trigger] final(compiler).consistent(w) implies scalar_value(
            res.cvars@[0],
            w,
        ) as int == sub_mod(
            scalar_value(*lhs, w) as int,
            scalar_value(*rhs, w) as int,
            final(compiler).modulus as int,
        ) by {
            lemma_consistent_extends(*compiler, mid, w);
        }
    }
    res
}

/// Multiplies two field elements. Two constants fold; a zero constant
/// short-circuits to the zero constant with no gate; otherwise a
/// multiply-by-constant or general multiplication gate is emitted.
pub fn mul(compiler: &mut CircuitWriter, lhs: &ConstOrCell, rhs: &ConstOrCell, span: Span) -> (res:
    Var)
    requires
        old(compiler).wf(),
        old(compiler).scalar_ok(*lhs),
        old(compiler).scalar_ok(*rhs),
    ensures
        final(compiler).wf(),
        final(compiler).extends(*old(compiler)),
        final(compiler).n_inputs == old(compiler).n_inputs,
        final(compiler).constraints@ == old(compiler).constraints@,
        final(compiler).cells@.len() <= old(compiler).cells@.len() + 1,
        res.cvars@.len() == 1,
        final(compiler).scalar_ok(res.cvars@[0]),
        res.span == span,
        forall|w: Seq<u64>|
            #[trigger] final(compiler).consistent(w) ==> scalar_value(res.cvars@[0], w) as int
                == mul_mod(
                scalar_value(*lhs, w) as int,
                scalar_value(*rhs, w) as int,
                final(compiler).modulus as int,
            ),
        lhs matches ConstOrCell::Const(a) ==> rhs matches ConstOrCell::Const(b) ==> (final(
            compiler).same_state(*old(compiler)) && (res.cvars@[0] matches ConstOrCell::Const(r)
            && r as int == mul_mod(a as int, b as int, old(compiler).modulus as int))),
        lhs matches ConstOrCell::Const(c) ==> c == 0 ==> (final(compiler).same_state(
            *old(compiler)) && res.cvars@[0] == ConstOrCell::Const(0)),
        rhs matches ConstOrCell::Const(c) ==> c == 0 ==> (final(compiler).same_state(
            *old(compiler)) && res.cvars@[0] == ConstOrCell::Const(0)),
        lhs matches ConstOrCell::Cell(a) ==> rhs matches ConstOrCell::Cell(b) ==> (final(
            compiler).cells@ == old(compiler).cells@.push(CellDef::Mul(*a, *b)) && res.cvars@[0]
            == ConstOrCell::Cell(old(compiler).cells@.len() as usize)),
        lhs matches ConstOrCell::Const(c) ==> rhs matches ConstOrCell::Cell(v) ==> c != 0 ==> (
            final(compiler).cells@ == old(compiler).cells@.push(CellDef::MulConst(*v, *c))
            && res.cvars@[0] == ConstOrCell::Cell(old(compiler).cells@.len() as usize)),
        rhs matches ConstOrCell::Const(c) ==> lhs matches ConstOrCell::Cell(v) ==> c != 0 ==> (
            final(compiler).cells@ == old(compiler).cells@.push(CellDef::MulConst(*v, *c))
            && res.cvars@[0] == ConstOrCell::Cell(old(compiler).cells@.len() as usize)),
{
    let ghost p = compiler.modulus as int;
    match (lhs, rhs) {
        (ConstOrCell::Const(a), ConstOrCell::Const(b)) => {
            let r = fe_mul(*a, *b, compiler.modulus);
            proof {
                if *a == 0 || *b == 0 {
                    lemma_mul_mod_units(if *a == 0 {
                        *b as int
                    } else {
                        *a as int
                    }, p);
                }
            }
            Var::new_constant(r, span)
        },
        (ConstOrCell::Const(cst), ConstOrCell::Cell(cvar)) | (
            ConstOrCell::Cell(cvar),
            ConstOrCell::Const(cst),
        ) => {
            // multiplying by zero is decidable at compile time: no gate
            if *cst == 0 {
                proof {
                    assert forall|w: Seq<u64>| #[trigger] compiler.consistent(w) implies mul_mod(
                        scalar_value(*lhs, w) as int,
                        scalar_value(*rhs, w) as int,
                        p,
                    ) == 0 by {
                        lemma_mul_mod_units(scalar_value(ConstOrCell::Cell(*cvar), w) as int, p);
                    }
                }
                return Var::new_constant(*cst, span);
            }
            let r = compiler.mul_const(*cvar, *cst, span);
            proof {
                assert forall|w: Seq<u64>| #[trigger] compiler.consistent(w) implies w[r as int] as int == mul_mod(scalar_value(*lhs, w) as int, scalar_value(*rhs, w) as int, p)
                    by {
                    lemma_mul_mod_comm(w[*cvar as int] as int, *cst as int, p);
                }
            }
            Var::new_var(r, span)
        },
        (ConstOrCell::Cell(l), ConstOrCell::Cell(r)) => {
            let i = compiler.mul(*l, *r, span);
            Var::new_var(i, span)
        },
    }
}


/// The canonical four-constraint equality gadget stands appended in `post`,
/// its cells starting at index `base` and its constraints at index `cbase`,
/// comparing the cells `x1` and `x2`: the difference, its deferred inverse,
/// their product, the deferred result `res = 1 - product` (cell `base + 3`,
/// which the gadget returns), the recomputed `1 - res`, the assertion that
/// the product equals it, and the product `res * diff` asserted zero.
/// Nothing may add to or drop from this shape.
pub open spec fn equality_gadget_appended(
    post: CircuitWriter,
    base: int,
    cbase: int,
    x1: int,
    x2: int,
) -> bool {
    let p = post.modulus as int;
    &&& post.cells@.len() == base + 7
    &&& post.cells@[base] == CellDef::Sub(x2 as usize, x1 as usize)
    &&& post.cells@[base + 1] == CellDef::Internal(Value::Inverse(base as usize))
    &&& post.cells@[base + 2] == CellDef::Mul((base + 1) as usize, base as usize)
    &&& (post.cells@[base + 3] matches CellDef::Internal(Value::LinearCombination(ts, k)) && ts@
        =~= seq![(((p - 1) as u64), ((base + 2) as usize))] && k == 1)
    &&& post.cells@[base + 4] == CellDef::Neg((base + 3) as usize)
    &&& post.cells@[base + 5] == CellDef::AddConst((base + 4) as usize, 1)
    &&& post.cells@[base + 6] == CellDef::Mul((base + 3) as usize, base as usize)
    &&& post.constraints@.len() == cbase + 2
    &&& post.constraints@[cbase] == Constraint::EqVar((base + 2) as usize, (base + 5) as usize)
    &&& post.constraints@[cbase + 1] == Constraint::EqConst((base + 6) as usize, 0)
}

/// Returns a boolean-valued scalar set to 1 if `x1` equals `x2`, 0
/// otherwise. Two constants fold with no gate. Otherwise any constant
/// operand is first pinned in-circuit, and the canonical four-constraint
/// equality gadget is emitted:
///
/// 1. `diff = x2 - x1`
/// 2. `diff_inv * diff = one_minus_res`
/// 3. `one_minus_res = 1 - res`
/// 4. `res * diff = 0`
///
/// If `diff = 0` the deferred expression of `res` forces `res = 1`
/// whatever value stands in for the inverse of zero; if `diff != 0` the
/// inverse rule forces `diff_inv * diff = 1` and so `res = 0`.
pub fn equal_cells(compiler: &mut CircuitWriter, x1: &ConstOrCell, x2: &ConstOrCell, span: Span) -> (res: Var)
    requires
        old(compiler).wf(),
        old(compiler).scalar_ok(*x1),
        old(compiler).scalar_ok(*x2),
    ensures
        final(compiler).wf(),
        final(compiler).extends(*old(compiler)),
        final(compiler).n_inputs == old(compiler).n_inputs,
        final(compiler).cells@.len() <= old(compiler).cells@.len() + 9,
        final(compiler).constraints@.len() <= old(compiler).constraints@.len() + 2,
        res.cvars@.len() == 1,
        final(compiler).scalar_ok(res.cvars@[0]),
        res.span == span,
        forall|w: Seq<u64>|
            #[trigger] final(compiler).consistent(w) ==> scalar_value(res.cvars@[0], w) == (
            if scalar_value(*x1, w) == scalar_value(*x2, w) {
                1u64
            } else {
                0u64
            }),
        x1 matches ConstOrCell::Const(a) ==> x2 matches ConstOrCell::Const(b) ==> (final(
            compiler).same_state(*old(compiler)) && res.cvars@[0] == ConstOrCell::Const(
            if a == b {
                1u64
            } else {
                0u64
            })),
        x1 is Cell || x2 is Cell ==> (final(compiler).constraints@.len() == old(
            compiler,
        ).constraints@.len() + 2 && final(compiler).cells@.len() == old(compiler).cells@.len() + 7
            + (if x1 is Const {
            1int
        } else {
            0int
        }) + (if x2 is Const {
            1int
        } else {
            0int
        })),
        x1 matches ConstOrCell::Cell(a) ==> x2 matches ConstOrCell::Cell(b) ==> (
        equality_gadget_appended(
            *final(compiler),
            old(compiler).cells@.len() as int,
            old(compiler).constraints@.len() as int,
            *a as int,
            *b as int,
        ) && res.cvars@[0] == ConstOrCell::Cell((old(compiler).cells@.len() + 3) as usize)),
        x1 matches ConstOrCell::Const(c) ==> x2 matches ConstOrCell::Cell(b) ==> (final(
            compiler).cells@[old(compiler).cells@.len() as int] == CellDef::Constant(*c)
            && equality_gadget_appended(
            *final(compiler),
            old(compiler).cells@.len() as int + 1,
            old(compiler).constraints@.len() as int,
            old(compiler).cells@.len() as int,
            *b as int,
        ) && res.cvars@[0] == ConstOrCell::Cell((old(compiler).cells@.len() + 4) as usize)),
        x1 matches ConstOrCell::Cell(a) ==> x2 matches ConstOrCell::Const(c) ==> (final(
            compiler).cells@[old(compiler).cells@.len() as int] == CellDef::Constant(*c)
            && equality_gadget_appended(
            *final(compiler),
            old(compiler).cells@.len() as int + 1,
            old(compiler).constraints@.len() as int,
            *a as int,
            old(compiler).cells@.len() as int,
        ) && res.cvars@[0] == ConstOrCell::Cell((old(compiler).cells@.len() + 4) as usize)),
{
    let p = compiler.modulus;
    match (x1, x2) {
        // two constants: compare at compile time
        (ConstOrCell::Const(a), ConstOrCell::Const(b)) => {
            let r: u64 = if *a == *b {
                1
            } else {
                0
            };
            Var::new_constant(r, span)
        },
        _ => {
            // pin any constant operand in-circuit so both sides are cells
            let c1: usize = match x1 {
                ConstOrCell::Const(cst) => compiler.add_constant(
                    Some("pin the lhs constant of the equality check in the circuit"),
                    *cst,
                    span,
                ),
                ConstOrCell::Cell(cvar) => *cvar,
            };
            let ghost g1 = *compiler;
            let c2: usize = match x2 {
                ConstOrCell::Const(cst) => compiler.add_constant(
                    Some("pin the rhs constant of the equality check in the circuit"),
                    *cst,
                    span,
                ),
                ConstOrCell::Cell(cvar) => *cvar,
            };
            let ghost g2 = *compiler;

            // 1. diff = x2 - x1
            let diff = compiler.sub(c2, c1, span);
            let ghost g3 = *compiler;
            let diff_inv = compiler.new_internal_var(Value::Inverse(diff), span);
            let ghost g4 = *compiler;

            // 2. diff_inv * diff = one_minus_res
            let diff_inv_mul_diff = compiler.mul(diff_inv, diff, span);
            let ghost g5 = *compiler;

            // 3. one_minus_res = 1 - res, i.e. res = 1 - diff_inv * diff
            let coeff = fe_neg(1, p);
            let mut terms: Vec<(u64, usize)> = Vec::new();
            terms.push((coeff, diff_inv_mul_diff));
            let res_i = compiler.new_internal_var(Value::LinearCombination(terms, 1), span);
            let ghost g6 = *compiler;
            let neg_res = compiler.neg(res_i, span);
            let ghost g7 = *compiler;
            let one_minus_res = compiler.add_const(neg_res, 1, span);
            let ghost g8 = *compiler;
            compiler.assert_eq_var(diff_inv_mul_diff, one_minus_res, span);
            let ghost g9 = *compiler;

            // 4. res * diff = 0
            let res_mul_diff = compiler.mul(res_i, diff, span);
            let ghost g10 = *compiler;
            compiler.assert_eq_const(res_mul_diff, 0, span);

            proof {
                let pi = p as int;
                let ghost ts = seq![(coeff, diff_inv_mul_diff)];
                assert forall|w: Seq<u64>| #[trigger] final(compiler).consistent(w) implies
                    scalar_value(ConstOrCell::Cell(res_i), w) == (
                    if scalar_value(*x1, w) == scalar_value(*x2, w) {
                        1u64
                    } else {
                        0u64
                    }) by {
                    lemma_consistent_extends(*compiler, g10, w);
                    lemma_consistent_extends(g10, g9, w);
                    lemma_consistent_extends(g9, g8, w);
                    lemma_consistent_extends(g8, g7, w);
                    lemma_consistent_extends(g7, g6, w);
                    lemma_consistent_extends(g6, g5, w);
                    lemma_consistent_extends(g5, g4, w);
                    lemma_consistent_extends(g4, g3, w);
                    lemma_consistent_extends(g3, g2, w);
                    lemma_consistent_extends(g2, g1, w);
                    let a = scalar_value(*x1, w) as int;
                    let b = scalar_value(*x2, w) as int;
                    assert(w[c1 as int] == a && 0 <= a < pi);
                    assert(w[c2 as int] == b && 0 <= b < pi);
                    let d = w[diff as int] as int;
                    assert(d == sub_mod(b, a, pi));
                    crate::modular::lemma_sub_mod_zero_iff_eq(b, a, pi);
                    // unfold the deferred expressions of diff_inv and res
                    assert(cell_holds(
                        CellDef::Internal(Value::Inverse(diff)),
                        diff_inv as int,
                        w,
                        pi,
                    ));
                    assert(cell_holds(
                        CellDef::Internal(Value::LinearCombination(terms, 1)),
                        res_i as int,
                        w,
                        pi,
                    ));
                    assert(terms@ =~= ts);
                    assert(ts.drop_last() =~= Seq::<(u64, usize)>::empty());
                    assert(ts.len() == 1 && ts.last() == (coeff, diff_inv_mul_diff));
                    assert(lc_mod(Seq::<(u64, usize)>::empty(), 1, w, pi) == 1);
                    assert(lc_mod(ts, 1, w, pi) == add_mod(
                        1,
                        mul_mod(coeff as int, w[diff_inv_mul_diff as int] as int, pi),
                        pi,
                    ));
                    if d == 0 {
                        lemma_mul_mod_units(w[diff_inv as int] as int, pi);
                        assert(w[diff_inv_mul_diff as int] == 0);
                        lemma_mul_mod_units(coeff as int, pi);
                        assert(w[res_i as int] == 1);
                    } else {
                        assert(mul_mod(w[diff_inv as int] as int, d, pi) == 1);
                        assert(w[diff_inv_mul_diff as int] == 1);
                        lemma_mul_mod_units(coeff as int, pi);
                        assert(mul_mod(coeff as int, 1, pi) == coeff as int);
                        assert(w[res_i as int] == 0);
                    }
                }
            }
            Var::new_var(res_i, span)
        },
    }
}


/// The element sequences agree everywhere (and have equal length).
pub open spec fn all_eq(a: Seq<u64>, b: Seq<u64>) -> bool {
    a.len() == b.len() && forall|j: int| 0 <= j < a.len() ==> a[j] == #[trigger] b[j]
}

/// The element sequences differ everywhere (and have equal length).
pub open spec fn all_neq(a: Seq<u64>, b: Seq<u64>) -> bool {
    a.len() == b.len() && forall|j: int| 0 <= j < a.len() ==> a[j] != #[trigger] b[j]
}

/// The boolean field element the `equal` gadget resolves to.
pub open spec fn eq_bit(a: Seq<u64>, b: Seq<u64>) -> u64 {
    if all_eq(a, b) {
        1
    } else {
        0
    }
}

/// The boolean field element the `not_equal` gadget resolves to: one exactly
/// when the values differ in every position.
pub open spec fn neq_bit(a: Seq<u64>, b: Seq<u64>) -> u64 {
    if all_neq(a, b) {
        1
    } else {
        0
    }
}

/// Equality of a compound value with itself always resolves to one,
/// whatever witness backs its cells.
pub proof fn lemma_eq_bit_reflexive(a: Seq<u64>)
    ensures
        eq_bit(a, a) == 1,
{
}

/// Equality resolves to zero as soon as the two values differ in at least
/// one position under the witness.
pub proof fn lemma_eq_bit_difference(a: Seq<u64>, b: Seq<u64>, j: int)
    requires
        a.len() == b.len(),
        0 <= j < a.len(),
        a[j] != b[j],
    ensures
        eq_bit(a, b) == 0,
{
}

/// For single-scalar values the inequality bit is the logical complement of
/// the equality bit. For wider values both gadgets fold their per-element
/// results with AND, so on a pair that agrees in one position and differs
/// in another, both bits are zero: the complement holds only at length one.
pub proof fn lemma_neq_bit_complements_eq_bit(a: Seq<u64>, b: Seq<u64>)
    requires
        a.len() == b.len(),
        a.len() == 1,
    ensures
        eq_bit(a, b) + neq_bit(a, b) == 1,
{
    if a[0] == b[0] {
        assert(all_eq(a, b));
        assert(!all_neq(a, b));
    } else {
        assert(all_neq(a, b));
        assert(!all_eq(a, b));
    }
}

proof fn lemma_all_eq_step(a: Seq<u64>, b: Seq<u64>, k: int)
    requires
        a.len() == b.len(),
        0 <= k < a.len(),
    ensures
        all_eq(a.take(k + 1), b.take(k + 1)) <==> (all_eq(a.take(k), b.take(k)) && a[k] == b[k]),
{
    if all_eq(a.take(k + 1), b.take(k + 1)) {
        assert forall|j: int| 0 <= j < k implies a.take(k)[j] == #[trigger] b.take(k)[j] by {
            assert(a.take(k + 1)[j] == b.take(k + 1)[j]);
        }
        assert(a.take(k + 1)[k] == b.take(k + 1)[k]);
    }
    if all_eq(a.take(k), b.take(k)) && a[k] == b[k] {
        assert forall|j: int| 0 <= j < k + 1 implies a.take(k + 1)[j] == #[trigger] b.take(k + 1)[j] by {
            if j < k {
                assert(a.take(k)[j] == b.take(k)[j]);
            }
        }
    }
}

proof fn lemma_all_neq_step(a: Seq<u64>, b: Seq<u64>, k: int)
    requires
        a.len() == b.len(),
        0 <= k < a.len(),
    ensures
        all_neq(a.take(k + 1), b.take(k + 1)) <==> (all_neq(a.take(k), b.take(k)) && a[k] != b[k]),
{
    if all_neq(a.take(k + 1), b.take(k + 1)) {
        assert forall|j: int| 0 <= j < k implies a.take(k)[j] != #[trigger] b.take(k)[j] by {
            assert(a.take(k + 1)[j] != b.take(k + 1)[j]);
        }
        assert(a.take(k + 1)[k] != b.take(k + 1)[k]);
    }
    if all_neq(a.take(k), b.take(k)) && a[k] != b[k] {
        assert forall|j: int| 0 <= j < k + 1 implies a.take(k + 1)[j] != #[trigger] b.take(k + 1)[j] by {
            if j < k {
                assert(a.take(k)[j] != b.take(k)[j]);
            }
        }
    }
}

/// Returns a boolean-valued scalar set to 1 if the scalar is the zero
/// element, 0 otherwise. A constant folds with no gate; a cell delegates to
/// the equality gadget against the zero constant.
pub fn is_zero_cell(compiler: &mut CircuitWriter, var: &ConstOrCell, span: Span) -> (res: Var)
    requires
        old(compiler).wf(),
        old(compiler).scalar_ok(*var),
    ensures
        final(compiler).wf(),
        final(compiler).extends(*old(compiler)),
        final(compiler).n_inputs == old(compiler).n_inputs,
        final(compiler).cells@.len() <= old(compiler).cells@.len() + 9,
        final(compiler).constraints@.len() <= old(compiler).constraints@.len() + 2,
        res.cvars@.len() == 1,
        final(compiler).scalar_ok(res.cvars@[0]),
        res.span == span,
        forall|w: Seq<u64>|
            #[trigger] final(compiler).consistent(w) ==> scalar_value(res.cvars@[0], w) == (
            if scalar_value(*var, w) == 0 {
                1u64
            } else {
                0u64
            }),
        var matches ConstOrCell::Const(a) ==> (final(compiler).same_state(*old(compiler))
            && res.cvars@[0] == ConstOrCell::Const(
            if a == 0 {
                1u64
            } else {
                0u64
            })),
        var matches ConstOrCell::Cell(v) ==> (final(compiler).cells@[old(compiler).cells@.len() as int] == CellDef::Constant(0) && equality_gadget_appended(
            *final(compiler),
            old(compiler).cells@.len() as int + 1,
            old(compiler).constraints@.len() as int,
            *v as int,
            old(compiler).cells@.len() as int,
        ) && res.cvars@[0] == ConstOrCell::Cell((old(compiler).cells@.len() + 4) as usize)
            && final(compiler).cells@.len() == old(compiler).cells@.len() + 8
            && final(compiler).constraints@.len() == old(compiler).constraints@.len() + 2),
{
    match var {
        ConstOrCell::Const(a) => {
            let r: u64 = if *a == 0 {
                1
            } else {
                0
            };
            Var::new_constant(r, span)
        },
        ConstOrCell::Cell(_) => {
            let zero_cell = ConstOrCell::Const(0);
            equal_cells(compiler, var, &zero_cell, span)
        },
    }
}

/// Returns a boolean-valued scalar set to 1 if the two compound values are
/// equal element for element, 0 otherwise. A single pair of scalars
/// delegates to the equality gadget; wider values fold the per-element
/// equality bits into an accumulator started at a cell pinned to one, using
/// the boolean AND primitive.
pub fn equal(compiler: &mut CircuitWriter, lhs: &Var, rhs: &Var, span: Span) -> (res: Var)
    requires
        old(compiler).wf(),
        old(compiler).var_ok(*lhs),
        old(compiler).var_ok(*rhs),
        lhs.cvars@.len() == rhs.cvars@.len(),
    ensures
        final(compiler).wf(),
        final(compiler).extends(*old(compiler)),
        final(compiler).n_inputs == old(compiler).n_inputs,
        res.cvars@.len() == 1,
        final(compiler).scalar_ok(res.cvars@[0]),
        res.span == span,
        forall|w: Seq<u64>|
            #[trigger] final(compiler).consistent(w) ==> scalar_value(res.cvars@[0], w) == eq_bit(
                var_values(*lhs, w),
                var_values(*rhs, w),
            ),
        lhs.cvars@.len() == 1 ==> (lhs.cvars@[0] matches ConstOrCell::Const(a)
            ==> rhs.cvars@[0] matches ConstOrCell::Const(b) ==> (final(compiler).same_state(
            *old(compiler)) && res.cvars@[0] == ConstOrCell::Const(
            if a == b {
                1u64
            } else {
                0u64
            }))),
        lhs.cvars@.len() == 1 ==> (final(compiler).cells@.len() <= old(compiler).cells@.len() + 9
            && final(compiler).constraints@.len() <= old(compiler).constraints@.len() + 2),
        lhs.cvars@.len() > 1 ==> (final(compiler).cells@.len() > old(compiler).cells@.len()
            && final(compiler).cells@[old(compiler).cells@.len() as int] == CellDef::Constant(1)
            && final(compiler).cells@.len() <= old(compiler).cells@.len() + 1 + 10
            * lhs.cvars@.len() && final(compiler).constraints@.len() <= old(
            compiler,
        ).constraints@.len() + 2 * lhs.cvars@.len()),
{
    let ghost orig = *old(compiler);
    let n = lhs.len();
    if n == 1 {
        let l0 = lhs.cvar(0);
        let r0 = rhs.cvar(0);
        let res = equal_cells(compiler, &l0, &r0, span);
        proof {
            assert forall|w: Seq<u64>| #[trigger] final(compiler).consistent(w) implies
                scalar_value(res.cvars@[0], w) == eq_bit(
                var_values(*lhs, w),
                var_values(*rhs, w),
            ) by {
                let a = var_values(*lhs, w);
                let b = var_values(*rhs, w);
                assert(a[0] == scalar_value(lhs.cvars@[0], w));
                assert(b[0] == scalar_value(rhs.cvars@[0], w));
                if scalar_value(l0, w) == scalar_value(r0, w) {
                    assert(all_eq(a, b));
                } else {
                    assert(!all_eq(a, b));
                }
            }
        }
        return res;
    }
    // start the accumulator at a cell pinned to one, so it can be folded
    // with cell-valued equality bits
    let acc0 = compiler.add_constant(
        Some("start the accumulator at 1 for the equality check"),
        1,
        span,
    );
    let mut acc = Var::new_var(acc0, span);
    let mut k: usize = 0;
    while k < n
        invariant
            n == lhs.cvars@.len(),
            lhs.cvars@.len() == rhs.cvars@.len(),
            k <= n,
            orig.wf(),
            orig.var_ok(*lhs),
            orig.var_ok(*rhs),
            compiler.wf(),
            compiler.extends(orig),
            compiler.modulus == orig.modulus,
            compiler.n_inputs == orig.n_inputs,
            compiler.cells@.len() > orig.cells@.len(),
            compiler.cells@[orig.cells@.len() as int] == CellDef::Constant(1),
            compiler.cells@.len() <= orig.cells@.len() + 1 + 10 * (k as int),
            compiler.constraints@.len() <= orig.constraints@.len() + 2 * (k as int),
            acc.cvars@.len() == 1,
            acc.span == span,
            compiler.scalar_ok(acc.cvars@[0]),
            forall|w: Seq<u64>|
                #[trigger] compiler.consistent(w) ==> scalar_value(acc.cvars@[0], w) == (
                if all_eq(
                    var_values(*lhs, w).take(k as int),
                    var_values(*rhs, w).take(k as int),
                ) {
                    1u64
                } else {
                    0u64
                }),
        decreases n - k,
    {
        let l = lhs.cvar(k);
        let r = rhs.cvar(k);
        proof {
            lemma_scalar_ok_extends(*compiler, orig, l);
            lemma_scalar_ok_extends(*compiler, orig, r);
        }
        let ghost before = *compiler;
        let eqk = equal_cells(compiler, &l, &r, span);
        let ghost mid = *compiler;
        let e0 = eqk.cvar(0);
        let a0 = acc.cvar(0);
        proof {
            lemma_scalar_ok_extends(mid, before, a0);
        }
        acc = crate::boolean::and(compiler, &e0, &a0, span);
        proof {
            assert forall|w: Seq<u64>| #[trigger] compiler.consistent(w) implies scalar_value(
                acc.cvars@[0],
                w,
            ) == (
            if all_eq(
                var_values(*lhs, w).take(k as int + 1),
                var_values(*rhs, w).take(k as int + 1),
            ) {
                1u64
            } else {
                0u64
            }) by {
                lemma_consistent_extends(*compiler, mid, w);
                lemma_consistent_extends(mid, before, w);
                let a = var_values(*lhs, w);
                let b = var_values(*rhs, w);
                assert(a[k as int] == scalar_value(lhs.cvars@[k as int], w));
                assert(b[k as int] == scalar_value(rhs.cvars@[k as int], w));
                lemma_all_eq_step(a, b, k as int);
            }
        }
        k = k + 1;
    }
    proof {
        assert forall|w: Seq<u64>| #[trigger] compiler.consistent(w) implies scalar_value(
            acc.cvars@[0],
            w,
        ) == eq_bit(var_values(*lhs, w), var_values(*rhs, w)) by {
            assert(var_values(*lhs, w).take(n as int) =~= var_values(*lhs, w));
            assert(var_values(*rhs, w).take(n as int) =~= var_values(*rhs, w));
        }
    }
    acc
}


/// Returns a boolean-valued scalar set to 1 if the two compound values
/// differ in every position, 0 otherwise. Each position is lowered as a
/// subtraction, a zero test and a boolean NOT; wider values fold the
/// per-element bits with AND from an accumulator pinned to one, mirroring
/// `equal`'s structure.
pub fn not_equal(compiler: &mut CircuitWriter, lhs: &Var, rhs: &Var, span: Span) -> (res: Var)
    requires
        old(compiler).wf(),
        old(compiler).var_ok(*lhs),
        old(compiler).var_ok(*rhs),
        lhs.cvars@.len() == rhs.cvars@.len(),
    ensures
        final(compiler).wf(),
        final(compiler).extends(*old(compiler)),
        final(compiler).n_inputs == old(compiler).n_inputs,
        res.cvars@.len() == 1,
        final(compiler).scalar_ok(res.cvars@[0]),
        res.span == span,
        forall|w: Seq<u64>|
            #[trigger] final(compiler).consistent(w) ==> scalar_value(res.cvars@[0], w) == neq_bit(
                var_values(*lhs, w),
                var_values(*rhs, w),
            ),
        lhs.cvars@.len() == 1 ==> (final(compiler).cells@.len() <= old(compiler).cells@.len() + 13
            && final(compiler).constraints@.len() <= old(compiler).constraints@.len() + 2),
        lhs.cvars@.len() > 1 ==> (final(compiler).cells@.len() > old(compiler).cells@.len()
            && final(compiler).cells@[old(compiler).cells@.len() as int] == CellDef::Constant(1)
            && final(compiler).cells@.len() <= old(compiler).cells@.len() + 1 + 14
            * lhs.cvars@.len() && final(compiler).constraints@.len() <= old(
            compiler,
        ).constraints@.len() + 2 * lhs.cvars@.len()),
{
    let ghost orig = *old(compiler);
    let n = lhs.len();
    if n == 1 {
        let l0 = lhs.cvar(0);
        let r0 = rhs.cvar(0);
        let diff = crate::field::sub(compiler, &l0, &r0, span);
        let ghost h1 = *compiler;
        let d0 = diff.cvar(0);
        let iz = is_zero_cell(compiler, &d0, span);
        let ghost h2 = *compiler;
        let z0 = iz.cvar(0);
        let res = crate::boolean::not(compiler, &z0, span);
        proof {
            assert forall|w: Seq<u64>| #[trigger] final(compiler).consistent(w) implies
                scalar_value(res.cvars@[0], w) == neq_bit(
                var_values(*lhs, w),
                var_values(*rhs, w),
            ) by {
                lemma_consistent_extends(*compiler, h2, w);
                lemma_consistent_extends(h2, h1, w);
                let a = var_values(*lhs, w);
                let b = var_values(*rhs, w);
                assert(a[0] == scalar_value(lhs.cvars@[0], w));
                assert(b[0] == scalar_value(rhs.cvars@[0], w));
                let pi = orig.modulus as int;
                lemma_scalar_value_bounded(h1, l0, w);
                lemma_scalar_value_bounded(h1, r0, w);
                crate::modular::lemma_sub_mod_zero_iff_eq(
                    scalar_value(l0, w) as int,
                    scalar_value(r0, w) as int,
                    pi,
                );
                if scalar_value(l0, w) == scalar_value(r0, w) {
                    assert(!all_neq(a, b));
                } else {
                    assert(all_neq(a, b));
                }
            }
        }
        return res;
    }
    // start the accumulator at a cell pinned to one, so it can be folded
    // with cell-valued bits
    let acc0 = compiler.add_constant(
        Some("start the accumulator at 1 for the inequality check"),
        1,
        span,
    );
    let mut acc = Var::new_var(acc0, span);
    let mut k: usize = 0;
    while k < n
        invariant
            n == lhs.cvars@.len(),
            lhs.cvars@.len() == rhs.cvars@.len(),
            k <= n,
            orig.wf(),
            orig.var_ok(*lhs),
            orig.var_ok(*rhs),
            compiler.wf(),
            compiler.extends(orig),
            compiler.modulus == orig.modulus,
            compiler.n_inputs == orig.n_inputs,
            compiler.cells@.len() > orig.cells@.len(),
            compiler.cells@[orig.cells@.len() as int] == CellDef::Constant(1),
            compiler.cells@.len() <= orig.cells@.len() + 1 + 14 * (k as int),
            compiler.constraints@.len() <= orig.constraints@.len() + 2 * (k as int),
            acc.cvars@.len() == 1,
            acc.span == span,
            compiler.scalar_ok(acc.cvars@[0]),
            forall|w: Seq<u64>|
                #[trigger] compiler.consistent(w) ==> scalar_value(acc.cvars@[0], w) == (
                if all_neq(
                    var_values(*lhs, w).take(k as int),
                    var_values(*rhs, w).take(k as int),
                ) {
                    1u64
                } else {
                    0u64
                }),
        decreases n - k,
    {
        let l = lhs.cvar(k);
        let r = rhs.cvar(k);
        proof {
            lemma_scalar_ok_extends(*compiler, orig, l);
            lemma_scalar_ok_extends(*compiler, orig, r);
        }
        let ghost b0 = *compiler;
        let diff = crate::field::sub(compiler, &l, &r, span);
        let ghost b1 = *compiler;
        let d0 = diff.cvar(0);
        let iz = is_zero_cell(compiler, &d0, span);
        let ghost b2 = *compiler;
        let z0 = iz.cvar(0);
        let nr = crate::boolean::not(compiler, &z0, span);
        let ghost b3 = *compiler;
        let nr0 = nr.cvar(0);
        let a0 = acc.cvar(0);
        proof {
            lemma_extends_trans(b3, b2, b1);
            lemma_extends_trans(b3, b1, b0);
            lemma_scalar_ok_extends(b3, b0, a0);
        }
        acc = crate::boolean::and(compiler, &nr0, &a0, span);
        proof {
            assert forall|w: Seq<u64>| #[trigger] compiler.consistent(w) implies scalar_value(
                acc.cvars@[0],
                w,
            ) == (
            if all_neq(
                var_values(*lhs, w).take(k as int + 1),
                var_values(*rhs, w).take(k as int + 1),
            ) {
                1u64
            } else {
                0u64
            }) by {
                lemma_consistent_extends(*compiler, b3, w);
                lemma_consistent_extends(b3, b2, w);
                lemma_consistent_extends(b2, b1, w);
                lemma_consistent_extends(b1, b0, w);
                let a = var_values(*lhs, w);
                let b = var_values(*rhs, w);
                assert(a[k as int] == scalar_value(lhs.cvars@[k as int], w));
                assert(b[k as int] == scalar_value(rhs.cvars@[k as int], w));
                lemma_scalar_value_bounded(b1, l, w);
                lemma_scalar_value_bounded(b1, r, w);
                crate::modular::lemma_sub_mod_zero_iff_eq(
                    scalar_value(l, w) as int,
                    scalar_value(r, w) as int,
                    orig.modulus as int,
                );
                lemma_all_neq_step(a, b, k as int);
            }
        }
        k = k + 1;
    }
    proof {
        assert forall|w: Seq<u64>| #[trigger] compiler.consistent(w) implies scalar_value(
            acc.cvars@[0],
            w,
        ) == neq_bit(var_values(*lhs, w), var_values(*rhs, w)) by {
            assert(var_values(*lhs, w).take(n as int) =~= var_values(*lhs, w));
            assert(var_values(*rhs, w).take(n as int) =~= var_values(*rhs, w));
        }
    }
    acc
}


/// Conditional selection of one scalar: `res = (1 - cond) * else + cond * then`.
///
/// A constant condition short-circuits with zero gates: the multiplicative
/// identity selects `then_`, any other constant selects `else_` (a
/// non-boolean constant condition is not validated; it falls to the `else`
/// side). A cell-valued condition is lowered as two multiplications, a
/// subtraction and an addition, each of which may itself constant-fold.
pub fn if_else_inner(
    compiler: &mut CircuitWriter,
    cond: &ConstOrCell,
    then_: &ConstOrCell,
    else_: &ConstOrCell,
    span: Span,
) -> (res: Var)
    requires
        old(compiler).wf(),
        old(compiler).scalar_ok(*cond),
        old(compiler).scalar_ok(*then_),
        old(compiler).scalar_ok(*else_),
    ensures
        final(compiler).wf(),
        final(compiler).extends(*old(compiler)),
        final(compiler).n_inputs == old(compiler).n_inputs,
        final(compiler).constraints@ == old(compiler).constraints@,
        final(compiler).cells@.len() <= old(compiler).cells@.len() + 5,
        res.cvars@.len() == 1,
        final(compiler).scalar_ok(res.cvars@[0]),
        res.span == span,
        forall|w: Seq<u64>|
            #[trigger] final(compiler).consistent(w) ==> ((scalar_value(*cond, w) == 1
                ==> scalar_value(res.cvars@[0], w) == scalar_value(*then_, w)) && (scalar_value(
                *cond,
                w,
            ) == 0 ==> scalar_value(res.cvars@[0], w) == scalar_value(*else_, w))),
        cond matches ConstOrCell::Cell(x) ==> forall|w: Seq<u64>|
            #[trigger] final(compiler).consistent(w) ==> scalar_value(res.cvars@[0], w) as int
                == add_mod(
                mul_mod(
                    scalar_value(*then_, w) as int,
                    scalar_value(*cond, w) as int,
                    final(compiler).modulus as int,
                ),
                mul_mod(
                    sub_mod(1, scalar_value(*cond, w) as int, final(compiler).modulus as int),
                    scalar_value(*else_, w) as int,
                    final(compiler).modulus as int,
                ),
                final(compiler).modulus as int,
            ),
        cond matches ConstOrCell::Const(c) ==> (final(compiler).same_state(*old(compiler)) && (c
            == 1 ==> res.cvars@[0] == *then_) && (c != 1 ==> res.cvars@[0] == *else_)),
{
    // a constant condition is decidable now: zero gates
    if let ConstOrCell::Const(cond_val) = cond {
        if *cond_val == 1 {
            return Var::new_cvar(*then_, span);
        } else {
            return Var::new_cvar(*else_, span);
        }
    }
    let ghost orig = *old(compiler);
    let ghost pi = orig.modulus as int;
    let cond_then = crate::field::mul(compiler, then_, cond, span);
    let ghost h1 = *compiler;
    let one = ConstOrCell::Const(1);
    proof {
        lemma_scalar_ok_extends(h1, orig, *cond);
    }
    let one_minus_cond = crate::field::sub(compiler, &one, cond, span);
    let ghost h2 = *compiler;
    let omc = one_minus_cond.cvar(0);
    proof {
        lemma_scalar_ok_extends(h2, orig, *else_);
    }
    let temp = crate::field::mul(compiler, &omc, else_, span);
    let ghost h3 = *compiler;
    let ct = cond_then.cvar(0);
    let t0 = temp.cvar(0);
    proof {
        lemma_extends_trans(h3, h2, h1);
        lemma_scalar_ok_extends(h3, h1, ct);
    }
    let res = crate::field::add(compiler, &ct, &t0, span);
    proof {
        assert forall|w: Seq<u64>| #[trigger] final(compiler).consistent(w) implies ((scalar_value(
            *cond,
            w,
        ) == 1 ==> scalar_value(res.cvars@[0], w) == scalar_value(*then_, w)) && (scalar_value(
            *cond,
            w,
        ) == 0 ==> scalar_value(res.cvars@[0], w) == scalar_value(*else_, w)) && scalar_value(
            res.cvars@[0],
            w,
        ) as int == add_mod(
            mul_mod(scalar_value(*then_, w) as int, scalar_value(*cond, w) as int, pi),
            mul_mod(
                sub_mod(1, scalar_value(*cond, w) as int, pi),
                scalar_value(*else_, w) as int,
                pi,
            ),
            pi,
        )) by {
            lemma_consistent_extends(*compiler, h3, w);
            lemma_consistent_extends(h3, h2, w);
            lemma_consistent_extends(h2, h1, w);
            let cv = scalar_value(*cond, w) as int;
            let tv = scalar_value(*then_, w) as int;
            let ev = scalar_value(*else_, w) as int;
            lemma_scalar_value_bounded(h1, *then_, w);
            lemma_scalar_value_bounded(h1, *cond, w);
            lemma_scalar_value_bounded(h2, *else_, w);
            if cv == 1 {
                lemma_mul_mod_units(tv, pi);
                lemma_mul_mod_units(ev, pi);
                assert(sub_mod(1, 1, pi) == 0);
                assert(scalar_value(res.cvars@[0], w) as int == add_mod(tv, 0, pi));
            }
            if cv == 0 {
                lemma_mul_mod_units(tv, pi);
                lemma_mul_mod_units(ev, pi);
                assert(sub_mod(1, 0, pi) == 1);
                assert(scalar_value(res.cvars@[0], w) as int == add_mod(0, ev, pi));
            }
        }
    }
    res
}

/// Conditional selection between two compound values of equal length,
/// driven by a single boolean-valued scalar condition: the selection is
/// applied element-wise, reusing the same condition for every position, and
/// the results are concatenated in element order.
pub fn if_else(
    compiler: &mut CircuitWriter,
    cond: &Var,
    then_: &Var,
    else_: &Var,
    span: Span,
) -> (res: Var)
    requires
        old(compiler).wf(),
        old(compiler).var_ok(*cond),
        old(compiler).var_ok(*then_),
        old(compiler).var_ok(*else_),
        cond.cvars@.len() == 1,
        then_.cvars@.len() == else_.cvars@.len(),
    ensures
        final(compiler).wf(),
        final(compiler).extends(*old(compiler)),
        final(compiler).n_inputs == old(compiler).n_inputs,
        final(compiler).var_ok(res),
        res.cvars@.len() == then_.cvars@.len(),
        res.span == span,
        forall|w: Seq<u64>|
            #[trigger] final(compiler).consistent(w) ==> ((scalar_value(cond.cvars@[0], w) == 1
                ==> var_values(res, w) =~= var_values(*then_, w)) && (scalar_value(
                cond.cvars@[0],
                w,
            ) == 0 ==> var_values(res, w) =~= var_values(*else_, w))),
        cond.cvars@[0] matches ConstOrCell::Const(c) ==> (final(compiler).same_state(
            *old(compiler)) && (c == 1 ==> res.cvars@ == then_.cvars@) && (c != 1 ==> res.cvars@
            == else_.cvars@)),
        cond.cvars@[0] matches ConstOrCell::Cell(x) ==> forall|w: Seq<u64>|
            #[trigger] final(compiler).consistent(w) ==> forall|j: int|
                0 <= j < res.cvars@.len() ==> scalar_value(#[trigger] res.cvars@[j], w) as int
                    == add_mod(
                    mul_mod(
                        scalar_value(then_.cvars@[j], w) as int,
                        scalar_value(cond.cvars@[0], w) as int,
                        final(compiler).modulus as int,
                    ),
                    mul_mod(
                        sub_mod(
                            1,
                            scalar_value(cond.cvars@[0], w) as int,
                            final(compiler).modulus as int,
                        ),
                        scalar_value(else_.cvars@[j], w) as int,
                        final(compiler).modulus as int,
                    ),
                    final(compiler).modulus as int,
                ),
{
    let ghost orig = *old(compiler);
    let c0 = cond.cvar(0);
    let n = then_.len();
    let mut vars: Vec<ConstOrCell> = Vec::new();
    let mut k: usize = 0;
    while k < n
        invariant
            n == then_.cvars@.len(),
            then_.cvars@.len() == else_.cvars@.len(),
            k <= n,
            vars@.len() == k,
            orig.wf(),
            orig.var_ok(*then_),
            orig.var_ok(*else_),
            orig.scalar_ok(c0),
            compiler.wf(),
            compiler.extends(orig),
            compiler.modulus == orig.modulus,
            compiler.n_inputs == orig.n_inputs,
            forall|j: int| 0 <= j < k ==> compiler.scalar_ok(#[trigger] vars@[j]),
            forall|w: Seq<u64>|
                #[trigger] compiler.consistent(w) ==> forall|j: int|
                    0 <= j < k ==> ((scalar_value(c0, w) == 1 ==> scalar_value(
                        #[trigger] vars@[j],
                        w,
                    ) == scalar_value(then_.cvars@[j], w)) && (scalar_value(c0, w) == 0
                        ==> scalar_value(vars@[j], w) == scalar_value(else_.cvars@[j], w))),
            c0 matches ConstOrCell::Const(cc) ==> (compiler.same_state(orig) && (cc == 1 ==> vars@
                =~= then_.cvars@.take(k as int)) && (cc != 1 ==> vars@ =~= else_.cvars@.take(
                k as int,
            ))),
            c0 matches ConstOrCell::Cell(x) ==> forall|w: Seq<u64>|
                #[trigger] compiler.consistent(w) ==> forall|j: int|
                    0 <= j < k ==> scalar_value(#[trigger] vars@[j], w) as int == add_mod(
                        mul_mod(
                            scalar_value(then_.cvars@[j], w) as int,
                            scalar_value(c0, w) as int,
                            orig.modulus as int,
                        ),
                        mul_mod(
                            sub_mod(1, scalar_value(c0, w) as int, orig.modulus as int),
                            scalar_value(else_.cvars@[j], w) as int,
                            orig.modulus as int,
                        ),
                        orig.modulus as int,
                    ),
        decreases n - k,
    {
        let t = then_.cvar(k);
        let e = else_.cvar(k);
        proof {
            lemma_scalar_ok_extends(*compiler, orig, t);
            lemma_scalar_ok_extends(*compiler, orig, e);
            lemma_scalar_ok_extends(*compiler, orig, c0);
        }
        let ghost before = *compiler;
        let ghost vars_prev = vars@;
        let v = if_else_inner(compiler, &c0, &t, &e, span);
        let v0 = v.cvar(0);
        vars.push(v0);
        proof {
            assert forall|j: int| 0 <= j < k + 1 implies compiler.scalar_ok(
                #[trigger] vars@[j],
            ) by {
                if j < k {
                    assert(vars@[j] == vars_prev[j]);
                    lemma_scalar_ok_extends(*compiler, before, vars_prev[j]);
                }
            }
            assert forall|w: Seq<u64>| #[trigger] compiler.consistent(w) implies forall|j: int|
                0 <= j < k + 1 ==> ((scalar_value(c0, w) == 1 ==> scalar_value(
                    #[trigger] vars@[j],
                    w,
                ) == scalar_value(then_.cvars@[j], w)) && (scalar_value(c0, w) == 0
                    ==> scalar_value(vars@[j], w) == scalar_value(else_.cvars@[j], w))) by {
                lemma_consistent_extends(*compiler, before, w);
                assert forall|j: int|
                    0 <= j < k + 1 implies ((scalar_value(c0, w) == 1 ==> scalar_value(
                        #[trigger] vars@[j],
                        w,
                    ) == scalar_value(then_.cvars@[j], w)) && (scalar_value(c0, w) == 0
                        ==> scalar_value(vars@[j], w) == scalar_value(else_.cvars@[j], w))) by {
                    if j < k {
                        assert(vars@[j] == vars_prev[j]);
                        assert(scalar_value(c0, w) == 1 ==> scalar_value(vars_prev[j], w)
                            == scalar_value(then_.cvars@[j], w));
                    } else {
                        assert(vars@[j] == v.cvars@[0]);
                    }
                }
            }
            match c0 {
                ConstOrCell::Const(cc) => {
                    if cc == 1 {
                        assert(vars@ =~= then_.cvars@.take(k as int + 1));
                    } else {
                        assert(vars@ =~= else_.cvars@.take(k as int + 1));
                    }
                },
                ConstOrCell::Cell(_) => {
                    assert forall|w: Seq<u64>| #[trigger] compiler.consistent(w) implies forall|
                        j: int,
                    |
                        0 <= j < k + 1 ==> scalar_value(#[trigger] vars@[j], w) as int == add_mod(
                            mul_mod(
                                scalar_value(then_.cvars@[j], w) as int,
                                scalar_value(c0, w) as int,
                                orig.modulus as int,
                            ),
                            mul_mod(
                                sub_mod(1, scalar_value(c0, w) as int, orig.modulus as int),
                                scalar_value(else_.cvars@[j], w) as int,
                                orig.modulus as int,
                            ),
                            orig.modulus as int,
                        ) by {
                        lemma_consistent_extends(*compiler, before, w);
                        assert forall|j: int| 0 <= j < k + 1 implies scalar_value(
                            #[trigger] vars@[j],
                            w,
                        ) as int == add_mod(
                            mul_mod(
                                scalar_value(then_.cvars@[j], w) as int,
                                scalar_value(c0, w) as int,
                                orig.modulus as int,
                            ),
                            mul_mod(
                                sub_mod(1, scalar_value(c0, w) as int, orig.modulus as int),
                                scalar_value(else_.cvars@[j], w) as int,
                                orig.modulus as int,
                            ),
                            orig.modulus as int,
                        ) by {
                            if j < k {
                                assert(vars@[j] == vars_prev[j]);
                            } else {
                                assert(vars@[j] == v.cvars@[0]);
                            }
                        }
                    }
                },
            }
        }
        k = k + 1;
    }
    let res = Var::new(vars, span);
    proof {
        assert forall|w: Seq<u64>| #[trigger] final(compiler).consistent(w) implies ((scalar_value(
            cond.cvars@[0],
            w,
        ) == 1 ==> var_values(res, w) =~= var_values(*then_, w)) && (scalar_value(
            cond.cvars@[0],
            w,
        ) == 0 ==> var_values(res, w) =~= var_values(*else_, w))) by {
            if scalar_value(c0, w) == 1 {
                assert forall|j: int| 0 <= j < n implies var_values(res, w)[j] == var_values(
                    *then_,
                    w,
                )[j] by {
                    assert(scalar_value(vars@[j], w) == scalar_value(then_.cvars@[j], w));
                }
            }
            if scalar_value(c0, w) == 0 {
                assert forall|j: int| 0 <= j < n implies var_values(res, w)[j] == var_values(
                    *else_,
                    w,
                )[j] by {
                    assert(scalar_value(vars@[j], w) == scalar_value(else_.cvars@[j], w));
                }
            }
        }
        match c0 {
            ConstOrCell::Const(cc) => {
                assert(then_.cvars@.take(n as int) =~= then_.cvars@);
                assert(else_.cvars@.take(n as int) =~= else_.cvars@);
            },
            ConstOrCell::Cell(_) => {
            },
        }
    }
    res
}

} // verus!
