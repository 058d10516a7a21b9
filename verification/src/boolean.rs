//! Boolean-gate primitives over boolean-valued scalars.
//!
//! A boolean-valued scalar carries the field element zero or one. The
//! conjunction is the field product; the complement is one minus the value.
//! Both inherit the constant folding of the arithmetic layer, so a constant
//! operand never allocates a gate needlessly.

use vstd::prelude::*;

use crate::backend::{lemma_consistent_extends, scalar_value, CircuitWriter};
use crate::modular::{lemma_mul_mod_units, mul_mod, sub_mod};
use crate::var::{ConstOrCell, Span, Var};

verus! {

/// The conjunction of two boolean-valued scalars, as the field product.
pub fn and(compiler: &mut CircuitWriter, lhs: &ConstOrCell, rhs: &ConstOrCell, span: Span) -> (res:
    Var)
    requires
        old(compiler).wf(),
        old(compiler).scalar_ok(*lhs),
        old(compiler).scalar_ok(*rhs),
    ensures
        final(compiler).wf(),
        final(compiler).extends(*old(compiler)),
        final(compiler).n_inputs == old(compiler).n_inputs,
        final(compiler).constraints@ == old(compiler).constraints@,
        final(compiler).cells@.len() <= old(compiler).cells@.len() + 1,
        res.cvars@.len() == 1,
        final(compiler).scalar_ok(res.cvars@[0]),
        res.span == span,
        forall|w: Seq<u64>|
            #[trigger] final(compiler).consistent(w) ==> scalar_value(res.cvars@[0], w) as int
                == mul_mod(
                scalar_value(*lhs, w) as int,
                scalar_value(*rhs, w) as int,
                final(compiler).modulus as int,
            ),
        forall|w: Seq<u64>|
            #[trigger] final(compiler).consistent(w) ==> ((scalar_value(*lhs, w) == 0
                || scalar_value(*lhs, w) == 1) && (scalar_value(*rhs, w) == 0 || scalar_value(
                *rhs,
                w,
            ) == 1) ==> scalar_value(res.cvars@[0], w) == (if scalar_value(*lhs, w) == 1
                && scalar_value(*rhs, w) == 1 {
                1u64
            } else {
                0u64
            })),
{
    let res = crate::field::mul(compiler, lhs, rhs, span);
    proof {
        let p = compiler.modulus as int;
        assert forall|w: Seq<u64>| #[trigger] final(compiler).consistent(w) implies ((scalar_value(
            *lhs,
            w,
        ) == 0 || scalar_value(*lhs, w) == 1) && (scalar_value(*rhs, w) == 0 || scalar_value(
            *rhs,
            w,
        ) == 1) ==> scalar_value(res.cvars@[0], w) == (if scalar_value(*lhs, w) == 1
            && scalar_value(*rhs, w) == 1 {
            1u64
        } else {
            0u64
        })) by {
            lemma_mul_mod_units(0, p);
            lemma_mul_mod_units(1, p);
        }
    }
    res
}

/// The complement of a boolean-valued scalar: one minus its value.
pub fn not(compiler: &mut CircuitWriter, cvar: &ConstOrCell, span: Span) -> (res: Var)
    requires
        old(compiler).wf(),
        old(compiler).scalar_ok(*cvar),
    ensures
        final(compiler).wf(),
        final(compiler).extends(*old(compiler)),
        final(compiler).n_inputs == old(compiler).n_inputs,
        final(compiler).constraints@ == old(compiler).constraints@,
        final(compiler).cells@.len() <= old(compiler).cells@.len() + 2,
        res.cvars@.len() == 1,
        final(compiler).scalar_ok(res.cvars@[0]),
        res.span == span,
        forall|w: Seq<u64>|
            #[trigger] final(compiler).consistent(w) ==> scalar_value(res.cvars@[0], w) as int
                == sub_mod(1, scalar_value(*cvar, w) as int, final(compiler).modulus as int),
        forall|w: Seq<u64>|
            #[trigger] final(compiler).consistent(w) ==> (scalar_value(*cvar, w) == 0
                ==> scalar_value(res.cvars@[0], w) == 1) && (scalar_value(*cvar, w) == 1
                ==> scalar_value(res.cvars@[0], w) == 0),
{
    let one = ConstOrCell::Const(1);
    crate::field::sub(compiler, &one, cvar, span)
}

} // verus!
