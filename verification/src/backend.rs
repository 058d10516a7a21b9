//! The constraint-system backend: the mutable handle the whole compilation
//! pass grows, together with the mathematical semantics of the circuit it
//! holds.
//!
//! A circuit is a sequence of cells — inputs, pinned constants, gate outputs
//! and deferred internal variables — plus explicit equality constraints. Its
//! meaning is the predicate [`CircuitWriter::consistent`]: which assignments
//! of field values to cells satisfy every cell's defining equation and every
//! constraint. Each gadget's contract quantifies over all consistent
//! witnesses, so nothing rests on how the witness is later solved.

use vstd::prelude::*;

use crate::modular::{add_mod, mul_mod, neg_mod, sub_mod};
use crate::var::{ConstOrCell, Span, Var};

verus! {

/// How a freshly allocated witness cell's value is computed once its input
/// cells are known: the multiplicative inverse of a cell, or a linear
/// combination of cells with given coefficients plus a constant offset.
#[derive(Debug)]
pub enum Value {
    Inverse(usize),
    LinearCombination(Vec<(u64, usize)>, u64),
}

/// The definition of one cell of the circuit.
#[derive(Debug)]
pub enum CellDef {
    /// An externally witnessed input cell.
    Input,
    /// A cell pinned to a compile-time constant.
    Constant(u64),
    /// Gate outputs over earlier cells.
    Neg(usize),
    Add(usize, usize),
    AddConst(usize, u64),
    Mul(usize, usize),
    MulConst(usize, u64),
    Sub(usize, usize),
    /// A witness cell filled in later per its deferred expression.
    Internal(Value),
}

/// An explicit equality constraint between cells, or a cell and a constant.
#[derive(Debug)]
pub enum Constraint {
    EqVar(usize, usize),
    EqConst(usize, u64),
}

/// The value of a linear combination under the assignment `w`, folded from
/// the front of the term list.
pub open spec fn lc_mod(terms: Seq<(u64, usize)>, k: u64, w: Seq<u64>, p: int) -> int
    decreases terms.len(),
{
    if terms.len() == 0 {
        k as int
    } else {
        let t = terms.last();
        add_mod(
            lc_mod(terms.drop_last(), k, w, p),
            mul_mod(t.0 as int, w[t.1 as int] as int, p),
            p,
        )
    }
}

/// One for an input cell, zero for any other.
pub open spec fn count_input(c: CellDef) -> nat {
    match c {
        CellDef::Input => 1,
        _ => 0,
    }
}

/// How many input cells a cell sequence holds.
pub open spec fn input_count(s: Seq<CellDef>) -> nat
    decreases s.len(),
{
    if s.len() == 0 {
        0
    } else {
        input_count(s.drop_last()) + count_input(s.last())
    }
}

pub proof fn lemma_input_count_push(s: Seq<CellDef>, c: CellDef)
    ensures
        input_count(s.push(c)) == input_count(s) + count_input(c),
{
    assert(s.push(c).drop_last() =~= s);
    assert(s.push(c).last() == c);
}

pub proof fn lemma_input_count_le_len(s: Seq<CellDef>)
    ensures
        input_count(s) <= s.len(),
    decreases s.len(),
{
    if s.len() > 0 {
        lemma_input_count_le_len(s.drop_last());
    }
}

/// Well-formedness of one cell definition at position `i` in a circuit with
/// modulus `p`: it references only earlier cells and only reduced constants.
pub open spec fn cell_wf(c: CellDef, i: int, p: int) -> bool {
    match c {
        CellDef::Input => true,
        CellDef::Constant(k) => (k as int) < p,
        CellDef::Neg(x) => (x as int) < i,
        CellDef::Add(x, y) => (x as int) < i && (y as int) < i,
        CellDef::AddConst(x, k) => (x as int) < i && (k as int) < p,
        CellDef::Mul(x, y) => (x as int) < i && (y as int) < i,
        CellDef::MulConst(x, k) => (x as int) < i && (k as int) < p,
        CellDef::Sub(x, y) => (x as int) < i && (y as int) < i,
        CellDef::Internal(v) => value_wf(v, i, p),
    }
}

/// Well-formedness of a deferred expression attached to cell `i`.
pub open spec fn value_wf(v: Value, i: int, p: int) -> bool {
    match v {
        Value::Inverse(x) => (x as int) < i,
        Value::LinearCombination(terms, k) => (k as int) < p && forall|t: int|
            0 <= t < terms@.len() ==> (#[trigger] terms@[t]).0 < p && (terms@[t].1 as int) < i,
    }
}

pub open spec fn constraint_wf(c: Constraint, n: int, p: int) -> bool {
    match c {
        Constraint::EqVar(a, b) => (a as int) < n && (b as int) < n,
        Constraint::EqConst(a, k) => (a as int) < n && (k as int) < p,
    }
}

/// The defining equation of cell `i` under the assignment `w`.
///
/// An input cell is only bounded (any field value may be witnessed for it).
/// A deferred inverse constrains its cell only when the inverted cell is
/// non-zero: the gadgets are built so that correctness never depends on
/// which value stands in for the inverse of zero.
pub open spec fn cell_holds(c: CellDef, i: int, w: Seq<u64>, p: int) -> bool {
    match c {
        CellDef::Input => true,
        CellDef::Constant(k) => w[i] == k,
        CellDef::Neg(x) => w[i] as int == neg_mod(w[x as int] as int, p),
        CellDef::Add(x, y) => w[i] as int == add_mod(w[x as int] as int, w[y as int] as int, p),
        CellDef::AddConst(x, k) => w[i] as int == add_mod(w[x as int] as int, k as int, p),
        CellDef::Mul(x, y) => w[i] as int == mul_mod(w[x as int] as int, w[y as int] as int, p),
        CellDef::MulConst(x, k) => w[i] as int == mul_mod(w[x as int] as int, k as int, p),
        CellDef::Sub(x, y) => w[i] as int == sub_mod(w[x as int] as int, w[y as int] as int, p),
        CellDef::Internal(v) => match v {
            Value::Inverse(x) => w[x as int] != 0 ==> mul_mod(w[i] as int, w[x as int] as int, p)
                == 1,
            Value::LinearCombination(terms, k) => w[i] as int == lc_mod(terms@, k, w, p),
        },
    }
}

pub open spec fn constraint_holds(c: Constraint, w: Seq<u64>) -> bool {
    match c {
        Constraint::EqVar(a, b) => w[a as int] == w[b as int],
        Constraint::EqConst(a, k) => w[a as int] == k,
    }
}

/// `p` is a prime: the intended moduli of the underlying field. Over a
/// composite modulus a nonzero difference may have no inverse, and the
/// equality gadget's circuit would admit no consistent witness for
/// legitimately unequal operands — its contracts would hold vacuously.
pub open spec fn is_prime(p: int) -> bool {
    p >= 2 && forall|d: int| 2 <= d < p ==> #[trigger] (p % d) != 0
}

/// The value a scalar takes under the assignment `w`.
pub open spec fn scalar_value(s: ConstOrCell, w: Seq<u64>) -> u64 {
    match s {
        ConstOrCell::Const(c) => c,
        ConstOrCell::Cell(i) => w[i as int],
    }
}

/// The element-wise values a compound value takes under the assignment `w`.
pub open spec fn var_values(v: Var, w: Seq<u64>) -> Seq<u64> {
    Seq::new(v.cvars@.len(), |j: int| scalar_value(v.cvars@[j], w))
}

/// The growing constraint system: the modulus of the underlying prime field,
/// the cells allocated so far, the explicit constraints, and how many of the
/// cells are externally witnessed inputs.
#[derive(Debug)]
pub struct CircuitWriter {
    pub modulus: u64,
    pub cells: Vec<CellDef>,
    pub constraints: Vec<Constraint>,
    pub n_inputs: usize,
}

impl CircuitWriter {
    /// Structural well-formedness of the whole circuit.
    pub open spec fn wf(self) -> bool {
        &&& self.modulus >= 2
        &&& is_prime(self.modulus as int)
        &&& forall|i: int|
            0 <= i < self.cells@.len() ==> cell_wf(
                #[trigger] self.cells@[i],
                i,
                self.modulus as int,
            )
        &&& forall|j: int|
            0 <= j < self.constraints@.len() ==> constraint_wf(
                #[trigger] self.constraints@[j],
                self.cells@.len() as int,
                self.modulus as int,
            )
        &&& self.n_inputs as nat == input_count(self.cells@)
    }

    /// `w` is a witness consistent with the circuit: it assigns a reduced
    /// field value to every cell, every cell's defining equation holds, and
    /// every explicit constraint holds.
    pub open spec fn consistent(self, w: Seq<u64>) -> bool {
        &&& w.len() >= self.cells@.len()
        &&& forall|i: int| 0 <= i < self.cells@.len() ==> #[trigger] w[i] < self.modulus
        &&& forall|i: int|
            0 <= i < self.cells@.len() ==> cell_holds(
                #[trigger] self.cells@[i],
                i,
                w,
                self.modulus as int,
            )
        &&& forall|j: int|
            0 <= j < self.constraints@.len() ==> constraint_holds(#[trigger] self.constraints@[j], w)
    }

    /// `self` grows `pre`: same field, and every cell and constraint of
    /// `pre` stands unchanged at its index.
    pub open spec fn extends(self, pre: Self) -> bool {
        &&& self.modulus == pre.modulus
        &&& pre.cells@.len() <= self.cells@.len()
        &&& forall|i: int| 0 <= i < pre.cells@.len() ==> self.cells@[i] == #[trigger] pre.cells@[i]
        &&& pre.constraints@.len() <= self.constraints@.len()
        &&& forall|j: int|
            0 <= j < pre.constraints@.len() ==> self.constraints@[j] == #[trigger] pre.constraints@[j]
    }

    /// The circuits are observably the same: nothing was allocated between
    /// the two states.
    pub open spec fn same_state(self, other: Self) -> bool {
        &&& self.modulus == other.modulus
        &&& self.cells@ == other.cells@
        &&& self.constraints@ == other.constraints@
        &&& self.n_inputs == other.n_inputs
    }

    /// The scalar refers only to this circuit: a reduced constant, or an
    /// allocated cell.
    pub open spec fn scalar_ok(self, s: ConstOrCell) -> bool {
        match s {
            ConstOrCell::Const(c) => (c as int) < self.modulus,
            ConstOrCell::Cell(i) => (i as int) < self.cells@.len(),
        }
    }

    /// The compound value is non-empty and all its scalars refer to this
    /// circuit.
    pub open spec fn var_ok(self, v: Var) -> bool {
        &&& v.cvars@.len() >= 1
        &&& forall|j: int| 0 <= j < v.cvars@.len() ==> self.scalar_ok(#[trigger] v.cvars@[j])
    }

    /// A fresh, empty circuit over the field of the given prime modulus.
    pub fn new(modulus: u64) -> (res: CircuitWriter)
        requires
            modulus >= 2,
            is_prime(modulus as int),
        ensures
            res.wf(),
            res.modulus == modulus,
            res.cells@.len() == 0,
            res.constraints@.len() == 0,
            res.n_inputs == 0,
    {
        CircuitWriter { modulus, cells: Vec::new(), constraints: Vec::new(), n_inputs: 0 }
    }

    /// Allocates a fresh externally witnessed input cell.
    pub fn new_witness(&mut self) -> (i: usize)
        requires
            old(self).wf(),
        ensures
            final(self).wf(),
            final(self).extends(*old(self)),
            final(self).modulus == old(self).modulus,
            final(self).n_inputs == old(self).n_inputs + 1,
            i == old(self).cells@.len(),
            final(self).cells@ == old(self).cells@.push(CellDef::Input),
            final(self).constraints@ == old(self).constraints@,
    {
        let i = self.cells.len();
        self.cells.push(CellDef::Input);
        let n = self.cells.len();
        proof {
            lemma_input_count_le_len(old(self).cells@);
            lemma_input_count_push(old(self).cells@, CellDef::Input);
            assert(self.n_inputs < n);
        }
        self.n_inputs = self.n_inputs + 1;
        i
    }

    /// Emits a negation gate: a fresh cell holding `-cell(x)`.
    pub fn neg(&mut self, x: usize, _span: Span) -> (i: usize)
        requires
            old(self).wf(),
            x < old(self).cells@.len(),
        ensures
            final(self).wf(),
            final(self).extends(*old(self)),
            final(self).modulus == old(self).modulus,
            final(self).n_inputs == old(self).n_inputs,
            i == old(self).cells@.len(),
            final(self).cells@ == old(self).cells@.push(CellDef::Neg(x)),
            final(self).constraints@ == old(self).constraints@,
            forall|w: Seq<u64>|
                #[trigger] final(self).consistent(w) ==> w[i as int] as int == neg_mod(
                    w[x as int] as int,
                    final(self).modulus as int,
                ),
    {
        let i = self.cells.len();
        self.cells.push(CellDef::Neg(x));
        proof {
            lemma_input_count_push(old(self).cells@, CellDef::Neg(x));
        }
        i
    }

    /// Emits an addition gate: a fresh cell holding `cell(x) + cell(y)`.
    pub fn add(&mut self, x: usize, y: usize, _span: Span) -> (i: usize)
        requires
            old(self).wf(),
            x < old(self).cells@.len(),
            y < old(self).cells@.len(),
        ensures
            final(self).wf(),
            final(self).extends(*old(self)),
            final(self).modulus == old(self).modulus,
            final(self).n_inputs == old(self).n_inputs,
            i == old(self).cells@.len(),
            final(self).cells@ == old(self).cells@.push(CellDef::Add(x, y)),
            final(self).constraints@ == old(self).constraints@,
            forall|w: Seq<u64>|
                #[trigger] final(self).consistent(w) ==> w[i as int] as int == add_mod(
                    w[x as int] as int,
                    w[y as int] as int,
                    final(self).modulus as int,
                ),
    {
        let i = self.cells.len();
        self.cells.push(CellDef::Add(x, y));
        proof {
            lemma_input_count_push(old(self).cells@, CellDef::Add(x, y));
        }
        i
    }

    /// Emits an add-constant gate: a fresh cell holding `cell(x) + k`.
    pub fn add_const(&mut self, x: usize, k: u64, _span: Span) -> (i: usize)
        requires
            old(self).wf(),
            x < old(self).cells@.len(),
            k < old(self).modulus,
        ensures
            final(self).wf(),
            final(self).extends(*old(self)),
            final(self).modulus == old(self).modulus,
            final(self).n_inputs == old(self).n_inputs,
            i == old(self).cells@.len(),
            final(self).cells@ == old(self).cells@.push(CellDef::AddConst(x, k)),
            final(self).constraints@ == old(self).constraints@,
            forall|w: Seq<u64>|
                #[trigger] final(self).consistent(w) ==> w[i as int] as int == add_mod(
                    w[x as int] as int,
                    k as int,
                    final(self).modulus as int,
                ),
    {
        let i = self.cells.len();
        self.cells.push(CellDef::AddConst(x, k));
        proof {
            lemma_input_count_push(old(self).cells@, CellDef::AddConst(x, k));
        }
        i
    }

    /// Emits a multiplication gate: a fresh cell holding `cell(x) * cell(y)`.
    pub fn mul(&mut self, x: usize, y: usize, _span: Span) -> (i: usize)
        requires
            old(self).wf(),
            x < old(self).cells@.len(),
            y < old(self).cells@.len(),
        ensures
            final(self).wf(),
            final(self).extends(*old(self)),
            final(self).modulus == old(self).modulus,
            final(self).n_inputs == old(self).n_inputs,
            i == old(self).cells@.len(),
            final(self).cells@ == old(self).cells@.push(CellDef::Mul(x, y)),
            final(self).constraints@ == old(self).constraints@,
            forall|w: Seq<u64>|
                #[trigger] final(self).consistent(w) ==> w[i as int] as int == mul_mod(
                    w[x as int] as int,
                    w[y as int] as int,
                    final(self).modulus as int,
                ),
    {
        let i = self.cells.len();
        self.cells.push(CellDef::Mul(x, y));
        proof {
            lemma_input_count_push(old(self).cells@, CellDef::Mul(x, y));
        }
        i
    }

    /// Emits a multiply-by-constant gate: a fresh cell holding `cell(x) * k`.
    pub fn mul_const(&mut self, x: usize, k: u64, _span: Span) -> (i: usize)
        requires
            old(self).wf(),
            x < old(self).cells@.len(),
            k < old(self).modulus,
        ensures
            final(self).wf(),
            final(self).extends(*old(self)),
            final(self).modulus == old(self).modulus,
            final(self).n_inputs == old(self).n_inputs,
            i == old(self).cells@.len(),
            final(self).cells@ == old(self).cells@.push(CellDef::MulConst(x, k)),
            final(self).constraints@ == old(self).constraints@,
            forall|w: Seq<u64>|
                #[trigger] final(self).consistent(w) ==> w[i as int] as int == mul_mod(
                    w[x as int] as int,
                    k as int,
                    final(self).modulus as int,
                ),
    {
        let i = self.cells.len();
        self.cells.push(CellDef::MulConst(x, k));
        proof {
            lemma_input_count_push(old(self).cells@, CellDef::MulConst(x, k));
        }
        i
    }

    /// Emits a subtraction gate: a fresh cell holding `cell(x) - cell(y)`.
    pub fn sub(&mut self, x: usize, y: usize, _span: Span) -> (i: usize)
        requires
            old(self).wf(),
            x < old(self).cells@.len(),
            y < old(self).cells@.len(),
        ensures
            final(self).wf(),
            final(self).extends(*old(self)),
            final(self).modulus == old(self).modulus,
            final(self).n_inputs == old(self).n_inputs,
            i == old(self).cells@.len(),
            final(self).cells@ == old(self).cells@.push(CellDef::Sub(x, y)),
            final(self).constraints@ == old(self).constraints@,
            forall|w: Seq<u64>|
                #[trigger] final(self).consistent(w) ==> w[i as int] as int == sub_mod(
                    w[x as int] as int,
                    w[y as int] as int,
                    final(self).modulus as int,
                ),
    {
        let i = self.cells.len();
        self.cells.push(CellDef::Sub(x, y));
        proof {
            lemma_input_count_push(old(self).cells@, CellDef::Sub(x, y));
        }
        i
    }

    /// Allocates a fresh cell pinned to the constant `k`. The label is a
    /// human-readable note for diagnostics; the model does not retain it.
    pub fn add_constant(&mut self, _label: Option<&str>, k: u64, _span: Span) -> (i: usize)
        requires
            old(self).wf(),
            k < old(self).modulus,
        ensures
            final(self).wf(),
            final(self).extends(*old(self)),
            final(self).modulus == old(self).modulus,
            final(self).n_inputs == old(self).n_inputs,
            i == old(self).cells@.len(),
            final(self).cells@ == old(self).cells@.push(CellDef::Constant(k)),
            final(self).constraints@ == old(self).constraints@,
            forall|w: Seq<u64>| #[trigger] final(self).consistent(w) ==> w[i as int] == k,
    {
        let i = self.cells.len();
        self.cells.push(CellDef::Constant(k));
        proof {
            lemma_input_count_push(old(self).cells@, CellDef::Constant(k));
        }
        i
    }

    /// Allocates a fresh witness cell whose value is computed later per the
    /// deferred expression `val`.
    pub fn new_internal_var(&mut self, val: Value, _span: Span) -> (i: usize)
        requires
            old(self).wf(),
            value_wf(val, old(self).cells@.len() as int, old(self).modulus as int),
        ensures
            final(self).wf(),
            final(self).extends(*old(self)),
            final(self).modulus == old(self).modulus,
            final(self).n_inputs == old(self).n_inputs,
            i == old(self).cells@.len(),
            final(self).cells@ == old(self).cells@.push(CellDef::Internal(val)),
            final(self).constraints@ == old(self).constraints@,
            forall|w: Seq<u64>|
                #[trigger] final(self).consistent(w) ==> cell_holds(
                    CellDef::Internal(val),
                    i as int,
                    w,
                    final(self).modulus as int,
                ),
    {
        let i = self.cells.len();
        let c = CellDef::Internal(val);
        proof {
            lemma_input_count_push(old(self).cells@, c);
        }
        self.cells.push(c);
        i
    }

    /// Emits an equality constraint between two cells.
    pub fn assert_eq_var(&mut self, a: usize, b: usize, _span: Span)
        requires
            old(self).wf(),
            a < old(self).cells@.len(),
            b < old(self).cells@.len(),
        ensures
            final(self).wf(),
            final(self).extends(*old(self)),
            final(self).modulus == old(self).modulus,
            final(self).n_inputs == old(self).n_inputs,
            final(self).cells@ == old(self).cells@,
            final(self).constraints@ == old(self).constraints@.push(Constraint::EqVar(a, b)),
            forall|w: Seq<u64>| #[trigger] final(self).consistent(w) ==> w[a as int] == w[b as int],
    {
        self.constraints.push(Constraint::EqVar(a, b));
        proof {
            let j = old(self).constraints@.len() as int;
            assert forall|w: Seq<u64>| #[trigger] self.consistent(w) implies w[a as int] == w[b as int] by {
                assert(self.constraints@[j] == Constraint::EqVar(a, b));
                assert(constraint_holds(self.constraints@[j], w));
            }
        }
    }

    /// Emits an equality constraint between a cell and a constant.
    pub fn assert_eq_const(&mut self, a: usize, k: u64, _span: Span)
        requires
            old(self).wf(),
            a < old(self).cells@.len(),
            k < old(self).modulus,
        ensures
            final(self).wf(),
            final(self).extends(*old(self)),
            final(self).modulus == old(self).modulus,
            final(self).n_inputs == old(self).n_inputs,
            final(self).cells@ == old(self).cells@,
            final(self).constraints@ == old(self).constraints@.push(Constraint::EqConst(a, k)),
            forall|w: Seq<u64>| #[trigger] final(self).consistent(w) ==> w[a as int] == k,
    {
        self.constraints.push(Constraint::EqConst(a, k));
        proof {
            let j = old(self).constraints@.len() as int;
            assert forall|w: Seq<u64>| #[trigger] self.consistent(w) implies w[a as int] == k by {
                assert(self.constraints@[j] == Constraint::EqConst(a, k));
                assert(constraint_holds(self.constraints@[j], w));
            }
        }
    }
}

/// A witness consistent with a grown circuit is consistent with every
/// earlier state of it.
pub proof fn lemma_consistent_extends(post: CircuitWriter, pre: CircuitWriter, w: Seq<u64>)
    requires
        post.extends(pre),
        post.consistent(w),
    ensures
        pre.consistent(w),
{
}

pub proof fn lemma_extends_trans(c3: CircuitWriter, c2: CircuitWriter, c1: CircuitWriter)
    requires
        c3.extends(c2),
        c2.extends(c1),
    ensures
        c3.extends(c1),
{
}

/// Under a consistent witness every valid scalar takes a reduced value.
pub proof fn lemma_scalar_value_bounded(c: CircuitWriter, s: ConstOrCell, w: Seq<u64>)
    requires
        c.scalar_ok(s),
        c.consistent(w),
    ensures
        (scalar_value(s, w) as int) < c.modulus as int,
{
    match s {
        ConstOrCell::Const(_) => {
        },
        ConstOrCell::Cell(i) => {
            assert(w[i as int] < c.modulus);
        },
    }
}

/// Validity of a scalar survives growing the circuit.
pub proof fn lemma_scalar_ok_extends(post: CircuitWriter, pre: CircuitWriter, s: ConstOrCell)
    requires
        post.extends(pre),
        pre.scalar_ok(s),
    ensures
        post.scalar_ok(s),
{
}

} // verus!
