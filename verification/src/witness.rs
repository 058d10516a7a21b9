//! The witness solver: fills every cell of a finished circuit from the
//! values of its input cells, following each cell's defining equation and
//! the deterministic witness-filling rules for deferred expressions, then
//! checks the explicit constraints.
//!
//! The solved assignment is pinned down exactly by the spec-level evaluator
//! [`CircuitWriter::solved_witness`]; in particular the rule for a deferred
//! inverse supplies the zero fallback when the inverted cell holds zero (or
//! no inverse exists), so solving never fails on that account.

use vstd::prelude::*;

use crate::backend::{
    cell_holds, cell_wf, constraint_holds, constraint_wf, count_input, input_count, lc_mod,
    CellDef, CircuitWriter, Constraint, Value,
};
use crate::modular::{
    add_mod, fe_add, fe_inv_search, fe_mul, fe_neg, fe_sub, inv_mod, mul_mod, neg_mod, sub_mod,
};

verus! {

pub proof fn lemma_input_count_take_unfold(s: Seq<CellDef>, m: int)
    requires
        0 <= m < s.len(),
    ensures
        input_count(s.take(m + 1)) == input_count(s.take(m)) + count_input(s[m]),
{
    assert(s.take(m + 1).drop_last() =~= s.take(m));
    assert(s.take(m + 1).last() == s[m]);
}

pub proof fn lemma_input_count_take_le(s: Seq<CellDef>, m: int)
    requires
        0 <= m <= s.len(),
    ensures
        input_count(s.take(m)) <= input_count(s),
    decreases s.len() - m,
{
    if m < s.len() {
        lemma_input_count_take_unfold(s, m);
        lemma_input_count_take_le(s, m + 1);
    } else {
        assert(s.take(m) =~= s);
    }
}

/// The value of a linear combination computed on representatives.
fn lc_value(terms: &Vec<(u64, usize)>, k: u64, w: &Vec<u64>, p: u64) -> (r: u64)
    requires
        2 <= p,
        k < p,
        forall|t: int|
            0 <= t < terms@.len() ==> (#[trigger] terms@[t]).0 < p && (terms@[t].1 as int)
                < w@.len() && w@[terms@[t].1 as int] < p,
    ensures
        r < p,
        r as int == lc_mod(terms@, k, w@, p as int),
{
    let mut acc: u64 = k;
    let mut t: usize = 0;
    proof {
        assert(terms@.take(0) =~= Seq::<(u64, usize)>::empty());
    }
    while t < terms.len()
        invariant
            2 <= p,
            k < p,
            forall|tt: int|
                0 <= tt < terms@.len() ==> (#[trigger] terms@[tt]).0 < p && (terms@[tt].1 as int)
                    < w@.len() && w@[terms@[tt].1 as int] < p,
            t <= terms@.len(),
            acc < p,
            acc as int == lc_mod(terms@.take(t as int), k, w@, p as int),
        decreases terms@.len() - t,
    {
        let pair = terms[t];
        let m = fe_mul(pair.0, w[pair.1], p);
        acc = fe_add(acc, m, p);
        proof {
            assert(terms@.take(t as int + 1).drop_last() =~= terms@.take(t as int));
            assert(terms@.take(t as int + 1).last() == terms@[t as int]);
        }
        t = t + 1;
    }
    proof {
        assert(terms@.take(terms@.len() as int) =~= terms@);
    }
    acc
}

impl CircuitWriter {
    /// All input cells are covered by the given values, each a reduced
    /// field element.
    pub open spec fn inputs_ok(self, inputs: Seq<u64>) -> bool {
        &&& inputs.len() == self.n_inputs
        &&& forall|i: int| 0 <= i < inputs.len() ==> #[trigger] inputs[i] < self.modulus
    }

    /// The value the solver assigns to cell `i`, given the values `prev`
    /// already assigned to the earlier cells.
    pub open spec fn eval_cell(self, inputs: Seq<u64>, prev: Seq<u64>, i: int) -> u64 {
        let p = self.modulus as int;
        match self.cells@[i] {
            CellDef::Input => {
                let k = input_count(self.cells@.take(i)) as int;
                if k < inputs.len() {
                    inputs[k]
                } else {
                    0
                }
            },
            CellDef::Constant(k) => k,
            CellDef::Neg(x) => neg_mod(prev[x as int] as int, p) as u64,
            CellDef::Add(x, y) => add_mod(prev[x as int] as int, prev[y as int] as int, p) as u64,
            CellDef::AddConst(x, k) => add_mod(prev[x as int] as int, k as int, p) as u64,
            CellDef::Mul(x, y) => mul_mod(prev[x as int] as int, prev[y as int] as int, p) as u64,
            CellDef::MulConst(x, k) => mul_mod(prev[x as int] as int, k as int, p) as u64,
            CellDef::Sub(x, y) => sub_mod(prev[x as int] as int, prev[y as int] as int, p) as u64,
            CellDef::Internal(v) => match v {
                Value::Inverse(x) => inv_mod(prev[x as int] as int, p) as u64,
                Value::LinearCombination(terms, k) => lc_mod(terms@, k, prev, p) as u64,
            },
        }
    }

    /// The solver's assignment to the first `n` cells.
    pub open spec fn eval_upto(self, inputs: Seq<u64>, n: nat) -> Seq<u64>
        decreases n,
    {
        if n == 0 {
            Seq::empty()
        } else {
            let prev = self.eval_upto(inputs, (n - 1) as nat);
            prev.push(self.eval_cell(inputs, prev, n - 1))
        }
    }

    /// The full assignment the deterministic solver produces.
    pub open spec fn solved_witness(self, inputs: Seq<u64>) -> Seq<u64> {
        self.eval_upto(inputs, self.cells@.len())
    }

    /// Decides whether `w` is a witness consistent with the circuit.
    pub fn check_consistent(&self, w: &Vec<u64>) -> (b: bool)
        requires
            self.wf(),
        ensures
            b == self.consistent(w@),
    {
        let n = self.cells.len();
        let p = self.modulus;
        if w.len() < n {
            return false;
        }
        let mut i: usize = 0;
        while i < n
            invariant
                self.wf(),
                n == self.cells@.len(),
                p == self.modulus,
                n <= w@.len(),
                i <= n,
                forall|j: int| 0 <= j < i ==> #[trigger] w@[j] < p,
            decreases n - i,
        {
            if w[i] >= p {
                proof {
                    assert(!self.consistent(w@)) by {
                        if self.consistent(w@) {
                            assert(w@[i as int] < self.modulus);
                        }
                    }
                }
                return false;
            }
            i = i + 1;
        }
        let mut i: usize = 0;
        while i < n
            invariant
                self.wf(),
                n == self.cells@.len(),
                p == self.modulus,
                n <= w@.len(),
                i <= n,
                forall|j: int| 0 <= j < n ==> #[trigger] w@[j] < p,
                forall|j: int|
                    0 <= j < i ==> cell_holds(
                        #[trigger] self.cells@[j],
                        j,
                        w@,
                        self.modulus as int,
                    ),
            decreases n - i,
        {
            proof {
                assert(cell_wf(self.cells@[i as int], i as int, self.modulus as int));
            }
            let ok: bool = match &self.cells[i] {
                CellDef::Input => true,
                CellDef::Constant(k) => w[i] == *k,
                CellDef::Neg(x) => w[i] == fe_neg(w[*x], p),
                CellDef::Add(x, y) => w[i] == fe_add(w[*x], w[*y], p),
                CellDef::AddConst(x, k) => w[i] == fe_add(w[*x], *k, p),
                CellDef::Mul(x, y) => w[i] == fe_mul(w[*x], w[*y], p),
                CellDef::MulConst(x, k) => w[i] == fe_mul(w[*x], *k, p),
                CellDef::Sub(x, y) => w[i] == fe_sub(w[*x], w[*y], p),
                CellDef::Internal(Value::Inverse(x)) => {
                    if w[*x] == 0 {
                        true
                    } else {
                        fe_mul(w[i], w[*x], p) == 1
                    }
                },
                CellDef::Internal(Value::LinearCombination(terms, k)) => {
                    w[i] == lc_value(terms, *k, w, p)
                },
            };
            if !ok {
                proof {
                    assert(!cell_holds(self.cells@[i as int], i as int, w@, self.modulus as int));
                    assert(!self.consistent(w@)) by {
                        if self.consistent(w@) {
                            assert(cell_holds(
                                self.cells@[i as int],
                                i as int,
                                w@,
                                self.modulus as int,
                            ));
                        }
                    }
                }
                return false;
            }
            i = i + 1;
        }
        let m = self.constraints.len();
        let mut j: usize = 0;
        while j < m
            invariant
                self.wf(),
                n == self.cells@.len(),
                p == self.modulus,
                m == self.constraints@.len(),
                n <= w@.len(),
                j <= m,
                forall|t: int| 0 <= t < n ==> #[trigger] w@[t] < p,
                forall|t: int|
                    0 <= t < n ==> cell_holds(#[trigger] self.cells@[t], t, w@, self.modulus as int),
                forall|t: int|
                    0 <= t < j ==> constraint_holds(#[trigger] self.constraints@[t], w@),
            decreases m - j,
        {
            proof {
                assert(constraint_wf(
                    self.constraints@[j as int],
                    self.cells@.len() as int,
                    self.modulus as int,
                ));
            }
            let ok: bool = match &self.constraints[j] {
                Constraint::EqVar(a, b) => w[*a] == w[*b],
                Constraint::EqConst(a, k) => w[*a] == *k,
            };
            if !ok {
                proof {
                    assert(!self.consistent(w@)) by {
                        if self.consistent(w@) {
                            assert(constraint_holds(self.constraints@[j as int], w@));
                        }
                    }
                }
                return false;
            }
            j = j + 1;
        }
        true
    }

    /// Solves the circuit: assigns every input cell its given value in
    /// order of allocation, fills every other cell by its defining equation
    /// or deferred expression, and returns the assignment when it satisfies
    /// every constraint. Returns nothing exactly when the inputs do not
    /// cover the input cells with reduced values, or when the solved
    /// assignment violates a constraint.
    pub fn compute_witness(&self, inputs: &Vec<u64>) -> (r: Option<Vec<u64>>)
        requires
            self.wf(),
        ensures
            self.inputs_ok(inputs@) && self.consistent(self.solved_witness(inputs@)) ==> (
            r matches Some(w) && w@ == self.solved_witness(inputs@)),
            !(self.inputs_ok(inputs@) && self.consistent(self.solved_witness(inputs@)))
                ==> r is None,
    {
        if inputs.len() != self.n_inputs {
            return None;
        }
        let p = self.modulus;
        let mut i: usize = 0;
        while i < inputs.len()
            invariant
                p == self.modulus,
                i <= inputs@.len(),
                forall|j: int| 0 <= j < i ==> #[trigger] inputs@[j] < p,
            decreases inputs@.len() - i,
        {
            if inputs[i] >= p {
                return None;
            }
            i = i + 1;
        }
        let n = self.cells.len();
        let mut w: Vec<u64> = Vec::new();
        let mut k: usize = 0;
        let mut i: usize = 0;
        proof {
            assert(self.cells@.take(0) =~= Seq::<CellDef>::empty());
        }
        while i < n
            invariant
                self.wf(),
                self.inputs_ok(inputs@),
                p == self.modulus,
                n == self.cells@.len(),
                i <= n,
                w@.len() == i,
                w@ == self.eval_upto(inputs@, i as nat),
                k as nat == input_count(self.cells@.take(i as int)),
                forall|j: int| 0 <= j < i ==> #[trigger] w@[j] < p,
            decreases n - i,
        {
            proof {
                assert(cell_wf(self.cells@[i as int], i as int, self.modulus as int));
                lemma_input_count_take_unfold(self.cells@, i as int);
                lemma_input_count_take_le(self.cells@, i as int + 1);
                assert(self.cells@.take(n as int) =~= self.cells@);
            }
            let mut is_input: bool = false;
            let val: u64 = match &self.cells[i] {
                CellDef::Input => {
                    is_input = true;
                    inputs[k]
                },
                CellDef::Constant(c) => *c,
                CellDef::Neg(x) => fe_neg(w[*x], p),
                CellDef::Add(x, y) => fe_add(w[*x], w[*y], p),
                CellDef::AddConst(x, c) => fe_add(w[*x], *c, p),
                CellDef::Mul(x, y) => fe_mul(w[*x], w[*y], p),
                CellDef::MulConst(x, c) => fe_mul(w[*x], *c, p),
                CellDef::Sub(x, y) => fe_sub(w[*x], w[*y], p),
                CellDef::Internal(Value::Inverse(x)) => fe_inv_search(w[*x], p),
                CellDef::Internal(Value::LinearCombination(terms, c)) => {
                    lc_value(terms, *c, &w, p)
                },
            };
            if is_input {
                k = k + 1;
            }
            proof {
                assert(val == self.eval_cell(inputs@, w@, i as int));
            }
            w.push(val);
            i = i + 1;
        }
        if self.check_consistent(&w) {
            Some(w)
        } else {
            None
        }
    }
}

} // verus!
