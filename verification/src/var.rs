//! The value model: scalars that are either compile-time constants or
//! backend cells, and compound values made of a non-empty sequence of them.

use vstd::prelude::*;

verus! {

/// A source location, carried along for diagnostics. The backend and the
/// gadgets never read it.
#[derive(Clone, Copy, Debug, PartialEq, Eq, Structural)]
pub struct Span {
    pub start: usize,
    pub len: usize,
}

/// A scalar value: either a field constant known at compile time (its
/// canonical representative below the modulus) or the index of a
/// backend-managed cell whose value only a witness determines.
#[derive(Clone, Copy, Debug, PartialEq, Eq, Structural)]
pub enum ConstOrCell {
    Const(u64),
    Cell(usize),
}

/// A compound value: an ordered, non-empty sequence of scalars standing for
/// one logical quantity, possibly spanning several cells.
#[derive(Debug)]
pub struct Var {
    pub cvars: Vec<ConstOrCell>,
    pub span: Span,
}

impl Var {
    /// A compound value from its scalars.
    pub fn new(cvars: Vec<ConstOrCell>, span: Span) -> (res: Var)
        ensures
            res.cvars@ == cvars@,
            res.span == span,
    {
        Var { cvars, span }
    }

    /// A single-scalar value holding a constant.
    pub fn new_constant(c: u64, span: Span) -> (res: Var)
        ensures
            res.cvars@.len() == 1,
            res.cvars@[0] == ConstOrCell::Const(c),
            res.span == span,
    {
        Var { cvars: vec![ConstOrCell::Const(c)], span }
    }

    /// A single-scalar value referring to a backend cell.
    pub fn new_var(idx: usize, span: Span) -> (res: Var)
        ensures
            res.cvars@.len() == 1,
            res.cvars@[0] == ConstOrCell::Cell(idx),
            res.span == span,
    {
        Var { cvars: vec![ConstOrCell::Cell(idx)], span }
    }

    /// A single-scalar value from an existing scalar.
    pub fn new_cvar(cvar: ConstOrCell, span: Span) -> (res: Var)
        ensures
            res.cvars@.len() == 1,
            res.cvars@[0] == cvar,
            res.span == span,
    {
        Var { cvars: vec![cvar], span }
    }

    /// The number of scalars the value spans.
    pub fn len(&self) -> (n: usize)
        ensures
            n == self.cvars@.len(),
    {
        self.cvars.len()
    }

    /// The scalar at position `i`.
    pub fn cvar(&self, i: usize) -> (s: ConstOrCell)
        requires
            i < self.cvars@.len(),
        ensures
            s == self.cvars@[i as int],
    {
        self.cvars[i]
    }
}

} // verus!
