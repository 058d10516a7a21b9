use circuit_field::backend::CircuitWriter;
use circuit_field::var::{ConstOrCell, Span, Var};

fn sp() -> Span {
    Span { start: 0, len: 0 }
}

fn cell_index(v: &Var) -> usize {
    match v.cvars[0] {
        ConstOrCell::Cell(i) => i,
        ConstOrCell::Const(_) => panic!("expected a cell"),
    }
}

#[test]
fn select_with_constant_one_returns_then_with_no_gates() {
    let mut cw = CircuitWriter::new(7);
    let x = cw.new_witness();
    let y = cw.new_witness();
    let n = cw.cells.len();
    let cond = Var::new_constant(1, sp());
    let t = Var::new(vec![ConstOrCell::Cell(x), ConstOrCell::Const(6)], sp());
    let e = Var::new(vec![ConstOrCell::Cell(y), ConstOrCell::Const(2)], sp());
    let r = circuit_field::field::if_else(&mut cw, &cond, &t, &e, sp());
    assert_eq!(r.cvars, t.cvars);
    assert_eq!(cw.cells.len(), n);
    assert_eq!(cw.constraints.len(), 0);
}

#[test]
fn select_with_constant_zero_returns_else_with_no_gates() {
    let mut cw = CircuitWriter::new(7);
    let x = cw.new_witness();
    let y = cw.new_witness();
    let n = cw.cells.len();
    let cond = Var::new_constant(0, sp());
    let t = Var::new(vec![ConstOrCell::Cell(x), ConstOrCell::Const(6)], sp());
    let e = Var::new(vec![ConstOrCell::Cell(y), ConstOrCell::Const(2)], sp());
    let r = circuit_field::field::if_else(&mut cw, &cond, &t, &e, sp());
    assert_eq!(r.cvars, e.cvars);
    assert_eq!(cw.cells.len(), n);
}

#[test]
fn select_with_constant_one_resolves_to_then_value() {
    let mut cw = CircuitWriter::new(7);
    let x = cw.new_witness();
    let y = cw.new_witness();
    let n = cw.cells.len();
    let cond = Var::new_constant(1, sp());
    let t = Var::new_var(x, sp());
    let e = Var::new_var(y, sp());
    let r = circuit_field::field::if_else(&mut cw, &cond, &t, &e, sp());
    // zero gates beyond the witnessed cells' own definitions
    assert_eq!(cw.cells.len(), n);
    let ri = cell_index(&r);
    let w = cw.compute_witness(&vec![3, 5]).unwrap();
    assert_eq!(w[ri], 3);
}

#[test]
fn select_with_cell_condition_resolves_by_the_condition_value() {
    let mut cw = CircuitWriter::new(7);
    let c = cw.new_witness();
    let x = cw.new_witness();
    let y = cw.new_witness();
    let cond = Var::new_var(c, sp());
    let t = Var::new_var(x, sp());
    let e = Var::new_var(y, sp());
    let r = circuit_field::field::if_else(&mut cw, &cond, &t, &e, sp());
    let ri = cell_index(&r);
    let w_then = cw.compute_witness(&vec![1, 5, 2]).unwrap();
    assert_eq!(w_then[ri], 5);
    let w_else = cw.compute_witness(&vec![0, 5, 2]).unwrap();
    assert_eq!(w_else[ri], 2);
}

#[test]
fn select_with_cell_condition_handles_wide_values() {
    let mut cw = CircuitWriter::new(7);
    let c = cw.new_witness();
    let x = cw.new_witness();
    let y = cw.new_witness();
    let cond = Var::new_var(c, sp());
    let t = Var::new(vec![ConstOrCell::Cell(x), ConstOrCell::Const(6)], sp());
    let e = Var::new(vec![ConstOrCell::Cell(y), ConstOrCell::Const(2)], sp());
    let r = circuit_field::field::if_else(&mut cw, &cond, &t, &e, sp());
    assert_eq!(r.cvars.len(), 2);
    let r0 = match r.cvars[0] {
        ConstOrCell::Cell(i) => i,
        ConstOrCell::Const(_) => panic!("expected a cell"),
    };
    let r1 = match r.cvars[1] {
        ConstOrCell::Cell(i) => i,
        ConstOrCell::Const(_) => panic!("expected a cell"),
    };
    let w_then = cw.compute_witness(&vec![1, 5, 3]).unwrap();
    assert_eq!(w_then[r0], 5);
    assert_eq!(w_then[r1], 6);
    let w_else = cw.compute_witness(&vec![0, 5, 3]).unwrap();
    assert_eq!(w_else[r0], 3);
    assert_eq!(w_else[r1], 2);
}
