use circuit_field::backend::CircuitWriter;
use circuit_field::var::{ConstOrCell, Span, Var};

fn sp() -> Span {
    Span { start: 0, len: 0 }
}

fn cell_index(v: &Var) -> usize {
    match v.cvars[0] {
        ConstOrCell::Cell(i) => i,
        ConstOrCell::Const(_) => panic!("expected a cell"),
    }
}

fn const_value(v: &Var) -> u64 {
    match v.cvars[0] {
        ConstOrCell::Const(c) => c,
        ConstOrCell::Cell(_) => panic!("expected a constant"),
    }
}

#[test]
fn add_constants_folds_with_no_allocation() {
    let mut cw = CircuitWriter::new(7);
    let r = circuit_field::field::add(
        &mut cw,
        &ConstOrCell::Const(2),
        &ConstOrCell::Const(3),
        sp(),
    );
    assert_eq!(const_value(&r), 5);
    assert_eq!(cw.cells.len(), 0);
    assert_eq!(cw.constraints.len(), 0);
}

#[test]
fn add_constants_reduces_modulo_p() {
    let mut cw = CircuitWriter::new(7);
    let r = circuit_field::field::add(
        &mut cw,
        &ConstOrCell::Const(5),
        &ConstOrCell::Const(4),
        sp(),
    );
    assert_eq!(const_value(&r), 2);
    assert_eq!(cw.cells.len(), 0);
}

#[test]
fn mul_constants_folds_with_no_allocation() {
    let mut cw = CircuitWriter::new(7);
    let r = circuit_field::field::mul(
        &mut cw,
        &ConstOrCell::Const(3),
        &ConstOrCell::Const(4),
        sp(),
    );
    assert_eq!(const_value(&r), 5);
    assert_eq!(cw.cells.len(), 0);
}

#[test]
fn add_zero_returns_the_cell_unchanged() {
    let mut cw = CircuitWriter::new(7);
    let x = cw.new_witness();
    let n = cw.cells.len();
    let r = circuit_field::field::add(
        &mut cw,
        &ConstOrCell::Cell(x),
        &ConstOrCell::Const(0),
        sp(),
    );
    assert_eq!(cell_index(&r), x);
    assert_eq!(cw.cells.len(), n);
    let r2 = circuit_field::field::add(
        &mut cw,
        &ConstOrCell::Const(0),
        &ConstOrCell::Cell(x),
        sp(),
    );
    assert_eq!(cell_index(&r2), x);
    assert_eq!(cw.cells.len(), n);
}

#[test]
fn mul_by_zero_constant_folds_to_zero() {
    let mut cw = CircuitWriter::new(7);
    let x = cw.new_witness();
    let n = cw.cells.len();
    let r = circuit_field::field::mul(
        &mut cw,
        &ConstOrCell::Cell(x),
        &ConstOrCell::Const(0),
        sp(),
    );
    assert_eq!(const_value(&r), 0);
    assert_eq!(cw.cells.len(), n);
    let r2 = circuit_field::field::mul(
        &mut cw,
        &ConstOrCell::Const(0),
        &ConstOrCell::Cell(x),
        sp(),
    );
    assert_eq!(const_value(&r2), 0);
    assert_eq!(cw.cells.len(), n);
}

#[test]
fn neg_constant_folds() {
    let mut cw = CircuitWriter::new(7);
    let r = circuit_field::field::neg(&mut cw, &ConstOrCell::Const(3), sp());
    assert_eq!(const_value(&r), 4);
    let z = circuit_field::field::neg(&mut cw, &ConstOrCell::Const(0), sp());
    assert_eq!(const_value(&z), 0);
    assert_eq!(cw.cells.len(), 0);
}

#[test]
fn sub_constants_folds() {
    let mut cw = CircuitWriter::new(7);
    let r = circuit_field::field::sub(
        &mut cw,
        &ConstOrCell::Const(3),
        &ConstOrCell::Const(5),
        sp(),
    );
    assert_eq!(const_value(&r), 5);
    assert_eq!(cw.cells.len(), 0);
}

#[test]
fn sub_constant_minus_cell_resolves() {
    let mut cw = CircuitWriter::new(7);
    let x = cw.new_witness();
    let r = circuit_field::field::sub(
        &mut cw,
        &ConstOrCell::Const(5),
        &ConstOrCell::Cell(x),
        sp(),
    );
    let ri = cell_index(&r);
    let w = cw.compute_witness(&vec![3]).unwrap();
    assert_eq!(w[ri], 2);
}

#[test]
fn cell_arithmetic_resolves_under_witness() {
    let mut cw = CircuitWriter::new(7);
    let x = cw.new_witness();
    let y = cw.new_witness();
    let s = circuit_field::field::add(
        &mut cw,
        &ConstOrCell::Cell(x),
        &ConstOrCell::Cell(y),
        sp(),
    );
    let m = circuit_field::field::mul(
        &mut cw,
        &ConstOrCell::Cell(x),
        &ConstOrCell::Cell(y),
        sp(),
    );
    let n = circuit_field::field::neg(&mut cw, &ConstOrCell::Cell(x), sp());
    let si = cell_index(&s);
    let mi = cell_index(&m);
    let ni = cell_index(&n);
    let w = cw.compute_witness(&vec![4, 5]).unwrap();
    assert_eq!(w[si], 2);
    assert_eq!(w[mi], 6);
    assert_eq!(w[ni], 3);
}
