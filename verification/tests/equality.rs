use circuit_field::backend::CircuitWriter;
use circuit_field::var::{ConstOrCell, Span, Var};

fn sp() -> Span {
    Span { start: 0, len: 0 }
}

fn cell_index(v: &Var) -> usize {
    match v.cvars[0] {
        ConstOrCell::Cell(i) => i,
        ConstOrCell::Const(_) => panic!("expected a cell"),
    }
}

fn const_value(v: &Var) -> u64 {
    match v.cvars[0] {
        ConstOrCell::Const(c) => c,
        ConstOrCell::Cell(_) => panic!("expected a constant"),
    }
}

#[test]
fn equal_cells_with_same_witnessed_values_resolves_to_one() {
    let mut cw = CircuitWriter::new(7);
    let x = cw.new_witness();
    let y = cw.new_witness();
    let vx = Var::new_var(x, sp());
    let vy = Var::new_var(y, sp());
    let eq = circuit_field::field::equal(&mut cw, &vx, &vy, sp());
    let ei = cell_index(&eq);
    let w = cw.compute_witness(&vec![3, 3]).unwrap();
    assert_eq!(w[ei], 1);
}

#[test]
fn equal_cells_with_different_witnessed_values_resolves_to_zero() {
    let mut cw = CircuitWriter::new(7);
    let x = cw.new_witness();
    let y = cw.new_witness();
    let vx = Var::new_var(x, sp());
    let vy = Var::new_var(y, sp());
    let eq = circuit_field::field::equal(&mut cw, &vx, &vy, sp());
    let ei = cell_index(&eq);
    let w = cw.compute_witness(&vec![3, 5]).unwrap();
    assert_eq!(w[ei], 0);
}

#[test]
fn equal_constants_fold_with_no_allocation() {
    let mut cw = CircuitWriter::new(7);
    let a = Var::new_constant(3, sp());
    let b = Var::new_constant(3, sp());
    let eq = circuit_field::field::equal(&mut cw, &a, &b, sp());
    assert_eq!(const_value(&eq), 1);
    assert_eq!(cw.cells.len(), 0);
    assert_eq!(cw.constraints.len(), 0);
    let c = Var::new_constant(4, sp());
    let d = Var::new_constant(3, sp());
    let ne = circuit_field::field::equal(&mut cw, &c, &d, sp());
    assert_eq!(const_value(&ne), 0);
    assert_eq!(cw.cells.len(), 0);
}

#[test]
fn equal_of_a_compound_value_with_itself_resolves_to_one() {
    let mut cw = CircuitWriter::new(7);
    let x = cw.new_witness();
    let v1 = Var::new(vec![ConstOrCell::Cell(x), ConstOrCell::Const(4)], sp());
    let v2 = Var::new(vec![ConstOrCell::Cell(x), ConstOrCell::Const(4)], sp());
    let eq = circuit_field::field::equal(&mut cw, &v1, &v2, sp());
    let ei = cell_index(&eq);
    let w = cw.compute_witness(&vec![3]).unwrap();
    assert_eq!(w[ei], 1);
}

#[test]
fn equal_of_compound_values_differing_in_one_element_resolves_to_zero() {
    let mut cw = CircuitWriter::new(7);
    let x = cw.new_witness();
    let y = cw.new_witness();
    let v1 = Var::new(vec![ConstOrCell::Cell(x), ConstOrCell::Const(4)], sp());
    let v2 = Var::new(vec![ConstOrCell::Cell(y), ConstOrCell::Const(5)], sp());
    let eq = circuit_field::field::equal(&mut cw, &v1, &v2, sp());
    let w = cw.compute_witness(&vec![3, 3]).unwrap();
    // the differing constants fold to a zero bit, which the AND fold
    // propagates as a constant
    let resolved = match eq.cvars[0] {
        ConstOrCell::Const(c) => c,
        ConstOrCell::Cell(i) => w[i],
    };
    assert_eq!(resolved, 0);
}

#[test]
fn not_equal_complements_equal_on_single_scalars() {
    let mut cw = CircuitWriter::new(7);
    let x = cw.new_witness();
    let y = cw.new_witness();
    let vx = Var::new_var(x, sp());
    let vy = Var::new_var(y, sp());
    let eq = circuit_field::field::equal(&mut cw, &vx, &vy, sp());
    let ne = circuit_field::field::not_equal(&mut cw, &vx, &vy, sp());
    let ei = cell_index(&eq);
    let ni = cell_index(&ne);
    let w_same = cw.compute_witness(&vec![3, 3]).unwrap();
    assert_eq!(w_same[ei], 1);
    assert_eq!(w_same[ni], 0);
    let w_diff = cw.compute_witness(&vec![3, 5]).unwrap();
    assert_eq!(w_diff[ei], 0);
    assert_eq!(w_diff[ni], 1);
}

#[test]
fn not_equal_on_wide_values_is_one_only_when_every_element_differs() {
    let mut cw = CircuitWriter::new(7);
    let x = cw.new_witness();
    let y = cw.new_witness();
    let v1 = Var::new(vec![ConstOrCell::Cell(x), ConstOrCell::Const(2)], sp());
    let v2 = Var::new(vec![ConstOrCell::Cell(y), ConstOrCell::Const(4)], sp());
    let ne = circuit_field::field::not_equal(&mut cw, &v1, &v2, sp());
    let ni = cell_index(&ne);
    // every aligned pair differs: 1
    let w_all = cw.compute_witness(&vec![1, 3]).unwrap();
    assert_eq!(w_all[ni], 1);
    // the first pair agrees, the second differs: the AND fold yields 0,
    // as does `equal` on the same pair
    let w_mixed = cw.compute_witness(&vec![1, 1]).unwrap();
    assert_eq!(w_mixed[ni], 0);
}

#[test]
fn is_zero_cell_on_constants_folds() {
    let mut cw = CircuitWriter::new(7);
    let z = circuit_field::field::is_zero_cell(&mut cw, &ConstOrCell::Const(0), sp());
    assert_eq!(const_value(&z), 1);
    let nz = circuit_field::field::is_zero_cell(&mut cw, &ConstOrCell::Const(4), sp());
    assert_eq!(const_value(&nz), 0);
    assert_eq!(cw.cells.len(), 0);
}

#[test]
fn is_zero_cell_on_witnessed_cells_resolves_exactly() {
    let mut cw = CircuitWriter::new(7);
    let x = cw.new_witness();
    let y = cw.new_witness();
    let zx = circuit_field::field::is_zero_cell(&mut cw, &ConstOrCell::Cell(x), sp());
    let zy = circuit_field::field::is_zero_cell(&mut cw, &ConstOrCell::Cell(y), sp());
    let xi = cell_index(&zx);
    let yi = cell_index(&zy);
    let w = cw.compute_witness(&vec![0, 5]).unwrap();
    assert_eq!(w[xi], 1);
    assert_eq!(w[yi], 0);
}

#[test]
fn equal_against_a_constant_operand_resolves() {
    let mut cw = CircuitWriter::new(7);
    let x = cw.new_witness();
    let vx = Var::new_var(x, sp());
    let vc = Var::new_constant(3, sp());
    let eq = circuit_field::field::equal(&mut cw, &vx, &vc, sp());
    let ei = cell_index(&eq);
    let w_hit = cw.compute_witness(&vec![3]).unwrap();
    assert_eq!(w_hit[ei], 1);
    let w_miss = cw.compute_witness(&vec![6]).unwrap();
    assert_eq!(w_miss[ei], 0);
}
