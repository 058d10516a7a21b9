use circuit_field::backend::CircuitWriter;
use circuit_field::var::{ConstOrCell, Span, Var};

fn sp() -> Span {
    Span { start: 0, len: 0 }
}

#[test]
fn witness_with_wrong_input_count_is_refused() {
    let mut cw = CircuitWriter::new(7);
    let _x = cw.new_witness();
    let _y = cw.new_witness();
    assert!(cw.compute_witness(&vec![3]).is_none());
    assert!(cw.compute_witness(&vec![1, 2, 3]).is_none());
    assert!(cw.compute_witness(&vec![3, 4]).is_some());
}

#[test]
fn witness_with_unreduced_input_is_refused() {
    let mut cw = CircuitWriter::new(7);
    let _x = cw.new_witness();
    assert!(cw.compute_witness(&vec![7]).is_none());
    assert!(cw.compute_witness(&vec![6]).is_some());
}

#[test]
fn solved_witness_is_consistent_and_tampering_is_caught() {
    let mut cw = CircuitWriter::new(7);
    let x = cw.new_witness();
    let y = cw.new_witness();
    let s = circuit_field::field::add(
        &mut cw,
        &ConstOrCell::Cell(x),
        &ConstOrCell::Cell(y),
        sp(),
    );
    let si = match s.cvars[0] {
        ConstOrCell::Cell(i) => i,
        ConstOrCell::Const(_) => panic!("expected a cell"),
    };
    let w = cw.compute_witness(&vec![2, 3]).unwrap();
    assert!(cw.check_consistent(&w));
    let mut bad = w.clone();
    bad[si] = 6;
    assert!(!cw.check_consistent(&bad));
}

#[test]
fn violated_equality_constraint_makes_solving_fail() {
    let mut cw = CircuitWriter::new(7);
    let x = cw.new_witness();
    let five = cw.add_constant(Some("pin five"), 5, sp());
    cw.assert_eq_var(x, five, sp());
    assert!(cw.compute_witness(&vec![3]).is_none());
    let w = cw.compute_witness(&vec![5]).unwrap();
    assert_eq!(w[five], 5);
}

#[test]
fn equality_gadget_tolerates_inverting_zero() {
    // when both sides agree the difference is zero; the solver must fill
    // the deferred inverse with its zero fallback and still satisfy every
    // constraint
    let mut cw = CircuitWriter::new(7);
    let x = cw.new_witness();
    let vx = Var::new_var(x, sp());
    let vc = Var::new_constant(4, sp());
    let eq = circuit_field::field::equal(&mut cw, &vx, &vc, sp());
    let ei = match eq.cvars[0] {
        ConstOrCell::Cell(i) => i,
        ConstOrCell::Const(_) => panic!("expected a cell"),
    };
    let w = cw.compute_witness(&vec![4]).unwrap();
    assert_eq!(w[ei], 1);
}

#[test]
fn not_equal_needs_no_boolean_check_on_wide_folds() {
    // the inequality fold multiplies boolean bits only; a three-element
    // value exercises two AND gates in a row
    let mut cw = CircuitWriter::new(11);
    let a = cw.new_witness();
    let b = cw.new_witness();
    let c = cw.new_witness();
    let v1 = Var::new(
        vec![
            ConstOrCell::Cell(a),
            ConstOrCell::Cell(b),
            ConstOrCell::Cell(c),
        ],
        sp(),
    );
    let v2 = Var::new(
        vec![
            ConstOrCell::Const(1),
            ConstOrCell::Const(2),
            ConstOrCell::Const(3),
        ],
        sp(),
    );
    let ne = circuit_field::field::not_equal(&mut cw, &v1, &v2, sp());
    let ni = match ne.cvars[0] {
        ConstOrCell::Cell(i) => i,
        ConstOrCell::Const(_) => panic!("expected a cell"),
    };
    let w = cw.compute_witness(&vec![4, 5, 6]).unwrap();
    assert_eq!(w[ni], 1);
    let w2 = cw.compute_witness(&vec![1, 5, 6]).unwrap();
    assert_eq!(w2[ni], 0);
}
