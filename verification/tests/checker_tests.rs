use air_soundness::air::ConstraintBuilder;
use air_soundness::check_constraints::{check_constraints, eval_on_trace};
use air_soundness::field_elem::{FieldElem, FIELD_ORDER};
use air_soundness::round_flags_air::{generate_trace_rows, next_power_of_two, RoundFlagsAir, NUM_ROUNDS};
use air_soundness::symbolic::{next_row, SymbolicExpression};
use air_soundness::trace::Trace;

#[test]
fn next_power_of_two_values() {
    assert_eq!(next_power_of_two(1), 1);
    assert_eq!(next_power_of_two(2), 2);
    assert_eq!(next_power_of_two(3), 4);
    assert_eq!(next_power_of_two(24), 32);
    assert_eq!(next_power_of_two(32), 32);
    assert_eq!(next_power_of_two(33), 64);
}

#[test]
fn generated_trace_shape_and_pattern() {
    let t = generate_trace_rows();
    assert_eq!(t.width(), NUM_ROUNDS);
    assert_eq!(t.height(), 32);
    for r in 0..32 {
        for c in 0..NUM_ROUNDS {
            let expected = if c == r % NUM_ROUNDS { 1 } else { 0 };
            assert_eq!(t.get(r, c).value, expected);
        }
    }
}

#[test]
fn valid_trace_passes_concrete_check() {
    let t = generate_trace_rows();
    assert_eq!(check_constraints(&RoundFlagsAir {}, &t), Ok(()));
}

#[test]
fn mutated_cell_fails_at_predictable_row() {
    let t = generate_trace_rows();
    // Clearing the flag of row 5 breaks the transition constraint of row 4,
    // the first row whose window sees the damaged cell.
    let mut values = t.values.clone();
    values[5 * NUM_ROUNDS + 5] = FieldElem::new(0);
    let broken = Trace::new(values, NUM_ROUNDS);
    assert_eq!(check_constraints(&RoundFlagsAir {}, &broken), Err(4));
}

#[test]
fn mutated_first_row_fails_at_row_zero() {
    let t = generate_trace_rows();
    let mut values = t.values.clone();
    values[0] = FieldElem::new(0);
    let broken = Trace::new(values, NUM_ROUNDS);
    assert_eq!(check_constraints(&RoundFlagsAir {}, &broken), Err(0));
}

#[test]
fn next_row_wraps_at_last_row() {
    assert_eq!(next_row(0, 32), 1);
    assert_eq!(next_row(30, 32), 31);
    assert_eq!(next_row(31, 32), 0);
}

#[test]
fn boundary_predicates_evaluate_concretely() {
    let t = generate_trace_rows();
    let first = SymbolicExpression::IsFirstRow;
    let last = SymbolicExpression::IsLastRow;
    let transition = SymbolicExpression::IsTransition;
    assert_eq!(eval_on_trace(&first, &t, 0).value, 1);
    assert_eq!(eval_on_trace(&first, &t, 1).value, 0);
    assert_eq!(eval_on_trace(&last, &t, 31).value, 1);
    assert_eq!(eval_on_trace(&last, &t, 30).value, 0);
    assert_eq!(eval_on_trace(&transition, &t, 31).value, 0);
    assert_eq!(eval_on_trace(&transition, &t, 0).value, 1);
}

#[test]
fn expression_arithmetic_evaluates_modulo_order() {
    let t = generate_trace_rows();
    // (0 - cell(0, 0)) mod P where cell(0, 0) is 1
    let e = SymbolicExpression::Neg(Box::new(SymbolicExpression::Variable {
        column: 0,
        is_next: false,
    }));
    assert_eq!(eval_on_trace(&e, &t, 0).value, FIELD_ORDER - 1);
    // a next-row reference at the last row wraps to the first row
    let wrap = SymbolicExpression::Variable { column: 7, is_next: true };
    assert_eq!(eval_on_trace(&wrap, &t, 31).value, t.get(0, 7).value);
    assert_eq!(eval_on_trace(&wrap, &t, 6).value, 1);
}

#[test]
fn builder_supplies_the_window_interface() {
    let mut b = ConstraintBuilder::new(3);
    assert_eq!(b.is_first_row(), SymbolicExpression::IsFirstRow);
    assert_eq!(b.is_last_row(), SymbolicExpression::IsLastRow);
    assert_eq!(b.is_transition(), SymbolicExpression::IsTransition);
    assert_eq!(b.is_transition_window(2), SymbolicExpression::IsTransition);
    assert_eq!(
        b.cell(1, true),
        SymbolicExpression::Variable { column: 1, is_next: true }
    );
    let x = b.cell(0, false);
    let y = b.cell(2, false);
    b.assert_eq(x, y);
    assert_eq!(b.constraints.len(), 1);
    assert_eq!(
        b.constraints[0],
        SymbolicExpression::Sub(
            Box::new(SymbolicExpression::Variable { column: 0, is_next: false }),
            Box::new(SymbolicExpression::Variable { column: 2, is_next: false }),
        )
    );
}
