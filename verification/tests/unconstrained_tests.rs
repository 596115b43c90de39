use air_soundness::air::{Air, ConstraintBuilder};
use air_soundness::backend::solve;
use air_soundness::check_unconstrained::{
    build_query, check_unconstrained, classify_model, parse_symbolic_expression,
    unconstrained_query, CheckOutcome, SolverResult,
};
use air_soundness::field::Felt;
use air_soundness::field_elem::{FieldElem, FIELD_ORDER};
use air_soundness::round_flags_air::{generate_trace_rows, RoundFlagsAir, NUM_ROUNDS};
use air_soundness::query::Query;
use air_soundness::symbolic::SymbolicExpression;
use air_soundness::term::{Formula, Term, TermPair};
use air_soundness::trace::Trace;

fn trace_as_model(t: &Trace) -> Vec<u64> {
    t.values.iter().map(|f| f.value).collect()
}

fn round_flags_constraint_list() -> Vec<SymbolicExpression> {
    let mut builder = ConstraintBuilder::new(NUM_ROUNDS);
    RoundFlagsAir {}.eval(&mut builder);
    builder.constraints
}

#[test]
fn query_declares_one_variable_per_cell() {
    let t = generate_trace_rows();
    let q = unconstrained_query(&RoundFlagsAir {}, &t);
    assert_eq!(q.num_vars, 32 * NUM_ROUNDS);
    // ranges, one pair per cell; one compiled constraint per row; distinctness
    assert_eq!(q.assertions.len(), 2 * 768 + 32 * (2 * NUM_ROUNDS) + 1);
}

#[test]
fn query_opens_with_range_assertions() {
    let t = generate_trace_rows();
    let q = unconstrained_query(&RoundFlagsAir {}, &t);
    assert_eq!(q.assertions[0], Formula::Ge(Term::Var(0), Term::Const(0)));
    assert_eq!(q.assertions[1], Formula::Lt(Term::Var(0), Term::Const(FIELD_ORDER)));
    assert_eq!(q.assertions[2 * 767], Formula::Ge(Term::Var(767), Term::Const(0)));
    assert_eq!(q.assertions[2 * 767 + 1], Formula::Lt(Term::Var(767), Term::Const(FIELD_ORDER)));
}

#[test]
fn query_compiles_first_constraint_of_first_row() {
    let t = generate_trace_rows();
    let q = unconstrained_query(&RoundFlagsAir {}, &t);
    // is_first_row * (cell(0, 0) - 1), compiled at row 0, each node reduced
    let expected = Term::Mod(
        Box::new(Term::Mul(
            Box::new(Term::Const(1)),
            Box::new(Term::Mod(
                Box::new(Term::Sub(Box::new(Term::Var(0)), Box::new(Term::Const(1)))),
                Box::new(Term::Const(FIELD_ORDER)),
            )),
        )),
        Box::new(Term::Const(FIELD_ORDER)),
    );
    assert_eq!(q.assertions[2 * 768], Formula::Eq(expected, Term::Const(0)));
}

#[test]
fn query_closes_with_distinctness_disjunction() {
    let t = generate_trace_rows();
    let q = unconstrained_query(&RoundFlagsAir {}, &t);
    match q.assertions.last().unwrap() {
        Formula::NeAny(pairs) => {
            assert_eq!(pairs.len(), 768);
            assert_eq!(pairs[0], TermPair { a: Term::Var(0), b: Term::Const(1) });
            assert_eq!(pairs[1], TermPair { a: Term::Var(1), b: Term::Const(0) });
            // row 1 has its flag in column 1: cell 25 holds 1
            assert_eq!(pairs[25], TermPair { a: Term::Var(25), b: Term::Const(1) });
        }
        other => panic!("expected the distinctness disjunction, got {:?}", other),
    }
}

#[test]
fn query_is_deterministic() {
    let t = generate_trace_rows();
    let q1 = unconstrained_query(&RoundFlagsAir {}, &t);
    let q2 = unconstrained_query(&RoundFlagsAir {}, &t);
    assert_eq!(q1, q2);
}

#[test]
fn classification_is_deterministic() {
    let t = generate_trace_rows();
    let cs = round_flags_constraint_list();
    let o1 = classify_model(&cs, &t, SolverResult::Unsat);
    let o2 = classify_model(&cs, &t, SolverResult::Unsat);
    assert_eq!(o1, o2);
    assert_eq!(o1, CheckOutcome::Sound);
}

#[test]
fn unsat_is_classified_sound() {
    let t = generate_trace_rows();
    let o = classify_model(&round_flags_constraint_list(), &t, SolverResult::Unsat);
    assert_eq!(o, CheckOutcome::Sound);
}

#[test]
fn unknown_is_classified_indeterminate() {
    let t = generate_trace_rows();
    let o = classify_model(&round_flags_constraint_list(), &t, SolverResult::Unknown);
    assert_eq!(o, CheckOutcome::Indeterminate);
}

#[test]
fn model_equal_to_the_trace_is_rejected() {
    let t = generate_trace_rows();
    let model = trace_as_model(&t);
    let o = classify_model(&round_flags_constraint_list(), &t, SolverResult::Sat(model));
    assert_eq!(o, CheckOutcome::Indeterminate);
}

#[test]
fn model_of_wrong_size_is_rejected() {
    let t = generate_trace_rows();
    let o = classify_model(&round_flags_constraint_list(), &t, SolverResult::Sat(vec![1, 2, 3]));
    assert_eq!(o, CheckOutcome::Indeterminate);
}

#[test]
fn model_with_out_of_range_cell_is_rejected() {
    let t = generate_trace_rows();
    let mut model = trace_as_model(&t);
    model[10] = FIELD_ORDER;
    let o = classify_model(&round_flags_constraint_list(), &t, SolverResult::Sat(model));
    assert_eq!(o, CheckOutcome::Indeterminate);
}

#[test]
fn model_violating_a_constraint_is_rejected() {
    let t = generate_trace_rows();
    let mut model = trace_as_model(&t);
    // in range and different from the trace, but row 0 no longer carries flag 0
    model[0] = 0;
    let o = classify_model(&round_flags_constraint_list(), &t, SolverResult::Sat(model));
    assert_eq!(o, CheckOutcome::Indeterminate);
}

/// The rotation constraints alone, with only flag 0 of the first row pinned:
/// the flags must rotate, but nothing forces the other first-row cells, so a
/// second satisfying trace exists.
fn rotation_only_constraints() -> Vec<SymbolicExpression> {
    let mut cs = Vec::new();
    cs.push(SymbolicExpression::Mul(
        Box::new(SymbolicExpression::IsFirstRow),
        Box::new(SymbolicExpression::Sub(
            Box::new(SymbolicExpression::Variable { column: 0, is_next: false }),
            Box::new(SymbolicExpression::Constant(FieldElem::one())),
        )),
    ));
    for i in 0..NUM_ROUNDS {
        cs.push(SymbolicExpression::Mul(
            Box::new(SymbolicExpression::IsTransition),
            Box::new(SymbolicExpression::Sub(
                Box::new(SymbolicExpression::Variable {
                    column: (i + 1) % NUM_ROUNDS,
                    is_next: true,
                }),
                Box::new(SymbolicExpression::Variable { column: i, is_next: false }),
            )),
        ));
    }
    cs
}

#[test]
fn under_constrained_circuit_yields_checked_witness() {
    let t = generate_trace_rows();
    let cs = rotation_only_constraints();
    // A second legal trace for the weakened circuit: the first row also
    // carries a stray 5 in column 1, and the whole row rotates as required.
    let mut row0 = [0u64; 24];
    row0[0] = 1;
    row0[1] = 5;
    let mut model = Vec::new();
    for r in 0..32 {
        for j in 0..24 {
            model.push(row0[(j + 24 - r % 24) % 24]);
        }
    }
    let o = classify_model(&cs, &t, SolverResult::Sat(model.clone()));
    match o {
        CheckOutcome::Unsound(w) => {
            assert_eq!(w.width(), NUM_ROUNDS);
            assert_eq!(w.height(), 32);
            assert_eq!(w.get(0, 0).value, 1);
            assert_eq!(w.get(0, 1).value, 5);
            assert_eq!(w.get(1, 2).value, 5);
            assert_eq!(w.get(31, 8).value, 5);
            let cells: Vec<u64> = w.values.iter().map(|f| f.value).collect();
            assert_eq!(cells, model);
        }
        other => panic!("expected an under-constraint witness, got {:?}", other),
    }
}

#[test]
fn witness_for_weakened_circuit_is_rejected_by_full_circuit() {
    let t = generate_trace_rows();
    let mut row0 = [0u64; 24];
    row0[0] = 1;
    row0[1] = 5;
    let mut model = Vec::new();
    for r in 0..32 {
        for j in 0..24 {
            model.push(row0[(j + 24 - r % 24) % 24]);
        }
    }
    let o = classify_model(&round_flags_constraint_list(), &t, SolverResult::Sat(model));
    assert_eq!(o, CheckOutcome::Indeterminate);
}

#[test]
fn compiled_boundary_predicates_match_concrete_values() {
    let mut vars = Vec::new();
    for k in 0..(32 * NUM_ROUNDS) {
        vars.push(Felt::from_int(Term::Var(k)));
    }
    let transition = SymbolicExpression::IsTransition;
    let first = SymbolicExpression::IsFirstRow;
    let last = SymbolicExpression::IsLastRow;
    assert_eq!(parse_symbolic_expression(&transition, &vars, 24, 31, 32).term, Term::Const(0));
    assert_eq!(parse_symbolic_expression(&transition, &vars, 24, 30, 32).term, Term::Const(1));
    assert_eq!(parse_symbolic_expression(&first, &vars, 24, 0, 32).term, Term::Const(1));
    assert_eq!(parse_symbolic_expression(&last, &vars, 24, 31, 32).term, Term::Const(1));
    assert_eq!(parse_symbolic_expression(&last, &vars, 24, 30, 32).term, Term::Const(0));
    // a next-row reference at the last row compiles to a first-row variable
    let wrap = SymbolicExpression::Variable { column: 3, is_next: true };
    assert_eq!(parse_symbolic_expression(&wrap, &vars, 24, 31, 32).term, Term::Var(3));
    assert_eq!(parse_symbolic_expression(&wrap, &vars, 24, 0, 32).term, Term::Var(27));
}

#[test]
fn felt_constants_and_literals() {
    assert_eq!(Felt::from_u64(9).term, Term::Const(9));
    assert_eq!(Felt::from_bool(true).term, Term::Const(1));
    assert_eq!(Felt::from_f(FieldElem::new(7)).term, Term::Const(7));
    assert_eq!(Felt::from_u64(9).as_u64(), Some(9));
    assert_eq!(Felt::from_int(Term::Var(4)).as_u64(), None);
}

#[test]
fn felt_arithmetic_builds_reduced_terms() {
    let a = Felt::from_u64(2);
    let b = Felt::from_u64(3);
    let sum = Felt::add(&vec![a, b]);
    assert_eq!(
        sum.term,
        Term::Mod(
            Box::new(Term::Add(Box::new(Term::Const(2)), Box::new(Term::Const(3)))),
            Box::new(Term::Const(FIELD_ORDER)),
        )
    );
    let neg = Felt::from_u64(5).unary_minus();
    assert_eq!(
        neg.term,
        Term::Mod(
            Box::new(Term::Neg(Box::new(Term::Const(5)))),
            Box::new(Term::Const(FIELD_ORDER)),
        )
    );
}

#[test]
fn new_const_asserts_its_range() {
    let mut solver = Query::new();
    let x = Felt::new_const(&mut solver);
    assert_eq!(x.term, Term::Var(0));
    assert_eq!(solver.num_vars, 1);
    assert_eq!(solver.assertions.len(), 2);
    assert_eq!(solver.assertions[0], Formula::Ge(Term::Var(0), Term::Const(0)));
    assert_eq!(solver.assertions[1], Formula::Lt(Term::Var(0), Term::Const(FIELD_ORDER)));
    let y = Felt::new_const(&mut solver);
    assert_eq!(y.term, Term::Var(1));
    assert_eq!(solver.num_vars, 2);
}

#[test]
fn assertions_record_their_formulas() {
    let mut solver = Query::new();
    let x = Felt::from_u64(4);
    let y = Felt::from_u64(4);
    x.assert_zero(&mut solver);
    x.assert_eq(&mut solver, &y);
    x.assert_ne(&mut solver, &y);
    assert_eq!(solver.assertions.len(), 3);
    assert_eq!(solver.assertions[0], Formula::Eq(Term::Const(4), Term::Const(0)));
    assert_eq!(solver.assertions[1], Formula::Eq(Term::Const(4), Term::Const(4)));
    assert_eq!(solver.assertions[2], Formula::Ne(Term::Const(4), Term::Const(4)));
}

#[test]
fn end_to_end_round_flags_is_sound() {
    // The full pipeline against the real solver: the first-row pins plus the
    // rotation constraints determine every cell, so no second trace exists.
    let t = generate_trace_rows();
    let o = check_unconstrained(&RoundFlagsAir {}, &t);
    assert_eq!(o, CheckOutcome::Sound);
}

#[test]
fn end_to_end_rotation_only_is_unsound() {
    // Without the first-row zero pins the solver finds a second legal trace,
    // and the returned witness has been re-checked concretely.
    let t = generate_trace_rows();
    let cs = rotation_only_constraints();
    let q = build_query(&cs, &t);
    let v = solve(&q, NUM_ROUNDS);
    let o = classify_model(&cs, &t, v);
    match o {
        CheckOutcome::Unsound(w) => {
            assert_eq!(w.width(), NUM_ROUNDS);
            assert_eq!(w.height(), 32);
            assert_eq!(w.get(0, 0).value, 1);
            let model = trace_as_model(&t);
            let witness: Vec<u64> = w.values.iter().map(|f| f.value).collect();
            assert_ne!(witness, model);
        }
        other => panic!("expected an under-constraint witness, got {:?}", other),
    }
}

#[test]
fn end_to_end_classification_is_repeatable() {
    let t = generate_trace_rows();
    let o1 = check_unconstrained(&RoundFlagsAir {}, &t);
    let o2 = check_unconstrained(&RoundFlagsAir {}, &t);
    assert_eq!(o1, o2);
}

#[test]
fn circuit_query_matches_constraint_list_query() {
    let t = generate_trace_rows();
    let q1 = unconstrained_query(&RoundFlagsAir {}, &t);
    let q2 = build_query(&round_flags_constraint_list(), &t);
    assert_eq!(q1, q2);
}

#[test]
fn nary_combiners_fold_left_and_reduce_once() {
    let sum = Felt::add(&vec![Felt::from_u64(7), Felt::from_u64(2), Felt::from_u64(3)]);
    assert_eq!(
        sum.term,
        Term::Mod(
            Box::new(Term::Add(
                Box::new(Term::Add(Box::new(Term::Const(7)), Box::new(Term::Const(2)))),
                Box::new(Term::Const(3)),
            )),
            Box::new(Term::Const(FIELD_ORDER)),
        )
    );
    let diff = Felt::sub(&vec![Felt::from_u64(7), Felt::from_u64(2), Felt::from_u64(3)]);
    assert_eq!(
        diff.term,
        Term::Mod(
            Box::new(Term::Sub(
                Box::new(Term::Sub(Box::new(Term::Const(7)), Box::new(Term::Const(2)))),
                Box::new(Term::Const(3)),
            )),
            Box::new(Term::Const(FIELD_ORDER)),
        )
    );
    let prod = Felt::mul(&vec![Felt::from_u64(7), Felt::from_u64(2), Felt::from_u64(3)]);
    assert_eq!(
        prod.term,
        Term::Mod(
            Box::new(Term::Mul(
                Box::new(Term::Mul(Box::new(Term::Const(7)), Box::new(Term::Const(2)))),
                Box::new(Term::Const(3)),
            )),
            Box::new(Term::Const(FIELD_ORDER)),
        )
    );
}
