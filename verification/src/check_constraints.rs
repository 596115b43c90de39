//! The concrete constraint checker.
//!
//! Evaluates every constraint of a circuit against one given trace, row by
//! row, with ordinary field arithmetic. Success means every constraint of
//! every row evaluated to the field's zero; otherwise the first offending row
//! is reported.

use vstd::prelude::*;
use crate::air::{Air, ConstraintBuilder};
use crate::field_elem::FieldElem;
use crate::symbolic::SymbolicExpression;
use crate::trace::Trace;

verus! {

/// Evaluate one constraint expression at row `row` of the trace, with
/// ordinary field arithmetic. The result is exactly the spec-level value
/// [`SymbolicExpression::eval_at`] of the expression at that row.
pub fn eval_on_trace(e: &SymbolicExpression, main: &Trace, row: usize) -> (f: FieldElem)
    requires
        main.wf(),
        e.wf(main.width as int),
        1 <= main.spec_height(),
        row < main.spec_height(),
    ensures
        f.as_int() == e.eval_at(
            main.cells(),
            main.width as int,
            row as int,
            main.spec_height(),
        ),
        f.wf(),
    decreases *e,
{
    let height = main.height();
    match e {
        SymbolicExpression::Variable { column, is_next } => {
            let r = if *is_next {
                crate::symbolic::next_row(row, height)
            } else {
                row
            };
            main.get(r, *column)
        },
        SymbolicExpression::IsFirstRow => FieldElem::from_bool(row == 0),
        SymbolicExpression::IsLastRow => FieldElem::from_bool(row == height - 1),
        SymbolicExpression::IsTransition => FieldElem::from_bool(row != height - 1),
        SymbolicExpression::Constant(f) => *f,
        SymbolicExpression::Add(x, y) => {
            let a = eval_on_trace(x, main, row);
            let b = eval_on_trace(y, main, row);
            a.add(b)
        },
        SymbolicExpression::Sub(x, y) => {
            let a = eval_on_trace(x, main, row);
            let b = eval_on_trace(y, main, row);
            a.sub(b)
        },
        SymbolicExpression::Neg(x) => {
            let a = eval_on_trace(x, main, row);
            a.neg()
        },
        SymbolicExpression::Mul(x, y) => {
            let a = eval_on_trace(x, main, row);
            let b = eval_on_trace(y, main, row);
            a.mul(b)
        },
    }
}

/// Hold every row of the trace to every constraint of the list. `Ok` exactly
/// when every constraint evaluates to zero at every row; otherwise `Err`
/// carries the first row holding a violated constraint.
pub fn check_trace(constraints: &Vec<SymbolicExpression>, main: &Trace) -> (r: Result<
    (),
    usize,
>)
    requires
        main.wf(),
        1 <= main.spec_height(),
        forall|j: int|
            0 <= j < constraints@.len() ==> (#[trigger] constraints@[j]).wf(main.width as int),
    ensures
        match r {
            Ok(()) => forall|i: int, j: int|
                0 <= i < main.spec_height() && 0 <= j < constraints@.len() ==> (
                #[trigger] constraints@[j].eval_at(
                    main.cells(),
                    main.width as int,
                    i,
                    main.spec_height(),
                )) == 0,
            Err(row) => {
                &&& 0 <= row < main.spec_height()
                &&& exists|j: int|
                    0 <= j < constraints@.len() && (#[trigger] constraints@[j].eval_at(
                        main.cells(),
                        main.width as int,
                        row as int,
                        main.spec_height(),
                    )) != 0
                &&& forall|i: int, j: int|
                    0 <= i < row && 0 <= j < constraints@.len() ==> (
                    #[trigger] constraints@[j].eval_at(
                        main.cells(),
                        main.width as int,
                        i,
                        main.spec_height(),
                    )) == 0
            },
        },
{
    let height = main.height();
    let mut i: usize = 0;
    while i < height
        invariant
            main.wf(),
            1 <= main.spec_height(),
            height == main.spec_height(),
            0 <= i <= height,
            forall|j: int|
                0 <= j < constraints@.len() ==> (#[trigger] constraints@[j]).wf(
                    main.width as int,
                ),
            forall|i2: int, j: int|
                0 <= i2 < i && 0 <= j < constraints@.len() ==> (
                #[trigger] constraints@[j].eval_at(
                    main.cells(),
                    main.width as int,
                    i2,
                    main.spec_height(),
                )) == 0,
        decreases height - i,
    {
        let mut j: usize = 0;
        while j < constraints.len()
            invariant
                main.wf(),
                1 <= main.spec_height(),
                height == main.spec_height(),
                0 <= i < height,
                0 <= j <= constraints@.len(),
                forall|j2: int|
                    0 <= j2 < constraints@.len() ==> (#[trigger] constraints@[j2]).wf(
                        main.width as int,
                    ),
                forall|j2: int|
                    0 <= j2 < j ==> (#[trigger] constraints@[j2].eval_at(
                        main.cells(),
                        main.width as int,
                        i as int,
                        main.spec_height(),
                    )) == 0,
                forall|i2: int, j2: int|
                    0 <= i2 < i && 0 <= j2 < constraints@.len() ==> (
                    #[trigger] constraints@[j2].eval_at(
                        main.cells(),
                        main.width as int,
                        i2,
                        main.spec_height(),
                    )) == 0,
            decreases constraints@.len() - j,
        {
            let v = eval_on_trace(&constraints[j], main, i);
            if v.value != 0 {
                return Err(i);
            }
            j = j + 1;
        }
        i = i + 1;
    }
    Ok(())
}

/// Evaluate every constraint of the circuit against the trace. `Ok` exactly
/// when the trace satisfies the circuit; otherwise `Err` carries the first
/// row holding a violated constraint.
pub fn check_constraints<A: Air>(air: &A, main: &Trace) -> (r: Result<(), usize>)
    requires
        main.wf(),
        1 <= main.spec_height(),
        main.width as int == air.spec_width(),
    ensures
        match r {
            Ok(()) => forall|i: int, j: int|
                0 <= i < main.spec_height() && 0 <= j < air.spec_constraints().len() ==> (
                #[trigger] air.spec_constraints()[j].eval_at(
                    main.cells(),
                    main.width as int,
                    i,
                    main.spec_height(),
                )) == 0,
            Err(row) => {
                &&& 0 <= row < main.spec_height()
                &&& exists|j: int|
                    0 <= j < air.spec_constraints().len() && (
                    #[trigger] air.spec_constraints()[j].eval_at(
                        main.cells(),
                        main.width as int,
                        row as int,
                        main.spec_height(),
                    )) != 0
                &&& forall|i: int, j: int|
                    0 <= i < row && 0 <= j < air.spec_constraints().len() ==> (
                    #[trigger] air.spec_constraints()[j].eval_at(
                        main.cells(),
                        main.width as int,
                        i,
                        main.spec_height(),
                    )) == 0
            },
        },
{
    let w = air.width();
    let mut builder = ConstraintBuilder::new(w);
    air.eval(&mut builder);
    proof {
        air.lemma_constraints_wf();
        assert(builder.constraints@ =~= air.spec_constraints());
    }
    check_trace(&builder.constraints, main)
}

} // verus!
