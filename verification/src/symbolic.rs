//! The constraint expression language of a circuit.
//!
//! A constraint is a tree built once per circuit, independent of any row:
//! column references into the current or the next row, field constants, the
//! three boundary predicates, and field arithmetic. Its meaning at a given
//! row of a given trace is the spec function [`SymbolicExpression::eval_at`],
//! the single semantic anchor both checkers are proved against.

use vstd::prelude::*;
use crate::field_elem::{FieldElem, FIELD_ORDER};

verus! {

/// The row after `row`, cyclically: the last row's successor is the first.
pub open spec fn spec_next_row(row: int, height: int) -> int {
    (row + 1) % height
}

/// The is-first-row predicate as a field value.
pub open spec fn spec_is_first_row(row: int) -> int {
    if row == 0 { 1 } else { 0 }
}

/// The is-last-row predicate as a field value.
pub open spec fn spec_is_last_row(row: int, height: int) -> int {
    if row == height - 1 { 1 } else { 0 }
}

/// The is-transition predicate as a field value: every row but the last.
pub open spec fn spec_is_transition(row: int, height: int) -> int {
    if row == height - 1 { 0 } else { 1 }
}

/// One constraint expression over a two-row window of the trace.
#[derive(Debug, PartialEq, Eq)]
pub enum SymbolicExpression {
    /// A cell of the current row (`is_next` false) or of the cyclically
    /// following row (`is_next` true).
    Variable { column: usize, is_next: bool },
    /// 1 on the first row, 0 elsewhere.
    IsFirstRow,
    /// 1 on the last row, 0 elsewhere.
    IsLastRow,
    /// 1 on every row but the last, 0 on the last.
    IsTransition,
    /// A known field element.
    Constant(FieldElem),
    Add(Box<SymbolicExpression>, Box<SymbolicExpression>),
    Sub(Box<SymbolicExpression>, Box<SymbolicExpression>),
    Neg(Box<SymbolicExpression>),
    Mul(Box<SymbolicExpression>, Box<SymbolicExpression>),
}

impl SymbolicExpression {
    /// Well-formed for a circuit of `width` columns: every column reference
    /// is in range and every embedded constant is reduced.
    pub open spec fn wf(self, width: int) -> bool
        decreases self,
    {
        match self {
            SymbolicExpression::Variable { column, is_next } => column < width,
            SymbolicExpression::IsFirstRow => true,
            SymbolicExpression::IsLastRow => true,
            SymbolicExpression::IsTransition => true,
            SymbolicExpression::Constant(f) => f.wf(),
            SymbolicExpression::Add(x, y) => x.wf(width) && y.wf(width),
            SymbolicExpression::Sub(x, y) => x.wf(width) && y.wf(width),
            SymbolicExpression::Neg(x) => x.wf(width),
            SymbolicExpression::Mul(x, y) => x.wf(width) && y.wf(width),
        }
    }

    /// The value of the expression at row `row` of a trace of `height` rows
    /// whose cells, in row-major order, are `vals`. All arithmetic is modulo
    /// the field order; a `Variable` reads the cell at the referenced column
    /// of the current row, or of the cyclically next row.
    pub open spec fn eval_at(self, vals: Seq<int>, width: int, row: int, height: int) -> int
        decreases self,
    {
        let p = FIELD_ORDER as int;
        match self {
            SymbolicExpression::Variable { column, is_next } => {
                let r = if is_next { spec_next_row(row, height) } else { row };
                vals[r * width + column]
            },
            SymbolicExpression::IsFirstRow => spec_is_first_row(row),
            SymbolicExpression::IsLastRow => spec_is_last_row(row, height),
            SymbolicExpression::IsTransition => spec_is_transition(row, height),
            SymbolicExpression::Constant(f) => f.as_int(),
            SymbolicExpression::Add(x, y) => (
                x.eval_at(vals, width, row, height) + y.eval_at(vals, width, row, height)
            ) % p,
            SymbolicExpression::Sub(x, y) => (
                x.eval_at(vals, width, row, height) - y.eval_at(vals, width, row, height)
            ) % p,
            SymbolicExpression::Neg(x) => (0 - x.eval_at(vals, width, row, height)) % p,
            SymbolicExpression::Mul(x, y) => (
                x.eval_at(vals, width, row, height) * y.eval_at(vals, width, row, height)
            ) % p,
        }
    }
}

/// Cyclic successor of a row index.
pub fn next_row(row: usize, height: usize) -> (r: usize)
    requires
        1 <= height,
        row < height,
    ensures
        r == spec_next_row(row as int, height as int),
        r < height,
{
    (row + 1) % height
}

} // verus!
