//! The circuit interface: a fixed column count plus a finite constraint list.
//!
//! A circuit declares its constraints once, independently of any row, by
//! recording expressions in a [`ConstraintBuilder`]; the checkers then hold
//! every row of a trace to that one list.

use vstd::prelude::*;
use crate::symbolic::SymbolicExpression;

verus! {

/// Collects the constraint expressions a circuit asserts.
pub struct ConstraintBuilder {
    /// Number of columns of the circuit being evaluated.
    pub width: usize,
    /// The constraints recorded so far, each to be zero on every row.
    pub constraints: Vec<SymbolicExpression>,
}

impl ConstraintBuilder {
    pub fn new(width: usize) -> (b: Self)
        ensures
            b.width == width,
            b.constraints@ == Seq::<SymbolicExpression>::empty(),
    {
        ConstraintBuilder { width, constraints: Vec::new() }
    }

    /// Record the constraint that `e` is zero on every row.
    pub fn assert_zero(&mut self, e: SymbolicExpression)
        ensures
            final(self).width == old(self).width,
            final(self).constraints@ == old(self).constraints@.push(e),
    {
        self.constraints.push(e);
    }

    /// Record the constraint that `x` equals `y` on every row.
    pub fn assert_eq(&mut self, x: SymbolicExpression, y: SymbolicExpression)
        ensures
            final(self).width == old(self).width,
            final(self).constraints@ == old(self).constraints@.push(
                SymbolicExpression::Sub(Box::new(x), Box::new(y)),
            ),
    {
        self.assert_zero(SymbolicExpression::Sub(Box::new(x), Box::new(y)));
    }

    /// The cell of the evaluation window at `column`: the current row's value,
    /// or the cyclically next row's when `is_next` is set.
    pub fn cell(&self, column: usize, is_next: bool) -> (e: SymbolicExpression)
        requires
            column < self.width,
        ensures
            e == (SymbolicExpression::Variable { column, is_next }),
    {
        SymbolicExpression::Variable { column, is_next }
    }

    /// 1 on the first row, 0 elsewhere.
    pub fn is_first_row(&self) -> (e: SymbolicExpression)
        ensures
            e == SymbolicExpression::IsFirstRow,
    {
        SymbolicExpression::IsFirstRow
    }

    /// 1 on the last row, 0 elsewhere.
    pub fn is_last_row(&self) -> (e: SymbolicExpression)
        ensures
            e == SymbolicExpression::IsLastRow,
    {
        SymbolicExpression::IsLastRow
    }

    /// 1 on every row but the last, 0 on the last.
    pub fn is_transition(&self) -> (e: SymbolicExpression)
        ensures
            e == SymbolicExpression::IsTransition,
    {
        SymbolicExpression::IsTransition
    }

    /// The transition predicate for a window of `size` consecutive rows.
    /// Only the two-row window is supported; a circuit asking for any other
    /// size is a configuration error, which this interface rules out.
    pub fn is_transition_window(&self, size: usize) -> (e: SymbolicExpression)
        requires
            size == 2,
        ensures
            e == SymbolicExpression::IsTransition,
    {
        SymbolicExpression::IsTransition
    }
}

/// A circuit: a fixed number of columns and a finite list of constraint
/// expressions, each required to evaluate to zero at every row of a trace.
pub trait Air {
    /// The number of columns, at the spec level.
    spec fn spec_width(&self) -> int;

    /// The constraint list, at the spec level.
    spec fn spec_constraints(&self) -> Seq<SymbolicExpression>;

    /// Every constraint references only columns below the circuit's width.
    proof fn lemma_constraints_wf(&self)
        ensures
            forall|j: int|
                0 <= j < self.spec_constraints().len() ==> (
                #[trigger] self.spec_constraints()[j]).wf(self.spec_width()),
    ;

    /// The number of columns.
    fn width(&self) -> (w: usize)
        ensures
            w as int == self.spec_width(),
    ;

    /// Record every constraint of the circuit, in order, in the builder.
    fn eval(&self, builder: &mut ConstraintBuilder)
        requires
            old(builder).width as int == self.spec_width(),
        ensures
            final(builder).width == old(builder).width,
            final(builder).constraints@ == old(builder).constraints@ + self.spec_constraints(),
    ;
}

} // verus!
