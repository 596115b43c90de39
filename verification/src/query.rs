//! The assertion set handed to the external satisfiability solver.
//!
//! The set grows by declaring free variables and asserting formulas; nothing
//! is ever retracted. Its meaning is [`Query::satisfies`]: an assignment of
//! one integer per declared variable satisfies the set when every asserted
//! formula holds under it. Deciding whether such an assignment exists is the
//! external solver's task; this type only records the question exactly.

use vstd::prelude::*;
use crate::term::Formula;

verus! {

/// A set of declared free variables and asserted formulas.
#[derive(Debug, PartialEq, Eq)]
pub struct Query {
    /// Variables `0 .. num_vars` have been declared.
    pub num_vars: usize,
    /// The asserted formulas, in assertion order.
    pub assertions: Vec<Formula>,
}

impl Query {
    /// An assignment (one integer per declared variable) satisfies the set
    /// when every asserted formula holds under it.
    pub open spec fn satisfies(self, env: Seq<int>) -> bool {
        forall|i: int| 0 <= i < self.assertions@.len() ==> (#[trigger] self.assertions@[i]).holds(
            env,
        )
    }

    /// A fresh, empty assertion set.
    pub fn new() -> (s: Self)
        ensures
            s.num_vars == 0,
            s.assertions@ == Seq::<Formula>::empty(),
    {
        Query { num_vars: 0, assertions: Vec::new() }
    }

    /// Assert one formula.
    pub fn assert_formula(&mut self, f: Formula)
        ensures
            final(self).num_vars == old(self).num_vars,
            final(self).assertions@ == old(self).assertions@.push(f),
    {
        self.assertions.push(f);
    }
}

} // verus!
