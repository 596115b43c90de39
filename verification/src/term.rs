//! Integer terms and boolean formulas of the satisfiability query.
//!
//! A [`Term`] is an unbounded-integer expression over free variables, exactly
//! the shapes the query builder emits; a [`Formula`] is one assertion over
//! such terms. Their meaning under an assignment of integers to the free
//! variables is given by the spec functions [`Term::eval`] and
//! [`Formula::holds`]; an external solver decides whether some assignment
//! satisfies every asserted formula.

use vstd::prelude::*;

verus! {

/// An integer term over free variables, with truncated-to-divisor modulo
/// (the remainder is non-negative for a positive divisor).
#[derive(Debug, PartialEq, Eq)]
pub enum Term {
    /// A non-negative integer literal.
    Const(u64),
    /// The free variable with this index.
    Var(usize),
    Add(Box<Term>, Box<Term>),
    Sub(Box<Term>, Box<Term>),
    Mul(Box<Term>, Box<Term>),
    /// Arithmetic negation.
    Neg(Box<Term>),
    /// `Mod(x, m)`: the remainder of `x` divided by `m`, in `[0, m)` for `m > 0`.
    Mod(Box<Term>, Box<Term>),
}

impl Term {
    /// The integer value of the term when variable `k` holds `env[k]`.
    pub open spec fn eval(self, env: Seq<int>) -> int
        decreases self,
    {
        match self {
            Term::Const(u) => u as int,
            Term::Var(k) => env[k as int],
            Term::Add(x, y) => x.eval(env) + y.eval(env),
            Term::Sub(x, y) => x.eval(env) - y.eval(env),
            Term::Mul(x, y) => x.eval(env) * y.eval(env),
            Term::Neg(x) => 0 - x.eval(env),
            Term::Mod(x, m) => x.eval(env) % m.eval(env),
        }
    }
}

impl Term {
    /// Every variable index in the term lies below `n`.
    pub open spec fn vars_below(self, n: int) -> bool
        decreases self,
    {
        match self {
            Term::Const(u) => true,
            Term::Var(k) => k < n,
            Term::Add(x, y) => x.vars_below(n) && y.vars_below(n),
            Term::Sub(x, y) => x.vars_below(n) && y.vars_below(n),
            Term::Mul(x, y) => x.vars_below(n) && y.vars_below(n),
            Term::Neg(x) => x.vars_below(n),
            Term::Mod(x, m) => x.vars_below(n) && m.vars_below(n),
        }
    }
}

impl Clone for Term {
    fn clone(&self) -> (r: Self)
        ensures
            r == self,
        decreases *self,
    {
        match self {
            Term::Const(u) => Term::Const(*u),
            Term::Var(k) => Term::Var(*k),
            Term::Add(x, y) => Term::Add(Box::new((**x).clone()), Box::new((**y).clone())),
            Term::Sub(x, y) => Term::Sub(Box::new((**x).clone()), Box::new((**y).clone())),
            Term::Mul(x, y) => Term::Mul(Box::new((**x).clone()), Box::new((**y).clone())),
            Term::Neg(x) => Term::Neg(Box::new((**x).clone())),
            Term::Mod(x, m) => Term::Mod(Box::new((**x).clone()), Box::new((**m).clone())),
        }
    }
}

/// Two terms asserted, somewhere in a disjunction, to differ.
#[derive(Debug, PartialEq, Eq)]
pub struct TermPair {
    pub a: Term,
    pub b: Term,
}

/// One assertion handed to the satisfiability solver.
#[derive(Debug, PartialEq, Eq)]
pub enum Formula {
    /// The first term is at least the second.
    Ge(Term, Term),
    /// The first term is strictly below the second.
    Lt(Term, Term),
    /// The two terms are equal.
    Eq(Term, Term),
    /// The two terms differ.
    Ne(Term, Term),
    /// At least one listed pair of terms differs.
    NeAny(Vec<TermPair>),
}

impl Formula {
    /// Every variable index in the assertion lies below `n`.
    pub open spec fn vars_below(self, n: int) -> bool {
        match self {
            Formula::Ge(a, b) => a.vars_below(n) && b.vars_below(n),
            Formula::Lt(a, b) => a.vars_below(n) && b.vars_below(n),
            Formula::Eq(a, b) => a.vars_below(n) && b.vars_below(n),
            Formula::Ne(a, b) => a.vars_below(n) && b.vars_below(n),
            Formula::NeAny(ps) => forall|i: int|
                0 <= i < ps@.len() ==> (#[trigger] ps@[i]).a.vars_below(n) && ps@[i].b.vars_below(
                    n,
                ),
        }
    }

    /// Truth of the assertion under an assignment to the free variables.
    pub open spec fn holds(self, env: Seq<int>) -> bool {
        match self {
            Formula::Ge(a, b) => a.eval(env) >= b.eval(env),
            Formula::Lt(a, b) => a.eval(env) < b.eval(env),
            Formula::Eq(a, b) => a.eval(env) == b.eval(env),
            Formula::Ne(a, b) => a.eval(env) != b.eval(env),
            Formula::NeAny(ps) => exists|i: int|
                0 <= i < ps@.len() && (#[trigger] ps@[i]).a.eval(env) != ps@[i].b.eval(env),
        }
    }
}

} // verus!
