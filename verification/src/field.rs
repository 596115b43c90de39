//! Solver-level field values.
//!
//! A [`Felt`] wraps one integer [`Term`] standing for a field element inside
//! the satisfiability query. Constants embed reduced field elements; free
//! values are declared through [`Felt::new_const`], which also asserts their
//! range `0 <= x < FIELD_ORDER`; arithmetic combines the operand terms and
//! reduces the result modulo the field order exactly once, so under every
//! assignment the value of a derived term lies in `[0, FIELD_ORDER)`.

use vstd::prelude::*;
use crate::field_elem::{FieldElem, FIELD_ORDER};
use crate::query::Query;
use crate::term::{Formula, Term};

verus! {

/// Left-nested sum of a non-empty term sequence.
pub open spec fn chain_add(ts: Seq<Term>) -> Term
    decreases ts.len(),
{
    if ts.len() <= 1 {
        ts[0]
    } else {
        Term::Add(Box::new(chain_add(ts.drop_last())), Box::new(ts.last()))
    }
}

/// Left-nested difference of a non-empty term sequence: the first element
/// minus every later one.
pub open spec fn chain_sub(ts: Seq<Term>) -> Term
    decreases ts.len(),
{
    if ts.len() <= 1 {
        ts[0]
    } else {
        Term::Sub(Box::new(chain_sub(ts.drop_last())), Box::new(ts.last()))
    }
}

/// Left-nested product of a non-empty term sequence.
pub open spec fn chain_mul(ts: Seq<Term>) -> Term
    decreases ts.len(),
{
    if ts.len() <= 1 {
        ts[0]
    } else {
        Term::Mul(Box::new(chain_mul(ts.drop_last())), Box::new(ts.last()))
    }
}

/// Sum of the values of the terms under `env`.
pub open spec fn sum_evals(ts: Seq<Term>, env: Seq<int>) -> int
    decreases ts.len(),
{
    if ts.len() == 0 {
        0
    } else {
        sum_evals(ts.drop_last(), env) + ts.last().eval(env)
    }
}

/// Value of the first term minus the values of all later ones, under `env`.
pub open spec fn sub_evals(ts: Seq<Term>, env: Seq<int>) -> int
    decreases ts.len(),
{
    if ts.len() <= 1 {
        ts[0].eval(env)
    } else {
        sub_evals(ts.drop_last(), env) - ts.last().eval(env)
    }
}

/// Product of the values of the terms under `env`.
pub open spec fn prod_evals(ts: Seq<Term>, env: Seq<int>) -> int
    decreases ts.len(),
{
    if ts.len() <= 1 {
        ts[0].eval(env)
    } else {
        prod_evals(ts.drop_last(), env) * ts.last().eval(env)
    }
}

/// The left-nested sum evaluates to the sum of the operand values.
pub proof fn lemma_chain_add_eval(ts: Seq<Term>, env: Seq<int>)
    requires
        ts.len() >= 1,
    ensures
        chain_add(ts).eval(env) == sum_evals(ts, env),
    decreases ts.len(),
{
    if ts.len() > 1 {
        lemma_chain_add_eval(ts.drop_last(), env);
    } else {
        assert(ts.drop_last().len() == 0);
        assert(sum_evals(ts.drop_last(), env) == 0);
        assert(ts.last() == ts[0]);
    }
}

/// The left-nested difference evaluates to the first value minus the rest.
pub proof fn lemma_chain_sub_eval(ts: Seq<Term>, env: Seq<int>)
    requires
        ts.len() >= 1,
    ensures
        chain_sub(ts).eval(env) == sub_evals(ts, env),
    decreases ts.len(),
{
    if ts.len() > 1 {
        lemma_chain_sub_eval(ts.drop_last(), env);
    }
    // the singleton case holds by definition of both functions
}

/// The left-nested product evaluates to the product of the operand values.
pub proof fn lemma_chain_mul_eval(ts: Seq<Term>, env: Seq<int>)
    requires
        ts.len() >= 1,
    ensures
        chain_mul(ts).eval(env) == prod_evals(ts, env),
    decreases ts.len(),
{
    if ts.len() > 1 {
        lemma_chain_mul_eval(ts.drop_last(), env);
    }
}

/// A field element of the satisfiability query: one integer term.
#[derive(Debug, PartialEq, Eq)]
pub struct Felt {
    pub term: Term,
}

impl Clone for Felt {
    fn clone(&self) -> (r: Self)
        ensures
            r == self,
    {
        Felt { term: self.term.clone() }
    }
}

impl Felt {
    /// The integer value of the wrapped term under an assignment.
    pub open spec fn eval(self, env: Seq<int>) -> int {
        self.term.eval(env)
    }

    /// Wrap a raw integer term.
    pub fn from_int(x: Term) -> (r: Self)
        ensures
            r.term == x,
    {
        Felt { term: x }
    }

    /// Declare a fresh free variable and assert its range
    /// `0 <= x < FIELD_ORDER`, so every satisfying assignment keeps it a
    /// canonical field element.
    pub fn new_const(solver: &mut Query) -> (r: Self)
        requires
            old(solver).num_vars < usize::MAX,
        ensures
            r.term == Term::Var(old(solver).num_vars),
            final(solver).num_vars == old(solver).num_vars + 1,
            final(solver).assertions@ == old(solver).assertions@.push(
                Formula::Ge(Term::Var(old(solver).num_vars), Term::Const(0)),
            ).push(Formula::Lt(Term::Var(old(solver).num_vars), Term::Const(FIELD_ORDER))),
    {
        let id = solver.num_vars;
        solver.num_vars = solver.num_vars + 1;
        solver.assert_formula(Formula::Ge(Term::Var(id), Term::Const(0)));
        solver.assert_formula(Formula::Lt(Term::Var(id), Term::Const(FIELD_ORDER)));
        Felt { term: Term::Var(id) }
    }

    /// A constant, already-canonical field value.
    pub fn from_u64(u: u64) -> (r: Self)
        requires
            u < FIELD_ORDER,
        ensures
            r.term == Term::Const(u),
    {
        Felt { term: Term::Const(u) }
    }

    /// The field value 1 or 0.
    pub fn from_bool(b: bool) -> (r: Self)
        ensures
            r.term == Term::Const(if b { 1u64 } else { 0u64 }),
    {
        Felt { term: Term::Const(if b { 1 } else { 0 }) }
    }

    /// A constant from a concrete field element.
    pub fn from_f(u: FieldElem) -> (r: Self)
        requires
            u.wf(),
        ensures
            r.term == Term::Const(u.value),
    {
        Felt { term: Term::Const(u.value) }
    }

    /// The literal value, for terms the solver already holds as a constant.
    pub fn as_u64(&self) -> (r: Option<u64>)
        ensures
            r == match self.term {
                Term::Const(u) => Some(u),
                _ => None::<u64>,
            },
    {
        match &self.term {
            Term::Const(u) => Some(*u),
            _ => None,
        }
    }

    /// Sum of one or more values, reduced modulo the field order once.
    pub fn add(values: &Vec<Felt>) -> (r: Felt)
        requires
            values@.len() >= 1,
        ensures
            r.term == Term::Mod(
                Box::new(chain_add(values@.map_values(|f: Felt| f.term))),
                Box::new(Term::Const(FIELD_ORDER)),
            ),
            forall|env: Seq<int>| #[trigger] r.eval(env) == sum_evals(
                values@.map_values(|f: Felt| f.term),
                env,
            ) % (FIELD_ORDER as int),
            forall|env: Seq<int>| 0 <= #[trigger] r.eval(env) < FIELD_ORDER as int,
    {
        let ghost ts = values@.map_values(|f: Felt| f.term);
        let mut acc = values[0].term.clone();
        let mut i: usize = 1;
        assert(ts.take(1) =~= seq![ts[0]]);
        while i < values.len()
            invariant
                1 <= i <= values@.len(),
                ts == values@.map_values(|f: Felt| f.term),
                acc == chain_add(ts.take(i as int)),
            decreases values@.len() - i,
        {
            acc = Term::Add(Box::new(acc), Box::new(values[i].term.clone()));
            proof {
                assert(ts.take(i + 1 as int).drop_last() =~= ts.take(i as int));
            }
            i = i + 1;
        }
        let res = Felt { term: Term::Mod(Box::new(acc), Box::new(Term::Const(FIELD_ORDER))) };
        proof {
            assert(ts.take(values@.len() as int) =~= ts);
            assert forall|env: Seq<int>| #[trigger] res.eval(env) == sum_evals(ts, env) % (
            FIELD_ORDER as int) by {
                lemma_chain_add_eval(ts, env);
                reveal_with_fuel(Term::eval, 3);
                assert(res.eval(env) == chain_add(ts).eval(env) % (FIELD_ORDER as int));
            }
        }
        res
    }

    /// The first value minus every later one, reduced modulo the field order once.
    pub fn sub(values: &Vec<Felt>) -> (r: Felt)
        requires
            values@.len() >= 1,
        ensures
            r.term == Term::Mod(
                Box::new(chain_sub(values@.map_values(|f: Felt| f.term))),
                Box::new(Term::Const(FIELD_ORDER)),
            ),
            forall|env: Seq<int>| #[trigger] r.eval(env) == sub_evals(
                values@.map_values(|f: Felt| f.term),
                env,
            ) % (FIELD_ORDER as int),
            forall|env: Seq<int>| 0 <= #[trigger] r.eval(env) < FIELD_ORDER as int,
    {
        let ghost ts = values@.map_values(|f: Felt| f.term);
        let mut acc = values[0].term.clone();
        let mut i: usize = 1;
        assert(ts.take(1) =~= seq![ts[0]]);
        while i < values.len()
            invariant
                1 <= i <= values@.len(),
                ts == values@.map_values(|f: Felt| f.term),
                acc == chain_sub(ts.take(i as int)),
            decreases values@.len() - i,
        {
            acc = Term::Sub(Box::new(acc), Box::new(values[i].term.clone()));
            proof {
                assert(ts.take(i + 1 as int).drop_last() =~= ts.take(i as int));
            }
            i = i + 1;
        }
        let res = Felt { term: Term::Mod(Box::new(acc), Box::new(Term::Const(FIELD_ORDER))) };
        proof {
            assert(ts.take(values@.len() as int) =~= ts);
            assert forall|env: Seq<int>| #[trigger] res.eval(env) == sub_evals(ts, env) % (
            FIELD_ORDER as int) by {
                lemma_chain_sub_eval(ts, env);
                reveal_with_fuel(Term::eval, 3);
                assert(res.eval(env) == chain_sub(ts).eval(env) % (FIELD_ORDER as int));
            }
        }
        res
    }

    /// Product of one or more values, reduced modulo the field order once.
    pub fn mul(values: &Vec<Felt>) -> (r: Felt)
        requires
            values@.len() >= 1,
        ensures
            r.term == Term::Mod(
                Box::new(chain_mul(values@.map_values(|f: Felt| f.term))),
                Box::new(Term::Const(FIELD_ORDER)),
            ),
            forall|env: Seq<int>| #[trigger] r.eval(env) == prod_evals(
                values@.map_values(|f: Felt| f.term),
                env,
            ) % (FIELD_ORDER as int),
            forall|env: Seq<int>| 0 <= #[trigger] r.eval(env) < FIELD_ORDER as int,
    {
        let ghost ts = values@.map_values(|f: Felt| f.term);
        let mut acc = values[0].term.clone();
        let mut i: usize = 1;
        assert(ts.take(1) =~= seq![ts[0]]);
        while i < values.len()
            invariant
                1 <= i <= values@.len(),
                ts == values@.map_values(|f: Felt| f.term),
                acc == chain_mul(ts.take(i as int)),
            decreases values@.len() - i,
        {
            acc = Term::Mul(Box::new(acc), Box::new(values[i].term.clone()));
            proof {
                assert(ts.take(i + 1 as int).drop_last() =~= ts.take(i as int));
            }
            i = i + 1;
        }
        let res = Felt { term: Term::Mod(Box::new(acc), Box::new(Term::Const(FIELD_ORDER))) };
        proof {
            assert(ts.take(values@.len() as int) =~= ts);
            assert forall|env: Seq<int>| #[trigger] res.eval(env) == prod_evals(ts, env) % (
            FIELD_ORDER as int) by {
                lemma_chain_mul_eval(ts, env);
                reveal_with_fuel(Term::eval, 3);
                assert(res.eval(env) == chain_mul(ts).eval(env) % (FIELD_ORDER as int));
            }
        }
        res
    }

    /// Arithmetic negation, reduced modulo the field order once.
    pub fn unary_minus(&self) -> (r: Felt)
        ensures
            r.term == Term::Mod(
                Box::new(Term::Neg(Box::new(self.term))),
                Box::new(Term::Const(FIELD_ORDER)),
            ),
            forall|env: Seq<int>| #[trigger] r.eval(env) == (0 - self.eval(env)) % (
            FIELD_ORDER as int),
            forall|env: Seq<int>| 0 <= #[trigger] r.eval(env) < FIELD_ORDER as int,
    {
        let res = Felt {
            term: Term::Mod(
                Box::new(Term::Neg(Box::new(self.term.clone()))),
                Box::new(Term::Const(FIELD_ORDER)),
            ),
        };
        proof {
            assert forall|env: Seq<int>| #[trigger] res.eval(env) == (0 - self.eval(env)) % (
            FIELD_ORDER as int) by {
                reveal_with_fuel(Term::eval, 4);
                assert(res.eval(env) == (0 - self.term.eval(env)) % (FIELD_ORDER as int));
            }
        }
        res
    }

    /// Assert that this value is zero.
    pub fn assert_zero(&self, solver: &mut Query)
        ensures
            final(solver).num_vars == old(solver).num_vars,
            final(solver).assertions@ == old(solver).assertions@.push(
                Formula::Eq(self.term, Term::Const(0)),
            ),
    {
        solver.assert_formula(Formula::Eq(self.term.clone(), Term::Const(0)));
    }

    /// Assert that this value equals another.
    pub fn assert_eq(&self, solver: &mut Query, other: &Felt)
        ensures
            final(solver).num_vars == old(solver).num_vars,
            final(solver).assertions@ == old(solver).assertions@.push(
                Formula::Eq(self.term, other.term),
            ),
    {
        solver.assert_formula(Formula::Eq(self.term.clone(), other.term.clone()));
    }

    /// Assert that this value differs from another.
    pub fn assert_ne(&self, solver: &mut Query, other: &Felt)
        ensures
            final(solver).num_vars == old(solver).num_vars,
            final(solver).assertions@ == old(solver).assertions@.push(
                Formula::Ne(self.term, other.term),
            ),
    {
        solver.assert_formula(Formula::Ne(self.term.clone(), other.term.clone()));
    }
}

} // verus!
