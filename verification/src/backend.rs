//! The external satisfiability solver, behind a narrow interface.
//!
//! The query types ([`Term`], [`Formula`], [`Query`](crate::query::Query))
//! are plain data with exact spec-level meaning; this module hands them to
//! the z3 solver and reads the verdict back. Every z3 call sits in a small
//! trusted wrapper; the translation walk, the assertion loop and the model
//! extraction are verified code. Nothing is promised of the verdict itself —
//! the solver's answer is checked concretely by the caller before it is
//! believed (see [`classify_model`](crate::check_unconstrained::classify_model)).

use vstd::prelude::*;
use crate::term::{Formula, Term};

verus! {

#[verifier::external_type_specification]
#[verifier::external_body]
pub struct ExSolver(z3::Solver);

#[verifier::external_type_specification]
#[verifier::external_body]
pub struct ExInt(z3::ast::Int);

#[verifier::external_type_specification]
#[verifier::external_body]
pub struct ExBool(z3::ast::Bool);

#[verifier::external_type_specification]
#[verifier::external_body]
pub struct ExModel(z3::Model);

/// Relies on z3's `Solver::new`: a fresh solver with no assertions.
#[verifier::external_body]
fn solver_new() -> z3::Solver {
    z3::Solver::new()
}

/// Relies on z3's `Int::new_const`: a fresh integer constant, named after
/// its trace cell so a produced model is human-readable.
#[verifier::external_body]
fn int_var(row: usize, col: usize) -> z3::ast::Int {
    z3::ast::Int::new_const(format!("T[{}][{}]", row, col))
}

/// Relies on z3's `Int::from_u64`: an integer literal.
#[verifier::external_body]
fn int_const(u: u64) -> z3::ast::Int {
    z3::ast::Int::from_u64(u)
}

/// Relies on z3's `Int::add`: the sum of the two terms.
#[verifier::external_body]
fn int_add(a: &z3::ast::Int, b: &z3::ast::Int) -> z3::ast::Int {
    z3::ast::Int::add(&[a.clone(), b.clone()])
}

/// Relies on z3's `Int::sub`: the difference of the two terms.
#[verifier::external_body]
fn int_sub(a: &z3::ast::Int, b: &z3::ast::Int) -> z3::ast::Int {
    z3::ast::Int::sub(&[a.clone(), b.clone()])
}

/// Relies on z3's `Int::mul`: the product of the two terms.
#[verifier::external_body]
fn int_mul(a: &z3::ast::Int, b: &z3::ast::Int) -> z3::ast::Int {
    z3::ast::Int::mul(&[a.clone(), b.clone()])
}

/// Relies on z3's `Int::unary_minus`: the negation of the term.
#[verifier::external_body]
fn int_neg(a: &z3::ast::Int) -> z3::ast::Int {
    a.unary_minus()
}

/// Relies on z3's `Int::modulo` (SMT `mod`): the remainder, non-negative
/// for a positive divisor, matching [`Term::eval`]'s `%`.
#[verifier::external_body]
fn int_mod(a: &z3::ast::Int, m: &z3::ast::Int) -> z3::ast::Int {
    a.modulo(m.clone())
}

/// Relies on z3's `Int::ge`.
#[verifier::external_body]
fn bool_ge(a: &z3::ast::Int, b: &z3::ast::Int) -> z3::ast::Bool {
    a.ge(b.clone())
}

/// Relies on z3's `Int::lt`.
#[verifier::external_body]
fn bool_lt(a: &z3::ast::Int, b: &z3::ast::Int) -> z3::ast::Bool {
    a.lt(b.clone())
}

/// Relies on z3's `Ast::eq`: term equality as a solver formula.
#[verifier::external_body]
fn bool_eq(a: &z3::ast::Int, b: &z3::ast::Int) -> z3::ast::Bool {
    z3::ast::Ast::eq(a, b.clone())
}

/// Relies on z3's `Bool::not`.
#[verifier::external_body]
fn bool_not(a: &z3::ast::Bool) -> z3::ast::Bool {
    a.not()
}

/// Relies on z3's `Bool::or`: the disjunction of the listed formulas.
#[verifier::external_body]
fn bool_or(disjuncts: &Vec<z3::ast::Bool>) -> z3::ast::Bool {
    z3::ast::Bool::or(disjuncts.as_slice())
}

/// Relies on z3's `Solver::assert`.
#[verifier::external_body]
fn solver_assert(solver: &z3::Solver, formula: z3::ast::Bool) {
    solver.assert(formula)
}

/// Relies on z3's `Solver::check`: `Some(true)` for satisfiable,
/// `Some(false)` for unsatisfiable, `None` when the solver gives up.
#[verifier::external_body]
fn solver_check(solver: &z3::Solver) -> Option<bool> {
    match solver.check() {
        z3::SatResult::Sat => Some(true),
        z3::SatResult::Unsat => Some(false),
        z3::SatResult::Unknown => None,
    }
}

/// Relies on z3's `Solver::get_model`: a model of the last `Sat` check.
#[verifier::external_body]
fn solver_model(solver: &z3::Solver) -> Option<z3::Model> {
    solver.get_model()
}

/// Relies on z3's `Model::eval` (with completion) and `Int::as_u64`: the
/// model's value for the constant, when it fits an unsigned machine integer.
#[verifier::external_body]
fn model_value(model: &z3::Model, var: &z3::ast::Int) -> Option<u64> {
    model.eval(var, true).and_then(|v| v.as_u64())
}

/// Build the z3 term for an integer term of the query, cell variable `k`
/// becoming the z3 constant `vars[k]`.
fn translate_term(t: &Term, vars: &Vec<z3::ast::Int>) -> z3::ast::Int
    requires
        t.vars_below(vars@.len() as int),
    decreases *t,
{
    match t {
        Term::Const(u) => int_const(*u),
        Term::Var(k) => int_var_of(vars, *k),
        Term::Add(x, y) => {
            let a = translate_term(x, vars);
            let b = translate_term(y, vars);
            int_add(&a, &b)
        },
        Term::Sub(x, y) => {
            let a = translate_term(x, vars);
            let b = translate_term(y, vars);
            int_sub(&a, &b)
        },
        Term::Mul(x, y) => {
            let a = translate_term(x, vars);
            let b = translate_term(y, vars);
            int_mul(&a, &b)
        },
        Term::Neg(x) => {
            let a = translate_term(x, vars);
            int_neg(&a)
        },
        Term::Mod(x, m) => {
            let a = translate_term(x, vars);
            let b = translate_term(m, vars);
            int_mod(&a, &b)
        },
    }
}

/// Relies on `Clone` of z3's `Int`: a handle to the same term.
#[verifier::external_body]
fn int_var_of(vars: &Vec<z3::ast::Int>, k: usize) -> z3::ast::Int
    requires
        k < vars@.len(),
{
    vars[k].clone()
}

/// Build the z3 formula for one assertion of the query.
fn translate_formula(f: &Formula, vars: &Vec<z3::ast::Int>) -> z3::ast::Bool
    requires
        f.vars_below(vars@.len() as int),
{
    match f {
        Formula::Ge(a, b) => bool_ge(&translate_term(a, vars), &translate_term(b, vars)),
        Formula::Lt(a, b) => bool_lt(&translate_term(a, vars), &translate_term(b, vars)),
        Formula::Eq(a, b) => bool_eq(&translate_term(a, vars), &translate_term(b, vars)),
        Formula::Ne(a, b) => bool_not(
            &bool_eq(&translate_term(a, vars), &translate_term(b, vars)),
        ),
        Formula::NeAny(pairs) => {
            let mut disjuncts: Vec<z3::ast::Bool> = Vec::new();
            let mut i: usize = 0;
            while i < pairs.len()
                invariant
                    i <= pairs@.len(),
                    forall|t: int|
                        0 <= t < pairs@.len() ==> (#[trigger] pairs@[t]).a.vars_below(
                            vars@.len() as int,
                        ) && pairs@[t].b.vars_below(vars@.len() as int),
                decreases pairs@.len() - i,
            {
                let d = bool_not(
                    &bool_eq(
                        &translate_term(&pairs[i].a, vars),
                        &translate_term(&pairs[i].b, vars),
                    ),
                );
                disjuncts.push(d);
                i = i + 1;
            }
            bool_or(&disjuncts)
        },
    }
}

/// The external solver's verdict on the query: satisfiable with a claimed
/// model (one value per cell variable, in row-major order), unsatisfiable,
/// or given up. A model's values are the solver's word alone; nothing here
/// checks them.
pub fn solve(query: &crate::query::Query, width: usize) -> (r:
    crate::check_unconstrained::SolverResult)
    requires
        1 <= width,
        forall|j: int|
            0 <= j < query.assertions@.len() ==> (#[trigger] query.assertions@[j]).vars_below(
                query.num_vars as int,
            ),
    ensures
        (r matches crate::check_unconstrained::SolverResult::Sat(m) ==> m@.len()
            == query.num_vars),
{
    let solver = solver_new();
    // One z3 constant per trace cell, named by its (row, column) position.
    let mut vars: Vec<z3::ast::Int> = Vec::new();
    let mut k: usize = 0;
    while k < query.num_vars
        invariant
            k <= query.num_vars,
            vars@.len() == k,
            1 <= width,
        decreases query.num_vars - k,
    {
        vars.push(int_var(k / width, k % width));
        k = k + 1;
    }
    let mut j: usize = 0;
    while j < query.assertions.len()
        invariant
            vars@.len() == query.num_vars,
            forall|t: int|
                0 <= t < query.assertions@.len() ==> (
                #[trigger] query.assertions@[t]).vars_below(query.num_vars as int),
        decreases query.assertions@.len() - j,
    {
        let b = translate_formula(&query.assertions[j], &vars);
        solver_assert(&solver, b);
        j = j + 1;
    }
    match solver_check(&solver) {
        Some(false) => crate::check_unconstrained::SolverResult::Unsat,
        None => crate::check_unconstrained::SolverResult::Unknown,
        Some(true) => {
            let model = match solver_model(&solver) {
                Some(m) => m,
                None => {
                    return crate::check_unconstrained::SolverResult::Unknown;
                },
            };
            let mut cells: Vec<u64> = Vec::new();
            let mut k2: usize = 0;
            while k2 < query.num_vars
                invariant
                    k2 <= query.num_vars,
                    cells@.len() == k2,
                    vars@.len() == query.num_vars,
                decreases query.num_vars - k2,
            {
                match model_value(&model, &vars[k2]) {
                    Some(v) => cells.push(v),
                    None => {
                        return crate::check_unconstrained::SolverResult::Unknown;
                    },
                }
                k2 = k2 + 1;
            }
            crate::check_unconstrained::SolverResult::Sat(cells)
        },
    }
}

} // verus!
