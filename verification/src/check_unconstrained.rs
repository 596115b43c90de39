//! The under-constraint checker.
//!
//! Builds, from a circuit and one concrete trace, a satisfiability query over
//! one free solver variable per trace cell: every variable ranges over the
//! field, every constraint compiled at every row must be zero, and at least
//! one cell must differ from the given trace. A satisfying assignment is a
//! second legal trace the constraints cannot tell from the given one, so the
//! circuit is under-constrained; its absence means the constraints pin every
//! cell down. The external solver's verdict is then classified — and a
//! claimed witness is re-checked concretely before it is believed.

use vstd::prelude::*;
use vstd::arithmetic::div_mod::lemma_fundamental_div_mod_converse;
use crate::air::{Air, ConstraintBuilder};
use crate::check_constraints::check_trace;
use crate::field::Felt;
use crate::field_elem::{FieldElem, FIELD_ORDER};
use crate::query::Query;
use crate::symbolic::{spec_next_row, SymbolicExpression};
use crate::term::{Formula, Term, TermPair};
use crate::trace::Trace;

verus! {

/// The integer term the compiler produces for expression `e` at row `row` of
/// a trace of `height` rows and `width` columns: cell references become the
/// free variable of the cell (in row-major numbering), boundary predicates
/// become the 0/1 literal they take at `row`, and each arithmetic node is
/// reduced modulo the field order.
pub open spec fn compile_spec(e: SymbolicExpression, width: int, row: int, height: int) -> Term
    decreases e,
{
    match e {
        SymbolicExpression::Variable { column, is_next } => {
            let r = if is_next {
                spec_next_row(row, height)
            } else {
                row
            };
            Term::Var(#[verifier::truncate] ((r * width + column) as usize))
        },
        SymbolicExpression::IsFirstRow => Term::Const(if row == 0 { 1u64 } else { 0u64 }),
        SymbolicExpression::IsLastRow => Term::Const(
            if row == height - 1 { 1u64 } else { 0u64 },
        ),
        SymbolicExpression::IsTransition => Term::Const(
            if row == height - 1 { 0u64 } else { 1u64 },
        ),
        SymbolicExpression::Constant(f) => Term::Const(f.value),
        SymbolicExpression::Add(x, y) => Term::Mod(
            Box::new(
                Term::Add(
                    Box::new(compile_spec(*x, width, row, height)),
                    Box::new(compile_spec(*y, width, row, height)),
                ),
            ),
            Box::new(Term::Const(FIELD_ORDER)),
        ),
        SymbolicExpression::Sub(x, y) => Term::Mod(
            Box::new(
                Term::Sub(
                    Box::new(compile_spec(*x, width, row, height)),
                    Box::new(compile_spec(*y, width, row, height)),
                ),
            ),
            Box::new(Term::Const(FIELD_ORDER)),
        ),
        SymbolicExpression::Neg(x) => Term::Mod(
            Box::new(Term::Neg(Box::new(compile_spec(*x, width, row, height)))),
            Box::new(Term::Const(FIELD_ORDER)),
        ),
        SymbolicExpression::Mul(x, y) => Term::Mod(
            Box::new(
                Term::Mul(
                    Box::new(compile_spec(*x, width, row, height)),
                    Box::new(compile_spec(*y, width, row, height)),
                ),
            ),
            Box::new(Term::Const(FIELD_ORDER)),
        ),
    }
}

/// The compiled term means exactly what concrete evaluation computes: under
/// any assignment `env` of one integer per trace cell, the compiled term's
/// value equals the expression's concrete value over `env` read as a trace.
/// In particular the two checkers resolve the cyclic next row and the three
/// boundary predicates identically at every row, the wraparound row included.
pub proof fn lemma_compile_correct(
    e: SymbolicExpression,
    env: Seq<int>,
    width: int,
    row: int,
    height: int,
)
    requires
        e.wf(width),
        1 <= width,
        1 <= height,
        0 <= row < height,
        height * width <= usize::MAX,
    ensures
        compile_spec(e, width, row, height).eval(env) == e.eval_at(env, width, row, height),
    decreases e,
{
    reveal_with_fuel(Term::eval, 3);
    match e {
        SymbolicExpression::Variable { column, is_next } => {
            let r = if is_next {
                spec_next_row(row, height)
            } else {
                row
            };
            assert(0 <= r < height);
            assert(r * width + column < height * width) by (nonlinear_arith)
                requires
                    0 <= r,
                    r < height,
                    0 <= column,
                    (column as int) < width,
            ;
            assert(0 <= r * width) by (nonlinear_arith)
                requires
                    0 <= r,
                    0 <= width,
            ;
        },
        SymbolicExpression::Add(x, y) => {
            lemma_compile_correct(*x, env, width, row, height);
            lemma_compile_correct(*y, env, width, row, height);
        },
        SymbolicExpression::Sub(x, y) => {
            lemma_compile_correct(*x, env, width, row, height);
            lemma_compile_correct(*y, env, width, row, height);
        },
        SymbolicExpression::Neg(x) => {
            lemma_compile_correct(*x, env, width, row, height);
        },
        SymbolicExpression::Mul(x, y) => {
            lemma_compile_correct(*x, env, width, row, height);
            lemma_compile_correct(*y, env, width, row, height);
        },
        _ => {},
    }
}

/// Rewrite one constraint expression, for row `row`, into a solver-level
/// field value over the free variables `vars` (one per trace cell, in
/// row-major order). Produces exactly the term [`compile_spec`] describes.
pub fn parse_symbolic_expression(
    exp: &SymbolicExpression,
    vars: &Vec<Felt>,
    width: usize,
    row: usize,
    height: usize,
) -> (r: Felt)
    requires
        exp.wf(width as int),
        1 <= width,
        1 <= height,
        row < height,
        vars@.len() == height * width,
        forall|k: int| 0 <= k < vars@.len() ==> (#[trigger] vars@[k]).term == Term::Var(
            k as usize,
        ),
    ensures
        r.term == compile_spec(*exp, width as int, row as int, height as int),
    decreases *exp,
{
    match exp {
        SymbolicExpression::Variable { column, is_next } => {
            let r = if *is_next {
                crate::symbolic::next_row(row, height)
            } else {
                row
            };
            proof {
                assert(r * width + *column < height * width) by (nonlinear_arith)
                    requires
                        0 <= r,
                        (r as int) < (height as int),
                        0 <= *column,
                        (*column as int) < (width as int),
                ;
                assert(0 <= r * width) by (nonlinear_arith)
                    requires
                        0 <= r,
                        0 <= width,
                ;
            }
            let _n = vars.len();
            let k = r * width + *column;
            vars[k].clone()
        },
        SymbolicExpression::IsFirstRow => Felt::from_bool(row == 0),
        SymbolicExpression::IsLastRow => Felt::from_bool(row == height - 1),
        SymbolicExpression::IsTransition => Felt::from_bool(row != height - 1),
        SymbolicExpression::Constant(f) => Felt::from_f(*f),
        SymbolicExpression::Add(x, y) => {
            let a = parse_symbolic_expression(x, vars, width, row, height);
            let b = parse_symbolic_expression(y, vars, width, row, height);
            felt_add_pair(a, b)
        },
        SymbolicExpression::Sub(x, y) => {
            let a = parse_symbolic_expression(x, vars, width, row, height);
            let b = parse_symbolic_expression(y, vars, width, row, height);
            felt_sub_pair(a, b)
        },
        SymbolicExpression::Neg(x) => {
            let a = parse_symbolic_expression(x, vars, width, row, height);
            a.unary_minus()
        },
        SymbolicExpression::Mul(x, y) => {
            let a = parse_symbolic_expression(x, vars, width, row, height);
            let b = parse_symbolic_expression(y, vars, width, row, height);
            felt_mul_pair(a, b)
        },
    }
}

/// The range assertions the query opens with: for cell variable `k`, entry
/// `2k` asserts `0 <= x_k` and entry `2k + 1` asserts `x_k < FIELD_ORDER`.
pub open spec fn range_assertions(n: int) -> Seq<Formula> {
    Seq::new(
        (2 * n) as nat,
        |m: int|
            if m % 2 == 0 {
                Formula::Ge(Term::Var((m / 2) as usize), Term::Const(0))
            } else {
                Formula::Lt(Term::Var((m / 2) as usize), Term::Const(FIELD_ORDER))
            },
    )
}

/// The compiled constraint assertions, rows outermost: entry `i * cs.len() + j`
/// asserts that constraint `j`, compiled at row `i`, is zero.
pub open spec fn constraint_assertions(
    cs: Seq<SymbolicExpression>,
    width: int,
    height: int,
) -> Seq<Formula> {
    Seq::new(
        (height * cs.len()) as nat,
        |m: int|
            Formula::Eq(
                compile_spec(cs[m % (cs.len() as int)], width, m / (cs.len() as int), height),
                Term::Const(0),
            ),
    )
}

/// The distinctness disjuncts: cell variable `k` against the given trace's
/// cell `k`, in row-major order.
pub open spec fn distinctness_pairs(values: Seq<FieldElem>) -> Seq<TermPair> {
    Seq::new(
        values.len(),
        |k: int| (TermPair { a: Term::Var(k as usize), b: Term::Const(values[k].value) }),
    )
}

/// Every entry of the assignment is a canonical field element.
pub open spec fn env_in_range(env: Seq<int>) -> bool {
    forall|k: int| 0 <= k < env.len() ==> 0 <= #[trigger] env[k] < FIELD_ORDER as int
}

/// Every constraint evaluates to zero at every row of the assignment, read
/// as a row-major trace of the given width and height.
pub open spec fn satisfies_all_constraints(
    cs: Seq<SymbolicExpression>,
    env: Seq<int>,
    width: int,
    height: int,
) -> bool {
    forall|i: int, j: int|
        0 <= i < height && 0 <= j < cs.len() ==> (#[trigger] cs[j].eval_at(
            env,
            width,
            i,
            height,
        )) == 0
}

/// The assignment differs from the given cells in at least one position.
pub open spec fn differs_somewhere(env: Seq<int>, cells: Seq<int>) -> bool {
    exists|k: int| 0 <= k < env.len() && env[k] != cells[k]
}

/// The shape of the entries of [`range_assertions`].
pub proof fn lemma_range_entry(n: int, k: int)
    requires
        0 <= k < n,
    ensures
        range_assertions(n).len() == 2 * n,
        range_assertions(n)[2 * k] == Formula::Ge(Term::Var(k as usize), Term::Const(0)),
        range_assertions(n)[2 * k + 1] == Formula::Lt(
            Term::Var(k as usize),
            Term::Const(FIELD_ORDER),
        ),
{
    assert((2 * k) % 2 == 0);
    assert((2 * k) / 2 == k);
    assert((2 * k + 1) % 2 == 1int);
    assert((2 * k + 1) / 2 == k);
}

/// The shape of the entries of [`constraint_assertions`].
pub proof fn lemma_constraint_entry(cs: Seq<SymbolicExpression>, width: int, height: int, i: int, j: int)
    requires
        0 <= i < height,
        0 <= j < cs.len(),
    ensures
        constraint_assertions(cs, width, height).len() == height * cs.len(),
        constraint_assertions(cs, width, height)[i * cs.len() + j] == Formula::Eq(
            compile_spec(cs[j], width, i, height),
            Term::Const(0),
        ),
{
    let c = cs.len() as int;
    lemma_fundamental_div_mod_converse(i * c + j, c, i, j);
    assert(0 <= i * c + j < height * c) by (nonlinear_arith)
        requires
            0 <= i < height,
            0 <= j < c,
    ;
}

/// The exact shape of the query built for a constraint list and a trace: one
/// variable per trace cell, its range assertions first, then every constraint
/// compiled at every row, then the distinctness disjunction. The shape is a
/// function of the constraint list and the trace alone.
pub open spec fn is_query_for(s: Query, cs: Seq<SymbolicExpression>, main: Trace) -> bool {
    &&& s.num_vars as int == main.spec_height() * main.width
    &&& s.assertions@.len() == 2 * s.num_vars + main.spec_height() * cs.len() + 1
    &&& s.assertions@.take(2 * s.num_vars as int) == range_assertions(s.num_vars as int)
    &&& s.assertions@.subrange(
        2 * s.num_vars as int,
        s.assertions@.len() - 1,
    ) == constraint_assertions(cs, main.width as int, main.spec_height())
    &&& (s.assertions@.last() matches Formula::NeAny(ps) && ps@ == distinctness_pairs(
        main.values@,
    ))
}

/// Determinism of the query: any two assertion sets of the shape built for
/// the same constraint list and trace agree entry for entry (the closing
/// disjunction up to its vector's abstract contents).
pub proof fn lemma_query_deterministic(
    s1: Query,
    s2: Query,
    cs: Seq<SymbolicExpression>,
    main: Trace,
)
    requires
        main.wf(),
        1 <= main.spec_height(),
        is_query_for(s1, cs, main),
        is_query_for(s2, cs, main),
    ensures
        s1.num_vars == s2.num_vars,
        s1.assertions@.len() == s2.assertions@.len(),
        forall|m: int|
            0 <= m < s1.assertions@.len() - 1 ==> s1.assertions@[m] == s2.assertions@[m],
        (s1.assertions@.last() matches Formula::NeAny(p1) && s2.assertions@.last()
            matches Formula::NeAny(p2) && p1@ == p2@),
{
    let n = s1.num_vars as int;
    let len = s1.assertions@.len() as int;
    assert(main.spec_height() * cs.len() >= 0) by (nonlinear_arith)
        requires
            main.spec_height() >= 1,
    ;
    assert forall|m: int| 0 <= m < len - 1 implies s1.assertions@[m] == s2.assertions@[m] by {
        if m < 2 * n {
            assert(s1.assertions@[m] == s1.assertions@.take(2 * n)[m]);
            assert(s2.assertions@[m] == s2.assertions@.take(2 * n)[m]);
        } else {
            assert(s1.assertions@[m] == s1.assertions@.subrange(2 * n, len - 1)[m - 2 * n]);
            assert(s2.assertions@[m] == s2.assertions@.subrange(2 * n, len - 1)[m - 2 * n]);
        }
    }
}

/// What the assembled query means: an assignment of one integer per trace
/// cell satisfies every assertion exactly when it keeps every cell in the
/// field's range, satisfies every constraint at every row, and differs from
/// the given trace in at least one cell.
pub proof fn lemma_query_semantics(
    s: Query,
    cs: Seq<SymbolicExpression>,
    main: Trace,
    env: Seq<int>,
)
    requires
        main.wf(),
        1 <= main.spec_height(),
        main.spec_height() * main.width <= usize::MAX,
        forall|j: int| 0 <= j < cs.len() ==> (#[trigger] cs[j]).wf(main.width as int),
        is_query_for(s, cs, main),
        env.len() == s.num_vars,
    ensures
        s.satisfies(env) <==> {
            &&& env_in_range(env)
            &&& satisfies_all_constraints(cs, env, main.width as int, main.spec_height())
            &&& differs_somewhere(env, main.cells())
        },
{
    let n = s.num_vars as int;
    let width = main.width as int;
    let height = main.spec_height();
    let c = cs.len() as int;
    let len = s.assertions@.len() as int;
    main.lemma_size();
    let ps = s.assertions@.last()->NeAny_0;
    if s.satisfies(env) {
        assert forall|k: int| 0 <= k < env.len() implies 0 <= #[trigger] env[k] < FIELD_ORDER as int by {
            lemma_range_entry(n, k);
            assert(s.assertions@[2 * k] == range_assertions(n)[2 * k]);
            assert(s.assertions@[2 * k + 1] == range_assertions(n)[2 * k + 1]);
            assert(s.assertions@[2 * k].holds(env));
            assert(s.assertions@[2 * k + 1].holds(env));
        }
        assert forall|i: int, j: int|
            0 <= i < height && 0 <= j < c implies (#[trigger] cs[j].eval_at(
            env,
            width,
            i,
            height,
        )) == 0 by {
            lemma_constraint_entry(cs, width, height, i, j);
            assert(0 <= i * c + j < height * c) by (nonlinear_arith)
                requires
                    0 <= i < height,
                    0 <= j < c,
            ;
            let m = 2 * n + i * c + j;
            assert(s.assertions@[m] == s.assertions@.subrange(2 * n, len - 1)[i * c + j]);
            assert(s.assertions@[m].holds(env));
            lemma_compile_correct(cs[j], env, width, i, height);
        }
        assert(s.assertions@[len - 1].holds(env));
        assert(s.assertions@[len - 1] == s.assertions@.last());
        let t = choose|t: int|
            0 <= t < ps@.len() && (#[trigger] ps@[t]).a.eval(env) != ps@[t].b.eval(env);
        assert(ps@[t] == (TermPair {
            a: Term::Var(t as usize),
            b: Term::Const(main.values@[t].value),
        }));
        assert(env[t] != main.cells()[t]);
        assert(differs_somewhere(env, main.cells()));
    }
    if {
        &&& env_in_range(env)
        &&& satisfies_all_constraints(cs, env, width, height)
        &&& differs_somewhere(env, main.cells())
    } {
        assert forall|idx: int| 0 <= idx < len implies (#[trigger] s.assertions@[idx]).holds(
            env,
        ) by {
            if idx < 2 * n {
                let k = idx / 2;
                assert(0 <= k < n);
                lemma_range_entry(n, k);
                if idx % 2 == 0 {
                    assert(idx == 2 * k);
                    assert(s.assertions@[idx] == range_assertions(n)[2 * k]);
                } else {
                    assert(idx == 2 * k + 1);
                    assert(s.assertions@[idx] == range_assertions(n)[2 * k + 1]);
                }
            } else if idx < len - 1 {
                let m = idx - 2 * n;
                vstd::arithmetic::div_mod::lemma_fundamental_div_mod(m, c);
                vstd::arithmetic::div_mod::lemma_mod_bound(m, c);
                let i = m / c;
                let j = m % c;
                assert(0 <= i) by (nonlinear_arith)
                    requires
                        0 <= m,
                        1 <= c,
                        m == c * i + j,
                        0 <= j < c,
                ;
                assert(i < height) by (nonlinear_arith)
                    requires
                        m < height * c,
                        1 <= c,
                        m == c * i + j,
                        0 <= j < c,
                        0 <= i,
                ;
                lemma_constraint_entry(cs, width, height, i, j);
                assert(s.assertions@[idx] == s.assertions@.subrange(2 * n, len - 1)[m]);
                assert(s.assertions@[idx] == Formula::Eq(
                    compile_spec(cs[j], width, i, height),
                    Term::Const(0),
                ));
                lemma_compile_correct(cs[j], env, width, i, height);
                assert(cs[j].eval_at(env, width, i, height) == 0);
            } else {
                assert(idx == len - 1);
                assert(s.assertions@[idx] == s.assertions@.last());
                let k = choose|k: int| 0 <= k < env.len() && env[k] != main.cells()[k];
                assert(ps@[k] == (TermPair {
                    a: Term::Var(k as usize),
                    b: Term::Const(main.values@[k].value),
                }));
                assert(ps@[k].a.eval(env) == env[k]);
                assert(ps@[k].b.eval(env) == main.cells()[k]);
                assert(s.assertions@[idx].holds(env));
            }
        }
    }
}

/// Build the satisfiability query deciding whether the constraint list is
/// under-constrained on this trace: declare one range-bounded free variable
/// per trace cell (row-major, so variable `i * width + j` is cell `(i, j)`),
/// assert every constraint compiled at every row to be zero, and assert that
/// at least one cell differs from the given trace. The resulting assertion
/// set is a function of the constraint list and the trace alone, and an
/// assignment satisfies it exactly when it is a second, in-range,
/// everywhere-valid trace differing from the given one.
pub fn build_query(constraints: &Vec<SymbolicExpression>, main: &Trace) -> (s: Query)
    requires
        main.wf(),
        1 <= main.spec_height(),
        forall|j: int|
            0 <= j < constraints@.len() ==> (#[trigger] constraints@[j]).wf(main.width as int),
    ensures
        s.num_vars as int == main.spec_height() * main.width,
        is_query_for(s, constraints@, *main),
        forall|env: Seq<int>|
            env.len() == s.num_vars ==> (s.satisfies(env) <==> {
                &&& env_in_range(env)
                &&& satisfies_all_constraints(
                    constraints@,
                    env,
                    main.width as int,
                    main.spec_height(),
                )
                &&& differs_somewhere(env, main.cells())
            }),
{
    let width = main.width();
    let height = main.height();
    let n = main.values.len();
    proof {
        main.lemma_size();
    }

    let mut solver = Query::new();

    // One free field value per trace cell, named by its row-major position.
    let mut vars: Vec<Felt> = Vec::new();
    let mut k: usize = 0;
    assert(range_assertions(0) =~= Seq::<Formula>::empty());
    while k < n
        invariant
            k <= n,
            solver.num_vars == k,
            vars@.len() == k,
            forall|t: int| 0 <= t < k ==> (#[trigger] vars@[t]).term == Term::Var(t as usize),
            solver.assertions@ == range_assertions(k as int),
        decreases n - k,
    {
        let v = Felt::new_const(&mut solver);
        vars.push(v);
        proof {
            lemma_range_entry(k as int + 1, k as int);
            assert(range_assertions(k as int + 1) =~= range_assertions(k as int).push(
                Formula::Ge(Term::Var(k), Term::Const(0)),
            ).push(Formula::Lt(Term::Var(k), Term::Const(FIELD_ORDER)))) by {
                assert forall|m: int| 0 <= m < 2 * (k as int) implies range_assertions(
                    k as int + 1,
                )[m] == range_assertions(k as int)[m] by {
                }
            }
        }
        k = k + 1;
    }

    let c = constraints.len();
    let ghost cs = constraints@;
    let ghost base = solver.assertions@;

    // Compile every constraint at every row and assert it to be zero.
    let mut i: usize = 0;
    proof {
        assert(constraint_assertions(cs, width as int, height as int).take(0)
            =~= Seq::<Formula>::empty());
    }
    while i < height
        invariant
            i <= height,
            c == constraints@.len(),
            constraints@ == cs,
            solver.num_vars == n,
            main.wf(),
            1 <= height,
            height == main.spec_height(),
            width == main.width,
            n == (height as int) * (width as int),
            vars@.len() == n,
            forall|t: int| 0 <= t < n ==> (#[trigger] vars@[t]).term == Term::Var(t as usize),
            forall|j: int| 0 <= j < cs.len() ==> (#[trigger] cs[j]).wf(width as int),
            solver.assertions@ == base + constraint_assertions(
                cs,
                width as int,
                height as int,
            ).take((i as int) * (c as int)),
        decreases height - i,
    {
        let mut j: usize = 0;
        while j < c
            invariant
                i < height,
                j <= c,
                c == constraints@.len(),
                constraints@ == cs,
                solver.num_vars == n,
                main.wf(),
                1 <= height,
                height == main.spec_height(),
                width == main.width,
                n == (height as int) * (width as int),
                vars@.len() == n,
                forall|t: int| 0 <= t < n ==> (#[trigger] vars@[t]).term == Term::Var(
                    t as usize,
                ),
                forall|j2: int| 0 <= j2 < cs.len() ==> (#[trigger] cs[j2]).wf(width as int),
                solver.assertions@ == base + constraint_assertions(
                    cs,
                    width as int,
                    height as int,
                ).take((i as int) * (c as int) + j as int),
            decreases c - j,
        {
            let exp = parse_symbolic_expression(&constraints[j], &vars, width, i, height);
            exp.assert_zero(&mut solver);
            proof {
                lemma_constraint_entry(cs, width as int, height as int, i as int, j as int);
                let m = (i as int) * (c as int) + j as int;
                assert(0 <= m && m + 1 <= (height as int) * (c as int)) by (nonlinear_arith)
                    requires
                        0 <= (i as int) < (height as int),
                        0 <= (j as int) < (c as int),
                        m == (i as int) * (c as int) + j as int,
                ;
                assert(constraint_assertions(cs, width as int, height as int).take(m + 1)
                    =~= constraint_assertions(cs, width as int, height as int).take(m).push(
                    Formula::Eq(
                        compile_spec(cs[j as int], width as int, i as int, height as int),
                        Term::Const(0),
                    ),
                ));
            }
            j = j + 1;
        }
        proof {
            assert((i as int) * (c as int) + (c as int) == (i as int + 1) * (c as int))
                by (nonlinear_arith);
        }
        i = i + 1;
    }
    proof {
        assert(constraint_assertions(cs, width as int, height as int).take(
            (height as int) * (c as int),
        ) =~= constraint_assertions(cs, width as int, height as int));
    }

    // Rule out the given trace itself: some cell must take another value.
    let mut pairs: Vec<TermPair> = Vec::new();
    let mut t: usize = 0;
    proof {
        assert(distinctness_pairs(main.values@).take(0) =~= Seq::<TermPair>::empty());
    }
    while t < n
        invariant
            t <= n,
            n == main.values@.len(),
            vars@.len() == n,
            forall|t2: int| 0 <= t2 < n ==> (#[trigger] vars@[t2]).term == Term::Var(
                t2 as usize,
            ),
            pairs@ == distinctness_pairs(main.values@).take(t as int),
        decreases n - t,
    {
        let a = vars[t].term.clone();
        let b = Term::Const(main.values[t].value);
        pairs.push(TermPair { a, b });
        proof {
            assert(distinctness_pairs(main.values@).take(t as int + 1) =~= distinctness_pairs(
                main.values@,
            ).take(t as int).push(
                TermPair { a: Term::Var(t), b: Term::Const(main.values@[t as int].value) },
            ));
        }
        t = t + 1;
    }
    proof {
        assert(distinctness_pairs(main.values@).take(n as int) =~= distinctness_pairs(
            main.values@,
        ));
    }
    solver.assert_formula(Formula::NeAny(pairs));

    proof {
        let nn = solver.num_vars as int;
        assert(solver.assertions@.take(2 * nn) =~= range_assertions(nn));
        assert(solver.assertions@.subrange(2 * nn, solver.assertions@.len() - 1)
            =~= constraint_assertions(cs, width as int, height as int));
        assert forall|env: Seq<int>| env.len() == solver.num_vars implies (solver.satisfies(env)
            <==> {
            &&& env_in_range(env)
            &&& satisfies_all_constraints(cs, env, width as int, height as int)
            &&& differs_somewhere(env, main.cells())
        }) by {
            lemma_query_semantics(solver, cs, *main, env);
        }
    }
    solver
}

/// Build the satisfiability query for a circuit, as [`build_query`] does for
/// its constraint list.
pub fn unconstrained_query<A: Air>(air: &A, main: &Trace) -> (s: Query)
    requires
        main.wf(),
        1 <= main.spec_height(),
        main.width as int == air.spec_width(),
    ensures
        s.num_vars as int == main.spec_height() * main.width,
        is_query_for(s, air.spec_constraints(), *main),
        forall|env: Seq<int>|
            env.len() == s.num_vars ==> (s.satisfies(env) <==> {
                &&& env_in_range(env)
                &&& satisfies_all_constraints(
                    air.spec_constraints(),
                    env,
                    main.width as int,
                    main.spec_height(),
                )
                &&& differs_somewhere(env, main.cells())
            }),
{
    let width = air.width();
    let mut builder = ConstraintBuilder::new(width);
    air.eval(&mut builder);
    proof {
        air.lemma_constraints_wf();
        assert(builder.constraints@ =~= air.spec_constraints());
    }
    build_query(&builder.constraints, main)
}

/// Every variable the compiler places in a term is the row-major index of a
/// trace cell, so it lies below `height * width`.
pub proof fn lemma_compile_vars_below(e: SymbolicExpression, width: int, row: int, height: int)
    requires
        e.wf(width),
        1 <= width,
        1 <= height,
        0 <= row < height,
        height * width <= usize::MAX,
    ensures
        compile_spec(e, width, row, height).vars_below(height * width),
    decreases e,
{
    reveal_with_fuel(Term::vars_below, 3);
    match e {
        SymbolicExpression::Variable { column, is_next } => {
            let r = if is_next {
                spec_next_row(row, height)
            } else {
                row
            };
            assert(0 <= r < height);
            assert(r * width + column < height * width) by (nonlinear_arith)
                requires
                    0 <= r,
                    r < height,
                    0 <= column,
                    (column as int) < width,
            ;
            assert(0 <= r * width) by (nonlinear_arith)
                requires
                    0 <= r,
                    0 <= width,
            ;
        },
        SymbolicExpression::Add(x, y) => {
            lemma_compile_vars_below(*x, width, row, height);
            lemma_compile_vars_below(*y, width, row, height);
        },
        SymbolicExpression::Sub(x, y) => {
            lemma_compile_vars_below(*x, width, row, height);
            lemma_compile_vars_below(*y, width, row, height);
        },
        SymbolicExpression::Neg(x) => {
            lemma_compile_vars_below(*x, width, row, height);
        },
        SymbolicExpression::Mul(x, y) => {
            lemma_compile_vars_below(*x, width, row, height);
            lemma_compile_vars_below(*y, width, row, height);
        },
        _ => {},
    }
}

/// Every assertion of the query speaks only of the declared cell variables.
pub proof fn lemma_query_vars_below(s: Query, cs: Seq<SymbolicExpression>, main: Trace)
    requires
        main.wf(),
        1 <= main.spec_height(),
        forall|j: int| 0 <= j < cs.len() ==> (#[trigger] cs[j]).wf(main.width as int),
        is_query_for(s, cs, main),
    ensures
        forall|j: int|
            0 <= j < s.assertions@.len() ==> (#[trigger] s.assertions@[j]).vars_below(
                s.num_vars as int,
            ),
{
    let n = s.num_vars as int;
    let width = main.width as int;
    let height = main.spec_height();
    let c = cs.len() as int;
    let len = s.assertions@.len() as int;
    main.lemma_size();
    let ps = s.assertions@.last()->NeAny_0;
    assert forall|j: int| 0 <= j < len implies (#[trigger] s.assertions@[j]).vars_below(n) by {
        if j < 2 * n {
            let k = j / 2;
            assert(0 <= k < n);
            lemma_range_entry(n, k);
            if j % 2 == 0 {
                assert(j == 2 * k);
                assert(s.assertions@[j] == range_assertions(n)[2 * k]);
            } else {
                assert(j == 2 * k + 1);
                assert(s.assertions@[j] == range_assertions(n)[2 * k + 1]);
            }
        } else if j < len - 1 {
            let m = j - 2 * n;
            vstd::arithmetic::div_mod::lemma_fundamental_div_mod(m, c);
            vstd::arithmetic::div_mod::lemma_mod_bound(m, c);
            let i = m / c;
            let jj = m % c;
            assert(0 <= i) by (nonlinear_arith)
                requires
                    0 <= m,
                    1 <= c,
                    m == c * i + jj,
                    0 <= jj < c,
            ;
            assert(i < height) by (nonlinear_arith)
                requires
                    m < height * c,
                    1 <= c,
                    m == c * i + jj,
                    0 <= jj < c,
                    0 <= i,
            ;
            lemma_constraint_entry(cs, width, height, i, jj);
            assert(s.assertions@[j] == s.assertions@.subrange(2 * n, len - 1)[m]);
            assert(s.assertions@[j] == Formula::Eq(
                compile_spec(cs[jj], width, i, height),
                Term::Const(0),
            ));
            lemma_compile_vars_below(cs[jj], width, i, height);
        } else {
            assert(j == len - 1);
            assert(s.assertions@[j] == s.assertions@.last());
            assert forall|t: int| 0 <= t < ps@.len() implies (#[trigger] ps@[t]).a.vars_below(n)
                && ps@[t].b.vars_below(n) by {
                assert(ps@[t] == (TermPair {
                    a: Term::Var(t as usize),
                    b: Term::Const(main.values@[t].value),
                }));
            }
        }
    }
}

/// The range invariant at the solver boundary: any assignment satisfying the
/// query keeps every cell variable in `[0, FIELD_ORDER)`, because the range
/// assertions declared with each free variable are part of the query.
pub proof fn lemma_satisfying_assignment_in_range(
    s: Query,
    cs: Seq<SymbolicExpression>,
    main: Trace,
    env: Seq<int>,
)
    requires
        main.wf(),
        1 <= main.spec_height(),
        forall|j: int| 0 <= j < cs.len() ==> (#[trigger] cs[j]).wf(main.width as int),
        is_query_for(s, cs, main),
        env.len() == s.num_vars,
        s.satisfies(env),
    ensures
        env_in_range(env),
{
    lemma_query_semantics(s, cs, main, env);
}

/// Run the whole under-constraint analysis: build the query, hand it to the
/// external solver, and classify its verdict, believing a claimed model only
/// after the concrete re-check. Whenever the answer is `Unsound`, the
/// returned witness provably is a well-formed trace of the same shape that
/// satisfies every constraint at every row and differs from the given trace
/// in at least one cell; `Sound` and `Indeterminate` report the solver's
/// unsatisfiable and given-up verdicts.
pub fn check_unconstrained<A: Air>(air: &A, main: &Trace) -> (o: CheckOutcome)
    requires
        main.wf(),
        1 <= main.spec_height(),
        main.width as int == air.spec_width(),
    ensures
        (o matches CheckOutcome::Unsound(w) ==> {
            &&& w.wf()
            &&& w.width == main.width
            &&& w.spec_height() == main.spec_height()
            &&& satisfies_all_constraints(
                air.spec_constraints(),
                w.cells(),
                main.width as int,
                main.spec_height(),
            )
            &&& differs_somewhere(w.cells(), main.cells())
        }),
{
    let width = air.width();
    let mut builder = ConstraintBuilder::new(width);
    air.eval(&mut builder);
    proof {
        air.lemma_constraints_wf();
        assert(builder.constraints@ =~= air.spec_constraints());
    }
    let constraints = builder.constraints;
    let query = build_query(&constraints, main);
    proof {
        lemma_query_vars_below(query, constraints@, *main);
    }
    let verdict = crate::backend::solve(&query, width);
    let ghost gverdict = verdict;
    let o = classify_model(&constraints, main, verdict);
    proof {
        if o is Unsound {
            let w = o->Unsound_0;
            assert(gverdict is Sat);
            let m = gverdict->Sat_0;
            assert(w.cells() =~= m@.map_values(|v: u64| v as int));
        }
    }
    o
}

/// The external solver's verdict on the query: a claimed model (one value
/// per cell variable, in row-major order), unsatisfiable, or given up.
#[derive(Debug, PartialEq, Eq)]
pub enum SolverResult {
    Sat(Vec<u64>),
    Unsat,
    Unknown,
}

/// The outcome of the under-constraint analysis.
#[derive(Debug, PartialEq, Eq)]
pub enum CheckOutcome {
    /// No second trace satisfies the constraints: together with the trace's
    /// shape they pin every cell down.
    Sound,
    /// A checked witness: a second trace, differing from the given one in at
    /// least one cell, that satisfies every constraint at every row.
    Unsound(Trace),
    /// The solver gave up, or its claimed model did not check out.
    Indeterminate,
}

/// A claimed model is a genuine under-constraint witness: one in-range value
/// per trace cell, satisfying every constraint at every row and differing
/// from the given trace in at least one cell.
pub open spec fn valid_model(model: Seq<u64>, cs: Seq<SymbolicExpression>, main: Trace) -> bool {
    let env = model.map_values(|v: u64| v as int);
    &&& model.len() == main.spec_height() * main.width
    &&& (forall|k: int| 0 <= k < model.len() ==> (#[trigger] model[k]) < FIELD_ORDER)
    &&& satisfies_all_constraints(cs, env, main.width as int, main.spec_height())
    &&& differs_somewhere(env, main.cells())
}

/// Classify the external solver's verdict against a constraint list.
/// `Unsat` means no second trace exists (`Sound`); `Unknown` is surfaced as
/// `Indeterminate`; a claimed model is believed only after it is checked
/// concretely — it must be in range, satisfy every constraint at every row,
/// and differ from the given trace — and is then returned as an `Unsound`
/// witness trace.
pub fn classify_model(constraints: &Vec<SymbolicExpression>, main: &Trace, result: SolverResult)
    -> (o: CheckOutcome)
    requires
        main.wf(),
        1 <= main.spec_height(),
        forall|j: int|
            0 <= j < constraints@.len() ==> (#[trigger] constraints@[j]).wf(main.width as int),
    ensures
        result is Unsat ==> o == CheckOutcome::Sound,
        result is Unknown ==> o == CheckOutcome::Indeterminate,
        (result matches SolverResult::Sat(model) ==> if valid_model(
            model@,
            constraints@,
            *main,
        ) {
            (o matches CheckOutcome::Unsound(w) && {
                &&& w.wf()
                &&& w.width == main.width
                &&& w.spec_height() == main.spec_height()
                &&& w.values@.map_values(|f: FieldElem| f.value) == model@
            })
        } else {
            o == CheckOutcome::Indeterminate
        }),
{
    match result {
        SolverResult::Unsat => CheckOutcome::Sound,
        SolverResult::Unknown => CheckOutcome::Indeterminate,
        SolverResult::Sat(model) => {
            let n = main.values.len();
            proof {
                main.lemma_size();
            }
            if model.len() != n {
                return CheckOutcome::Indeterminate;
            }
            // Range check, and the model as a vector of field elements.
            let mut cells: Vec<FieldElem> = Vec::new();
            let mut k: usize = 0;
            while k < n
                invariant
                    result is Sat,
                    result->Sat_0 == model,
                    n == main.spec_height() * main.width,
                    k <= n,
                    n == model@.len(),
                    cells@.len() == k,
                    forall|t: int| 0 <= t < k ==> (#[trigger] model@[t]) < FIELD_ORDER,
                    forall|t: int| 0 <= t < k ==> (#[trigger] cells@[t]).value == model@[t]
                        && cells@[t].wf(),
                decreases n - k,
            {
                let v = model[k];
                if v >= FIELD_ORDER {
                    return CheckOutcome::Indeterminate;
                }
                cells.push(FieldElem::new(v));
                k = k + 1;
            }
            let w = Trace::new(cells, main.width);
            proof {
                assert(w.cells() =~= model@.map_values(|v: u64| v as int));
                assert(w.spec_height() == main.spec_height());
            }
            // The witness must differ from the given trace somewhere.
            let mut differs = false;
            let mut k2: usize = 0;
            while k2 < n
                invariant
                    k2 <= n,
                    n == model@.len(),
                    n == main.values@.len(),
                    main.wf(),
                    forall|t: int| 0 <= t < n ==> (#[trigger] model@[t]) < FIELD_ORDER,
                    differs == exists|t: int|
                        0 <= t < k2 && model@[t] != (#[trigger] main.values@[t]).value,
                decreases n - k2,
            {
                if model[k2] != main.values[k2].value {
                    differs = true;
                }
                k2 = k2 + 1;
            }
            if !differs {
                proof {
                    assert(forall|t: int| 0 <= t < n ==> model@[t] == (
                    #[trigger] main.values@[t]).value);
                    assert(!differs_somewhere(
                        model@.map_values(|v: u64| v as int),
                        main.cells(),
                    ));
                }
                return CheckOutcome::Indeterminate;
            }
            proof {
                let t = choose|t: int|
                    0 <= t < n && model@[t] != (#[trigger] main.values@[t]).value;
                assert(model@.map_values(|v: u64| v as int)[t] != main.cells()[t]);
            }
            // The witness must satisfy every constraint at every row.
            match check_trace(constraints, &w) {
                Ok(()) => CheckOutcome::Unsound(w),
                Err(_) => CheckOutcome::Indeterminate,
            }
        },
    }
}

/// Two-operand field addition, through the n-ary combiner.
fn felt_add_pair(a: Felt, b: Felt) -> (r: Felt)
    ensures
        r.term == Term::Mod(
            Box::new(Term::Add(Box::new(a.term), Box::new(b.term))),
            Box::new(Term::Const(FIELD_ORDER)),
        ),
{
    let ghost ta = a.term;
    let ghost tb = b.term;
    let mut operands: Vec<Felt> = Vec::new();
    operands.push(a);
    operands.push(b);
    let r = Felt::add(&operands);
    proof {
        let ts = operands@.map_values(|f: Felt| f.term);
        assert(ts =~= seq![ta, tb]);
        assert(ts.drop_last() =~= seq![ta]);
        assert(crate::field::chain_add(ts.drop_last()) == ta);
        assert(crate::field::chain_add(ts) == Term::Add(Box::new(ta), Box::new(tb)));
    }
    r
}

/// Two-operand field subtraction, through the n-ary combiner.
fn felt_sub_pair(a: Felt, b: Felt) -> (r: Felt)
    ensures
        r.term == Term::Mod(
            Box::new(Term::Sub(Box::new(a.term), Box::new(b.term))),
            Box::new(Term::Const(FIELD_ORDER)),
        ),
{
    let ghost ta = a.term;
    let ghost tb = b.term;
    let mut operands: Vec<Felt> = Vec::new();
    operands.push(a);
    operands.push(b);
    let r = Felt::sub(&operands);
    proof {
        let ts = operands@.map_values(|f: Felt| f.term);
        assert(ts =~= seq![ta, tb]);
        assert(ts.drop_last() =~= seq![ta]);
        assert(crate::field::chain_sub(ts.drop_last()) == ta);
        assert(crate::field::chain_sub(ts) == Term::Sub(Box::new(ta), Box::new(tb)));
    }
    r
}

/// Two-operand field multiplication, through the n-ary combiner.
fn felt_mul_pair(a: Felt, b: Felt) -> (r: Felt)
    ensures
        r.term == Term::Mod(
            Box::new(Term::Mul(Box::new(a.term), Box::new(b.term))),
            Box::new(Term::Const(FIELD_ORDER)),
        ),
{
    let ghost ta = a.term;
    let ghost tb = b.term;
    let mut operands: Vec<Felt> = Vec::new();
    operands.push(a);
    operands.push(b);
    let r = Felt::mul(&operands);
    proof {
        let ts = operands@.map_values(|f: Felt| f.term);
        assert(ts =~= seq![ta, tb]);
        assert(ts.drop_last() =~= seq![ta]);
        assert(crate::field::chain_mul(ts.drop_last()) == ta);
        assert(crate::field::chain_mul(ts) == Term::Mul(Box::new(ta), Box::new(tb)));
    }
    r
}

} // verus!
