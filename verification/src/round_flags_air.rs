//! A round-robin "step flag" circuit and its canonical trace.
//!
//! One flag column per cycle position. The first row must carry flag 0 set
//! to 1 and every other flag 0; on every transition the flags rotate by one
//! position: the next row's flag `(i + 1) mod NUM_ROUNDS` must equal the
//! current row's flag `i`. The canonical trace has, in row `r`, exactly the
//! flag `r mod NUM_ROUNDS` set.

use vstd::prelude::*;
use vstd::arithmetic::div_mod::{
    lemma_add_mod_noop,
    lemma_fundamental_div_mod,
    lemma_fundamental_div_mod_converse,
    lemma_mod_add_multiples_vanish,
    lemma_mod_bound,
    lemma_mod_self_0,
    lemma_small_mod,
};
use crate::air::{Air, ConstraintBuilder};
use crate::check_unconstrained::{
    env_in_range,
    is_query_for,
    lemma_query_semantics,
    satisfies_all_constraints,
};
use crate::field_elem::{FieldElem, FIELD_ORDER};
use crate::query::Query;
use crate::symbolic::SymbolicExpression;
use crate::trace::Trace;

verus! {

/// Number of cycle positions, and so of flag columns.
pub const NUM_ROUNDS: usize = 24;

/// The constraint with index `j`: index 0 forces flag 0 to 1 on the first
/// row; indices `1 .. NUM_ROUNDS` force the other flags to 0 on the first
/// row; index `NUM_ROUNDS + i` forces, on every transition, the next row's
/// flag `(i + 1) mod NUM_ROUNDS` to equal the current row's flag `i`.
pub open spec fn round_flags_constraint(j: int) -> SymbolicExpression {
    if j == 0 {
        SymbolicExpression::Mul(
            Box::new(SymbolicExpression::IsFirstRow),
            Box::new(
                SymbolicExpression::Sub(
                    Box::new(SymbolicExpression::Variable { column: 0, is_next: false }),
                    Box::new(SymbolicExpression::Constant(FieldElem { value: 1 })),
                ),
            ),
        )
    } else if j < NUM_ROUNDS {
        SymbolicExpression::Mul(
            Box::new(SymbolicExpression::IsFirstRow),
            Box::new(SymbolicExpression::Variable { column: j as usize, is_next: false }),
        )
    } else {
        let i = j - NUM_ROUNDS;
        SymbolicExpression::Mul(
            Box::new(SymbolicExpression::IsTransition),
            Box::new(
                SymbolicExpression::Sub(
                    Box::new(
                        SymbolicExpression::Variable {
                            column: ((i + 1) % (NUM_ROUNDS as int)) as usize,
                            is_next: true,
                        },
                    ),
                    Box::new(SymbolicExpression::Variable { column: i as usize, is_next: false }),
                ),
            ),
        )
    }
}

/// The circuit's constraint list: `2 * NUM_ROUNDS` constraints.
pub open spec fn round_flags_constraints() -> Seq<SymbolicExpression> {
    Seq::new((2 * NUM_ROUNDS) as nat, |j: int| round_flags_constraint(j))
}

/// The canonical trace's cell at row `r`, column `c`: 1 exactly when `c` is
/// `r mod NUM_ROUNDS`.
pub open spec fn round_flags_cell(r: int, c: int) -> int {
    if c == r % (NUM_ROUNDS as int) {
        1
    } else {
        0
    }
}

/// The round-robin step-flag circuit.
pub struct RoundFlagsAir {}

impl Air for RoundFlagsAir {
    open spec fn spec_width(&self) -> int {
        NUM_ROUNDS as int
    }

    open spec fn spec_constraints(&self) -> Seq<SymbolicExpression> {
        round_flags_constraints()
    }

    proof fn lemma_constraints_wf(&self) {
        assert forall|j: int|
            0 <= j < round_flags_constraints().len() implies (
        #[trigger] round_flags_constraints()[j]).wf(NUM_ROUNDS as int) by {
            reveal_with_fuel(SymbolicExpression::wf, 4);
            if j >= NUM_ROUNDS {
                let i = j - NUM_ROUNDS;
                lemma_mod_bound(i + 1, NUM_ROUNDS as int);
            }
        }
    }

    fn width(&self) -> (w: usize) {
        NUM_ROUNDS
    }

    fn eval(&self, builder: &mut ConstraintBuilder) {
        let ghost base = old(builder).constraints@;

        // The first row carries flag 0 set to 1 ...
        let pinned = SymbolicExpression::Mul(
            Box::new(builder.is_first_row()),
            Box::new(
                SymbolicExpression::Sub(
                    Box::new(builder.cell(0, false)),
                    Box::new(SymbolicExpression::Constant(FieldElem::one())),
                ),
            ),
        );
        builder.assert_zero(pinned);
        proof {
            assert(round_flags_constraints().take(1) =~= Seq::<SymbolicExpression>::empty().push(
                round_flags_constraint(0),
            ));
        }

        // ... and every other flag set to 0.
        let mut i: usize = 1;
        while i < NUM_ROUNDS
            invariant
                1 <= i <= NUM_ROUNDS,
                builder.width == old(builder).width,
                builder.width == NUM_ROUNDS,
                builder.constraints@ == base + round_flags_constraints().take(i as int),
            decreases NUM_ROUNDS - i,
        {
            let zeroed = SymbolicExpression::Mul(
                Box::new(builder.is_first_row()),
                Box::new(builder.cell(i, false)),
            );
            builder.assert_zero(zeroed);
            proof {
                assert(round_flags_constraints().take(i as int + 1) =~= round_flags_constraints()
                    .take(i as int).push(round_flags_constraint(i as int)));
            }
            i = i + 1;
        }

        // On every transition the flags rotate by one position.
        let mut r: usize = 0;
        while r < NUM_ROUNDS
            invariant
                r <= NUM_ROUNDS,
                builder.width == old(builder).width,
                builder.width == NUM_ROUNDS,
                builder.constraints@ == base + round_flags_constraints().take(
                    NUM_ROUNDS + r as int,
                ),
            decreases NUM_ROUNDS - r,
        {
            let rotated = SymbolicExpression::Mul(
                Box::new(builder.is_transition()),
                Box::new(
                    SymbolicExpression::Sub(
                        Box::new(builder.cell((r + 1) % NUM_ROUNDS, true)),
                        Box::new(builder.cell(r, false)),
                    ),
                ),
            );
            builder.assert_zero(rotated);
            proof {
                assert(round_flags_constraints().take(NUM_ROUNDS + r as int + 1)
                    =~= round_flags_constraints().take(NUM_ROUNDS + r as int).push(
                    round_flags_constraint(NUM_ROUNDS + r as int),
                ));
            }
            r = r + 1;
        }

        proof {
            assert(round_flags_constraints().take(2 * NUM_ROUNDS as int)
                =~= round_flags_constraints());
        }
    }
}

/// A power of two: 1, or an even number whose half is a power of two.
pub open spec fn is_power_of_two(x: int) -> bool
    decreases x,
{
    if x <= 0 {
        false
    } else if x == 1 {
        true
    } else {
        x % 2 == 0 && is_power_of_two(x / 2)
    }
}

/// The least power of two that is at least `n`.
pub fn next_power_of_two(n: usize) -> (r: usize)
    requires
        1 <= n <= 0x4000_0000,
    ensures
        is_power_of_two(r as int),
        n <= r,
        r < 2 * n,
{
    let mut h: usize = 1;
    while h < n
        invariant
            1 <= h,
            is_power_of_two(h as int),
            h < 2 * n,
            n <= 0x4000_0000,
        decreases 2 * n - h,
    {
        proof {
            assert(h < 0x4000_0000);
            assert((2 * h as int) % 2 == 0);
            assert((2 * h as int) / 2 == h as int);
        }
        h = 2 * h;
    }
    h
}

/// The canonical trace: `next_power_of_two(NUM_ROUNDS)` rows of `NUM_ROUNDS`
/// columns, with exactly the flag `r mod NUM_ROUNDS` set in row `r`.
pub fn generate_trace_rows() -> (t: Trace)
    ensures
        t.wf(),
        t.width == NUM_ROUNDS,
        1 <= t.spec_height(),
        is_power_of_two(t.spec_height()),
        forall|r: int, c: int|
            0 <= r < t.spec_height() && 0 <= c < NUM_ROUNDS ==> #[trigger] t.cell(r, c)
                == round_flags_cell(r, c),
{
    let num_rows = next_power_of_two(NUM_ROUNDS);
    let mut values: Vec<FieldElem> = Vec::new();
    let mut r: usize = 0;
    while r < num_rows
        invariant
            r <= num_rows,
            values@.len() == r * NUM_ROUNDS,
            forall|k: int|
                0 <= k < values@.len() ==> (#[trigger] values@[k]).as_int() == round_flags_cell(
                    k / (NUM_ROUNDS as int),
                    k % (NUM_ROUNDS as int),
                ) && values@[k].wf(),
        decreases num_rows - r,
    {
        let mut c: usize = 0;
        while c < NUM_ROUNDS
            invariant
                r < num_rows,
                c <= NUM_ROUNDS,
                values@.len() == r * NUM_ROUNDS + c,
                forall|k: int|
                    0 <= k < values@.len() ==> (#[trigger] values@[k]).as_int()
                        == round_flags_cell(
                        k / (NUM_ROUNDS as int),
                        k % (NUM_ROUNDS as int),
                    ) && values@[k].wf(),
            decreases NUM_ROUNDS - c,
        {
            proof {
                lemma_fundamental_div_mod_converse(
                    r * NUM_ROUNDS + c as int,
                    NUM_ROUNDS as int,
                    r as int,
                    c as int,
                );
            }
            values.push(FieldElem::from_bool(c == r % NUM_ROUNDS));
            c = c + 1;
        }
        proof {
            assert(r * NUM_ROUNDS + NUM_ROUNDS == (r + 1) * NUM_ROUNDS) by (nonlinear_arith);
        }
        r = r + 1;
    }
    proof {
        assert(values@.len() as int % (NUM_ROUNDS as int) == 0) by {
            assert(values@.len() == num_rows * NUM_ROUNDS);
            vstd::arithmetic::div_mod::lemma_mod_multiples_basic(
                num_rows as int,
                NUM_ROUNDS as int,
            );
            assert((num_rows as int) * (NUM_ROUNDS as int) == (NUM_ROUNDS as int) * (
            num_rows as int)) by (nonlinear_arith);
        }
    }
    let t = Trace::new(values, NUM_ROUNDS);
    proof {
        t.lemma_size();
        assert(t.spec_height() == num_rows as int) by (nonlinear_arith)
            requires
                t.spec_height() * (NUM_ROUNDS as int) == (num_rows as int) * (NUM_ROUNDS as int),
                NUM_ROUNDS as int >= 1,
        ;
        assert forall|rr: int, cc: int|
            0 <= rr < t.spec_height() && 0 <= cc < NUM_ROUNDS implies #[trigger] t.cell(rr, cc)
            == round_flags_cell(rr, cc) by {
            t.lemma_index_in_bounds(rr, cc);
            lemma_fundamental_div_mod_converse(
                rr * (NUM_ROUNDS as int) + cc,
                NUM_ROUNDS as int,
                rr,
                cc,
            );
        }
    }
    t
}

/// The canonical round-flags trace satisfies every constraint of the circuit
/// at every row of any trace shape carrying the rotating-flag pattern: the
/// trace generator and the constraints agree.
pub proof fn lemma_round_flags_trace_satisfies(t: Trace)
    requires
        t.wf(),
        t.width == NUM_ROUNDS,
        1 <= t.spec_height(),
        forall|r: int, c: int|
            0 <= r < t.spec_height() && 0 <= c < NUM_ROUNDS ==> #[trigger] t.cell(r, c)
                == round_flags_cell(r, c),
    ensures
        satisfies_all_constraints(
            round_flags_constraints(),
            t.cells(),
            NUM_ROUNDS as int,
            t.spec_height(),
        ),
{
    let h = t.spec_height();
    let w = NUM_ROUNDS as int;
    let cs = round_flags_constraints();
    assert forall|i: int, j: int|
        0 <= i < h && 0 <= j < cs.len() implies (#[trigger] cs[j].eval_at(
        t.cells(),
        w,
        i,
        h,
    )) == 0 by {
        reveal_with_fuel(SymbolicExpression::eval_at, 4);
        lemma_round_flags_constraint_zero(t, i, j);
    }
}

/// One constraint of the round-flags circuit is zero at one row of a trace
/// carrying the rotating-flag pattern.
#[verifier::rlimit(50)]
proof fn lemma_round_flags_constraint_zero(t: Trace, i: int, j: int)
    requires
        t.wf(),
        t.width == NUM_ROUNDS,
        1 <= t.spec_height(),
        forall|r: int, c: int|
            0 <= r < t.spec_height() && 0 <= c < NUM_ROUNDS ==> #[trigger] t.cell(r, c)
                == round_flags_cell(r, c),
        0 <= i < t.spec_height(),
        0 <= j < 2 * NUM_ROUNDS,
    ensures
        round_flags_constraint(j).eval_at(
            t.cells(),
            NUM_ROUNDS as int,
            i,
            t.spec_height(),
        ) == 0,
{
    let h = t.spec_height();
    let w = NUM_ROUNDS as int;
    let p = crate::field_elem::FIELD_ORDER as int;
    let vals = t.cells();
    reveal_with_fuel(SymbolicExpression::eval_at, 4);
    lemma_mod_bound(i, w);
    if j == 0 {
        let xvar = SymbolicExpression::Variable { column: 0, is_next: false };
        let one = SymbolicExpression::Constant(FieldElem { value: 1 });
        let sub = SymbolicExpression::Sub(Box::new(xvar), Box::new(one));
        let e = SymbolicExpression::Mul(Box::new(SymbolicExpression::IsFirstRow), Box::new(sub));
        assert(round_flags_constraint(j) == e);
        assert(xvar.eval_at(vals, w, i, h) == vals[i * w + 0]);
        assert(t.cell(i, 0) == vals[i * w + 0]);
        assert(sub.eval_at(vals, w, i, h) == (t.cell(i, 0) - 1) % p);
        assert(e.eval_at(vals, w, i, h) == (crate::symbolic::spec_is_first_row(i)
            * sub.eval_at(vals, w, i, h)) % p);
        assert(t.cell(i, 0) == round_flags_cell(i, 0));
        if i == 0 {
            assert(round_flags_cell(0, 0) == 1);
            assert(sub.eval_at(vals, w, i, h) == 0);
            assert(crate::symbolic::spec_is_first_row(0) == 1);
            assert((1 * sub.eval_at(vals, w, i, h)) % p == 0);
        } else {
            assert(crate::symbolic::spec_is_first_row(i) == 0);
            assert((0 * sub.eval_at(vals, w, i, h)) % p == 0);
        }
        assert(e.eval_at(vals, w, i, h) == 0);
    } else if j < NUM_ROUNDS {
        let xvar = SymbolicExpression::Variable { column: j as usize, is_next: false };
        let e = SymbolicExpression::Mul(
            Box::new(SymbolicExpression::IsFirstRow),
            Box::new(xvar),
        );
        assert(round_flags_constraint(j) == e);
        assert(xvar.eval_at(vals, w, i, h) == vals[i * w + j]);
        assert(t.cell(i, j) == vals[i * w + j]);
        assert(e.eval_at(vals, w, i, h) == (crate::symbolic::spec_is_first_row(i) * t.cell(
            i,
            j,
        )) % p);
        assert(t.cell(i, j) == round_flags_cell(i, j));
        if i == 0 {
            assert(round_flags_cell(0, j) == 0);
            assert(crate::symbolic::spec_is_first_row(0) == 1);
            assert((1 * t.cell(i, j)) % p == 0);
        } else {
            assert(crate::symbolic::spec_is_first_row(i) == 0);
            assert((0 * t.cell(i, j)) % p == 0);
        }
        assert(e.eval_at(vals, w, i, h) == 0);
    } else {
        let f = j - NUM_ROUNDS;
        let fnext = (f + 1) % w;
        lemma_mod_bound(f + 1, w);
        let nv = SymbolicExpression::Variable { column: fnext as usize, is_next: true };
        let cv = SymbolicExpression::Variable { column: f as usize, is_next: false };
        let sub = SymbolicExpression::Sub(Box::new(nv), Box::new(cv));
        let e = SymbolicExpression::Mul(
            Box::new(SymbolicExpression::IsTransition),
            Box::new(sub),
        );
        assert(round_flags_constraint(j) == e);
        assert(e.eval_at(vals, w, i, h) == (crate::symbolic::spec_is_transition(i, h)
            * sub.eval_at(vals, w, i, h)) % p);
        if i == h - 1 {
            // the transition predicate is zero on the last row
            assert(crate::symbolic::spec_is_transition(i, h) == 0);
            assert((0 * sub.eval_at(vals, w, i, h)) % p == 0);
            assert(e.eval_at(vals, w, i, h) == 0);
        } else {
            let inext = (i + 1) % h;
            lemma_mod_bound(i + 1, h);
            assert(inext == i + 1) by {
                if i + 1 < h {
                    vstd::arithmetic::div_mod::lemma_small_mod((i + 1) as nat, h as nat);
                }
            }
            assert(nv.eval_at(vals, w, i, h) == vals[inext * w + fnext]);
            assert(t.cell(inext, fnext) == vals[inext * w + fnext]);
            assert(cv.eval_at(vals, w, i, h) == vals[i * w + f]);
            assert(t.cell(i, f) == vals[i * w + f]);
            assert(sub.eval_at(vals, w, i, h) == (t.cell(inext, fnext) - t.cell(i, f)) % p);
            assert(t.cell(inext, fnext) == round_flags_cell(i + 1, fnext));
            assert(t.cell(i, f) == round_flags_cell(i, f));
            // the rotated flag of the next row matches the current flag:
            // (f + 1) mod w == (i + 1) mod w exactly when f == i mod w
            lemma_add_mod_noop(i, 1, w);
            lemma_add_mod_noop(f, 1, w);
            vstd::arithmetic::div_mod::lemma_small_mod(1nat, w as nat);
            assert(round_flags_cell(i + 1, fnext) == round_flags_cell(i, f)) by {
                let im = i % w;
                let fm = f % w;
                lemma_mod_bound(f, w);
                vstd::arithmetic::div_mod::lemma_small_mod(f as nat, w as nat);
                assert(fm == f);
                assert((i + 1) % w == (im + 1) % w);
                assert((f + 1) % w == (fm + 1) % w);
                if f == im {
                    assert(round_flags_cell(i + 1, fnext) == 1);
                } else {
                    assert((fm + 1) % w != (im + 1) % w) by {
                        if fm + 1 < w && im + 1 < w {
                            vstd::arithmetic::div_mod::lemma_small_mod(
                                (fm + 1) as nat,
                                w as nat,
                            );
                            vstd::arithmetic::div_mod::lemma_small_mod(
                                (im + 1) as nat,
                                w as nat,
                            );
                        } else if fm + 1 == w {
                            vstd::arithmetic::div_mod::lemma_mod_self_0(w);
                            vstd::arithmetic::div_mod::lemma_small_mod(
                                (im + 1) as nat,
                                w as nat,
                            );
                        } else {
                            vstd::arithmetic::div_mod::lemma_mod_self_0(w);
                            vstd::arithmetic::div_mod::lemma_small_mod(
                                (fm + 1) as nat,
                                w as nat,
                            );
                        }
                    }
                    assert(round_flags_cell(i + 1, fnext) == 0);
                    assert(round_flags_cell(i, f) == 0);
                }
            }
            assert(sub.eval_at(vals, w, i, h) == 0);
            assert(e.eval_at(vals, w, i, h) == (crate::symbolic::spec_is_transition(i, h) * 0)
                % p);
            assert(e.eval_at(vals, w, i, h) == 0);
        }
    }
}


/// Two canonical field values whose difference vanishes modulo the field
/// order are equal.
proof fn lemma_mod_diff_zero(a: int, b: int, p: int)
    requires
        0 < p,
        0 <= a < p,
        0 <= b < p,
        (a - b) % p == 0,
    ensures
        a == b,
{
    if a > b {
        lemma_small_mod((a - b) as nat, p as nat);
    } else if a < b {
        lemma_mod_add_multiples_vanish(a - b, p);
        lemma_small_mod((p + a - b) as nat, p as nat);
    }
}

/// The cyclic successor map on `[0, w)` is injective.
proof fn lemma_rotate_injective(x: int, y: int, w: int)
    requires
        1 <= w,
        0 <= x < w,
        0 <= y < w,
    ensures
        ((x + 1) % w == (y + 1) % w) <==> (x == y),
{
    if x + 1 < w {
        lemma_small_mod((x + 1) as nat, w as nat);
    } else {
        lemma_mod_self_0(w);
    }
    if y + 1 < w {
        lemma_small_mod((y + 1) as nat, w as nat);
    } else {
        lemma_mod_self_0(w);
    }
}

/// The first-row constraints force row 0 of any satisfying in-range
/// assignment to carry flag 0 set to 1 and every other flag 0.
proof fn lemma_first_row_pinned(env: Seq<int>, height: int)
    requires
        1 <= height,
        env.len() == height * (NUM_ROUNDS as int),
        env_in_range(env),
        satisfies_all_constraints(round_flags_constraints(), env, NUM_ROUNDS as int, height),
    ensures
        forall|c: int| 0 <= c < NUM_ROUNDS ==> env[c] == round_flags_cell(0, c),
{
    let w = NUM_ROUNDS as int;
    let p = FIELD_ORDER as int;
    assert(w <= env.len() as int) by (nonlinear_arith)
        requires
            env.len() == height * w,
            1 <= height,
            0 < w,
    ;
    assert forall|c: int| 0 <= c < w implies env[c] == round_flags_cell(0, c) by {
        reveal_with_fuel(SymbolicExpression::eval_at, 4);
        assert(round_flags_constraints()[c].eval_at(env, w, 0, height) == 0);
        assert(0 <= env[c] < p);
        if c == 0 {
            let e = round_flags_constraint(0);
            let sub_v = (env[0] - 1) % p;
            assert(e.eval_at(env, w, 0, height) == (1 * sub_v) % p);
            lemma_mod_bound(env[0] - 1, p);
            lemma_small_mod(sub_v as nat, p as nat);
            assert(sub_v == 0);
            lemma_mod_diff_zero(env[0], 1, p);
            assert(round_flags_cell(0, 0) == 1);
        } else {
            let e = round_flags_constraint(c);
            assert(e.eval_at(env, w, 0, height) == (1 * env[c]) % p);
            lemma_small_mod(env[c] as nat, p as nat);
            assert(env[c] == 0);
            lemma_mod_bound(0int, w);
            assert(round_flags_cell(0, c) == 0);
        }
    }
}

/// A transition constraint forces the rotated flag of the next row to equal
/// the current row's flag, for any satisfying in-range assignment.
proof fn lemma_transition_forces_equal(env: Seq<int>, height: int, rr: int, i: int)
    requires
        1 <= height,
        env.len() == height * (NUM_ROUNDS as int),
        env_in_range(env),
        satisfies_all_constraints(round_flags_constraints(), env, NUM_ROUNDS as int, height),
        0 <= rr < height - 1,
        0 <= i < NUM_ROUNDS,
    ensures
        env[(rr + 1) * (NUM_ROUNDS as int) + (i + 1) % (NUM_ROUNDS as int)] == env[rr
            * (NUM_ROUNDS as int) + i],
{
    let w = NUM_ROUNDS as int;
    let p = FIELD_ORDER as int;
    let j = w + i;
    let fnext = (i + 1) % w;
    lemma_mod_bound(i + 1, w);
    let ka = (rr + 1) * w + fnext;
    let kb = rr * w + i;
    assert(0 <= kb < ka && ka < env.len()) by (nonlinear_arith)
        requires
            env.len() == height * w,
            0 <= rr < height - 1,
            0 <= i < w,
            0 <= fnext < w,
            ka == (rr + 1) * w + fnext,
            kb == rr * w + i,
    ;
    reveal_with_fuel(SymbolicExpression::eval_at, 4);
    assert(round_flags_constraints()[j].eval_at(env, w, rr, height) == 0);
    let e = round_flags_constraint(j);
    lemma_small_mod((rr + 1) as nat, height as nat);
    let sub_v = (env[ka] - env[kb]) % p;
    assert(e.eval_at(env, w, rr, height) == (1 * sub_v) % p);
    lemma_mod_bound(env[ka] - env[kb], p);
    lemma_small_mod(sub_v as nat, p as nat);
    assert(sub_v == 0);
    lemma_mod_diff_zero(env[ka], env[kb], p);
}

/// Row by row, the constraints pin every cell of a satisfying in-range
/// assignment to the rotating-flag pattern.
proof fn lemma_row_pinned(env: Seq<int>, height: int, r: int)
    requires
        1 <= height,
        env.len() == height * (NUM_ROUNDS as int),
        env_in_range(env),
        satisfies_all_constraints(round_flags_constraints(), env, NUM_ROUNDS as int, height),
        0 <= r < height,
    ensures
        forall|c: int|
            0 <= c < NUM_ROUNDS ==> env[r * (NUM_ROUNDS as int) + c] == round_flags_cell(r, c),
    decreases r,
{
    let w = NUM_ROUNDS as int;
    if r == 0 {
        lemma_first_row_pinned(env, height);
        assert forall|c: int| 0 <= c < w implies env[r * w + c] == round_flags_cell(r, c) by {
            assert(r * w + c == c);
        }
    } else {
        lemma_row_pinned(env, height, r - 1);
        assert forall|c: int| 0 <= c < w implies env[r * w + c] == round_flags_cell(r, c) by {
            let i = if c == 0 { w - 1 } else { c - 1 };
            assert((i + 1) % w == c) by {
                if i + 1 < w {
                    lemma_small_mod((i + 1) as nat, w as nat);
                } else {
                    lemma_mod_self_0(w);
                }
            }
            lemma_transition_forces_equal(env, height, r - 1, i);
            assert(env[r * w + c] == env[(r - 1) * w + i]);
            assert(env[(r - 1) * w + i] == round_flags_cell(r - 1, i));
            // the rotated pattern: flag i of row r - 1 is flag c of row r
            let m = (r - 1) % w;
            lemma_mod_bound(r - 1, w);
            lemma_mod_bound(r, w);
            lemma_add_mod_noop(r - 1, 1, w);
            lemma_small_mod(1nat, w as nat);
            assert(r % w == (m + 1) % w);
            lemma_rotate_injective(i, m, w);
            assert((i == m) <==> ((i + 1) % w == (m + 1) % w));
            assert(round_flags_cell(r - 1, i) == round_flags_cell(r, c));
        }
    }
}

/// Uniqueness: the round-flags constraints admit exactly one in-range
/// assignment per trace shape — the rotating-flag pattern. The circuit is
/// fully constrained, so no distinct second trace can satisfy it.
pub proof fn lemma_round_flags_constraints_pin_cells(env: Seq<int>, height: int)
    requires
        1 <= height,
        env.len() == height * (NUM_ROUNDS as int),
        env_in_range(env),
        satisfies_all_constraints(round_flags_constraints(), env, NUM_ROUNDS as int, height),
    ensures
        forall|r: int, c: int|
            0 <= r < height && 0 <= c < NUM_ROUNDS ==> env[r * (NUM_ROUNDS as int) + c]
                == round_flags_cell(r, c),
{
    assert forall|r: int, c: int|
        0 <= r < height && 0 <= c < NUM_ROUNDS implies env[r * (NUM_ROUNDS as int) + c]
        == round_flags_cell(r, c) by {
        lemma_row_pinned(env, height, r);
    }
}

/// The under-constraint query for the round-flags circuit on its canonical
/// trace is unsatisfiable: every satisfying assignment would have to equal
/// the trace and to differ from it. The solver's `Unsat` verdict — and so
/// the `Sound` outcome — is the only truthful answer.
pub proof fn lemma_round_flags_query_unsat(q: Query, t: Trace, env: Seq<int>)
    requires
        t.wf(),
        t.width == NUM_ROUNDS,
        1 <= t.spec_height(),
        forall|r: int, c: int|
            0 <= r < t.spec_height() && 0 <= c < NUM_ROUNDS ==> #[trigger] t.cell(r, c)
                == round_flags_cell(r, c),
        is_query_for(q, round_flags_constraints(), t),
        env.len() == q.num_vars,
    ensures
        !q.satisfies(env),
{
    let w = NUM_ROUNDS as int;
    let height = t.spec_height();
    if q.satisfies(env) {
        let a = RoundFlagsAir {};
        a.lemma_constraints_wf();
        assert(a.spec_constraints() == round_flags_constraints());
        assert(a.spec_width() == w);
        assert forall|j: int|
            0 <= j < round_flags_constraints().len() implies (
        #[trigger] round_flags_constraints()[j]).wf(t.width as int) by {
            assert(a.spec_constraints()[j].wf(a.spec_width()));
        }
        t.lemma_size();
        assert(height * (t.width as int) == q.num_vars as int);
        lemma_query_semantics(q, round_flags_constraints(), t, env);
        lemma_round_flags_constraints_pin_cells(env, height);
        let k = choose|k: int| 0 <= k < env.len() && env[k] != t.cells()[k];
        lemma_fundamental_div_mod(k, w);
        lemma_mod_bound(k, w);
        let r = k / w;
        let c = k % w;
        assert(0 <= r < height) by (nonlinear_arith)
            requires
                0 <= k < height * w,
                1 <= w,
                k == w * r + c,
                0 <= c < w,
        ;
        assert(r * w + c == k) by (nonlinear_arith)
            requires
                k == w * r + c,
        ;
        assert(env[k] == round_flags_cell(r, c));
        assert(t.cells()[k] == t.cell(r, c));
        assert(false);
    }
}

} // verus!
