use z3::ast::Int;
use z3::{SatResult, Solver};

#[test]
fn z3_answers_a_trivial_query() {
    let solver = Solver::new();
    let x = Int::new_const("x");
    solver.assert(x.ge(Int::from_u64(0)));
    solver.assert(x.lt(Int::from_u64(1)));
    assert_eq!(solver.check(), SatResult::Sat);
    let model = solver.get_model().unwrap();
    let v = model.eval(&x, true).unwrap().as_u64().unwrap();
    assert_eq!(v, 0);
}
