use air_soundness::field_elem::{FieldElem, FIELD_ORDER};
use p3_baby_bear::BabyBear;
use p3_field::{PrimeCharacteristicRing, PrimeField64};

#[test]
fn field_order_matches_baby_bear() {
    assert_eq!(FIELD_ORDER, BabyBear::ORDER_U64);
    assert_eq!(FIELD_ORDER, 2013265921);
}

#[test]
fn add_basic() {
    let r = FieldElem::new(5).add(FieldElem::new(7));
    assert_eq!(r.value, 12);
}

#[test]
fn add_wraps_near_order() {
    let a = FieldElem::new(FIELD_ORDER - 1);
    let r = a.add(a);
    assert_eq!(r.value, FIELD_ORDER - 2);
    assert!(r.value < FIELD_ORDER);
}

#[test]
fn sub_wraps_below_zero() {
    let r = FieldElem::new(0).sub(FieldElem::new(1));
    assert_eq!(r.value, FIELD_ORDER - 1);
}

#[test]
fn sub_basic() {
    let r = FieldElem::new(9).sub(FieldElem::new(4));
    assert_eq!(r.value, 5);
}

#[test]
fn neg_zero_is_zero() {
    assert_eq!(FieldElem::new(0).neg().value, 0);
}

#[test]
fn neg_one_is_order_minus_one() {
    assert_eq!(FieldElem::new(1).neg().value, FIELD_ORDER - 1);
}

#[test]
fn mul_basic() {
    let r = FieldElem::new(3).mul(FieldElem::new(4));
    assert_eq!(r.value, 12);
}

#[test]
fn mul_of_minus_one_squared_is_one() {
    let m = FieldElem::new(FIELD_ORDER - 1);
    let r = m.mul(m);
    assert_eq!(r.value, 1);
}

#[test]
fn from_bool_values() {
    assert_eq!(FieldElem::from_bool(true).value, 1);
    assert_eq!(FieldElem::from_bool(false).value, 0);
}

#[test]
fn arithmetic_agrees_with_baby_bear() {
    let samples: [(u64, u64); 6] = [
        (0, 0),
        (0, 1),
        (1, FIELD_ORDER - 1),
        (FIELD_ORDER - 1, FIELD_ORDER - 1),
        (123456789, 987654321),
        (FIELD_ORDER / 2, FIELD_ORDER / 2 + 1),
    ];
    for (x, y) in samples {
        let a = FieldElem::new(x);
        let b = FieldElem::new(y);
        let pa = BabyBear::from_u64(x);
        let pb = BabyBear::from_u64(y);
        assert_eq!(a.add(b).value, (pa + pb).as_canonical_u64());
        assert_eq!(a.sub(b).value, (pa - pb).as_canonical_u64());
        assert_eq!(a.mul(b).value, (pa * pb).as_canonical_u64());
        assert_eq!(a.neg().value, (-pa).as_canonical_u64());
    }
}

#[test]
fn range_invariant_after_every_operation() {
    let near = [0u64, 1, 2, FIELD_ORDER - 2, FIELD_ORDER - 1];
    for &x in &near {
        for &y in &near {
            let a = FieldElem::new(x);
            let b = FieldElem::new(y);
            assert!(a.add(b).value < FIELD_ORDER);
            assert!(a.sub(b).value < FIELD_ORDER);
            assert!(a.mul(b).value < FIELD_ORDER);
            assert!(a.neg().value < FIELD_ORDER);
        }
    }
}
