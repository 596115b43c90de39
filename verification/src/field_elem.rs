//! Concrete elements of the prime field the checkers work over.
//!
//! The field order is fixed: the 31-bit prime `2^31 - 2^27 + 1`. A value is
//! a single machine integer kept strictly below the order; every operation
//! reduces its result, so the range invariant holds after each step.

use vstd::prelude::*;
use vstd::arithmetic::div_mod::lemma_mod_add_multiples_vanish;

verus! {

/// The prime order of the field: `2^31 - 2^27 + 1`.
pub const FIELD_ORDER: u64 = 2013265921;

/// One concrete field element, held as its canonical integer in `[0, FIELD_ORDER)`.
#[derive(Clone, Copy, PartialEq, Eq, Structural, Debug)]
pub struct FieldElem {
    pub value: u64,
}

impl FieldElem {
    /// The range invariant: the canonical integer lies below the field order.
    pub open spec fn wf(self) -> bool {
        self.value < FIELD_ORDER
    }

    /// The element as an unbounded integer.
    pub open spec fn as_int(self) -> int {
        self.value as int
    }

    pub fn new(value: u64) -> (r: Self)
        requires
            value < FIELD_ORDER,
        ensures
            r.value == value,
            r.wf(),
    {
        FieldElem { value }
    }

    pub fn zero() -> (r: Self)
        ensures
            r.value == 0,
            r.wf(),
    {
        FieldElem { value: 0 }
    }

    pub fn one() -> (r: Self)
        ensures
            r.value == 1,
            r.wf(),
    {
        FieldElem { value: 1 }
    }

    pub fn from_bool(b: bool) -> (r: Self)
        ensures
            r.value == if b { 1u64 } else { 0u64 },
            r.wf(),
    {
        FieldElem { value: if b { 1 } else { 0 } }
    }

    pub fn add(self, other: Self) -> (r: Self)
        requires
            self.wf(),
            other.wf(),
        ensures
            r.as_int() == (self.as_int() + other.as_int()) % (FIELD_ORDER as int),
            r.wf(),
    {
        FieldElem { value: (self.value + other.value) % FIELD_ORDER }
    }

    pub fn sub(self, other: Self) -> (r: Self)
        requires
            self.wf(),
            other.wf(),
        ensures
            r.as_int() == (self.as_int() - other.as_int()) % (FIELD_ORDER as int),
            r.wf(),
    {
        proof {
            lemma_mod_add_multiples_vanish(
                self.as_int() - other.as_int(),
                FIELD_ORDER as int,
            );
        }
        FieldElem { value: (self.value + FIELD_ORDER - other.value) % FIELD_ORDER }
    }

    pub fn mul(self, other: Self) -> (r: Self)
        requires
            self.wf(),
            other.wf(),
        ensures
            r.as_int() == (self.as_int() * other.as_int()) % (FIELD_ORDER as int),
            r.wf(),
    {
        assert(self.value * other.value < FIELD_ORDER * FIELD_ORDER) by (nonlinear_arith)
            requires
                self.value < FIELD_ORDER,
                other.value < FIELD_ORDER,
        ;
        FieldElem { value: (self.value * other.value) % FIELD_ORDER }
    }

    pub fn neg(self) -> (r: Self)
        requires
            self.wf(),
        ensures
            r.as_int() == (0 - self.as_int()) % (FIELD_ORDER as int),
            r.wf(),
    {
        proof {
            lemma_mod_add_multiples_vanish(0 - self.as_int(), FIELD_ORDER as int);
        }
        FieldElem { value: (FIELD_ORDER - self.value) % FIELD_ORDER }
    }
}

} // verus!
