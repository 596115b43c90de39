//! The execution trace: a dense row-major matrix of field elements.

use vstd::prelude::*;
use vstd::arithmetic::div_mod::lemma_fundamental_div_mod;
use crate::field_elem::FieldElem;

verus! {

/// A row-major matrix of field elements, `height` rows of `width` cells each.
#[derive(Debug, PartialEq, Eq)]
pub struct Trace {
    pub width: usize,
    pub values: Vec<FieldElem>,
}

impl Trace {
    /// Well-formed: at least one column, whole rows only, every cell reduced.
    pub open spec fn wf(self) -> bool {
        &&& 1 <= self.width
        &&& self.values@.len() as int % (self.width as int) == 0
        &&& forall|k: int| 0 <= k < self.values@.len() ==> (#[trigger] self.values@[k]).wf()
    }

    /// Number of rows.
    pub open spec fn spec_height(self) -> int {
        self.values@.len() as int / self.width as int
    }

    /// The cells in row-major order, as unbounded integers.
    pub open spec fn cells(self) -> Seq<int> {
        self.values@.map_values(|f: FieldElem| f.as_int())
    }

    /// The cell in row `r`, column `c`, as an unbounded integer.
    pub open spec fn cell(self, r: int, c: int) -> int {
        self.cells()[r * self.width + c]
    }

    /// The total cell count equals `height * width`.
    pub proof fn lemma_size(self)
        requires
            self.wf(),
        ensures
            self.values@.len() == self.spec_height() * self.width,
    {
        lemma_fundamental_div_mod(self.values@.len() as int, self.width as int);
        assert(self.values@.len() as int == self.width as int * self.spec_height());
        assert(self.width as int * self.spec_height() == self.spec_height() * self.width as int)
            by (nonlinear_arith);
    }

    /// A cell's row-major index lies inside the value vector.
    pub proof fn lemma_index_in_bounds(self, r: int, c: int)
        requires
            self.wf(),
            0 <= r < self.spec_height(),
            0 <= c < self.width,
        ensures
            0 <= r * self.width + c < self.values@.len(),
    {
        self.lemma_size();
        assert(r * self.width + c < self.spec_height() * self.width) by (nonlinear_arith)
            requires
                0 <= r,
                r < self.spec_height(),
                0 <= c,
                c < self.width,
        ;
        assert(0 <= r * self.width) by (nonlinear_arith)
            requires
                0 <= r,
                0 <= self.width,
        ;
    }

    pub fn new(values: Vec<FieldElem>, width: usize) -> (r: Self)
        requires
            1 <= width,
            values@.len() as int % (width as int) == 0,
            forall|k: int| 0 <= k < values@.len() ==> (#[trigger] values@[k]).wf(),
        ensures
            r.width == width,
            r.values@ == values@,
            r.wf(),
    {
        Trace { width, values }
    }

    pub fn width(&self) -> (w: usize)
        ensures
            w == self.width,
    {
        self.width
    }

    pub fn height(&self) -> (h: usize)
        requires
            self.wf(),
        ensures
            h == self.spec_height(),
    {
        self.values.len() / self.width
    }

    pub fn get(&self, r: usize, c: usize) -> (f: FieldElem)
        requires
            self.wf(),
            r < self.spec_height(),
            c < self.width,
        ensures
            f == self.values@[r * self.width + c],
            f.as_int() == self.cell(r as int, c as int),
            f.wf(),
    {
        proof {
            self.lemma_index_in_bounds(r as int, c as int);
        }
        let _n = self.values.len();
        let idx = r * self.width + c;
        self.values[idx]
    }
}

} // verus!
