//! Batches: ordered sequences of columnar arrays sharing one length.

use vstd::prelude::*;

use crate::columnar_value::{ArrayData, SpecArray};
use crate::error::{Error, SpecError};
use crate::schema::SpecField;

verus! {

/// An ordered sequence of columnar arrays, one per output field.
///
/// No schema is carried at runtime; the producing operator's `schema()`
/// describes the arrays positionally.
#[derive(Debug, PartialEq)]
pub struct RecordBatch {
    pub columns: Vec<ArrayData>,
}

/// The views of a sequence of arrays.
pub open spec fn cols_view(cs: Seq<ArrayData>) -> Seq<SpecArray> {
    cs.map_values(|a: ArrayData| a@)
}

impl View for RecordBatch {
    type V = Seq<SpecArray>;

    open spec fn view(&self) -> Seq<SpecArray> {
        cols_view(self.columns@)
    }
}

/// The views of a sequence of batches.
pub open spec fn batches_view(bs: Seq<RecordBatch>) -> Seq<Seq<SpecArray>> {
    bs.map_values(|b: RecordBatch| b@)
}

/// Number of rows of a batch: the length of its first column, zero if it has
/// no columns.
pub open spec fn spec_num_rows(b: Seq<SpecArray>) -> nat {
    if b.len() == 0 {
        0
    } else {
        b[0].len()
    }
}

/// All arrays of the batch share the same length.
pub open spec fn batch_wf(b: Seq<SpecArray>) -> bool {
    forall|i: int| 0 <= i < b.len() ==> (#[trigger] b[i]).len() == spec_num_rows(b)
}

/// The batch is well formed and its arrays correspond positionally, by
/// storage class, to the fields of `s`.
pub open spec fn batch_matches(b: Seq<SpecArray>, s: Seq<SpecField>) -> bool {
    &&& batch_wf(b)
    &&& b.len() == s.len()
    &&& forall|i: int| 0 <= i < b.len() ==> (#[trigger] b[i]).data_type() == s[i].data_type
}

impl Clone for RecordBatch {
    fn clone(&self) -> (r: Self)
        ensures
            r@ == self@,
    {
        let mut columns: Vec<ArrayData> = Vec::new();
        let n = self.columns.len();
        let mut i: usize = 0;
        while i < n
            invariant
                i <= n,
                n == self.columns@.len(),
                columns@.len() == i,
                forall|j: int| 0 <= j < i ==> #[trigger] columns@[j]@ == self.columns@[j]@,
            decreases n - i,
        {
            columns.push(self.columns[i].clone());
            i = i + 1;
        }
        let r = RecordBatch { columns };
        proof {
            assert(r@ =~= self@);
        }
        r
    }
}

impl RecordBatch {
    /// Wraps the given arrays, in order, as a batch.
    pub fn new(columns: Vec<ArrayData>) -> (r: RecordBatch)
        ensures
            r@ == cols_view(columns@),
    {
        RecordBatch { columns }
    }

    /// Number of rows, taken from the first column; zero without columns.
    pub fn row_count(&self) -> (r: usize)
        ensures
            r == spec_num_rows(self@),
    {
        if self.columns.len() == 0 {
            0
        } else {
            self.columns[0].len()
        }
    }

    /// Number of columns.
    pub fn column_count(&self) -> (r: usize)
        ensures
            r == self@.len(),
    {
        self.columns.len()
    }

    /// The array at position `i`, or `ExceedingBounds` when out of range.
    pub fn field(&self, i: usize) -> (r: Result<&ArrayData, Error>)
        ensures
            match r {
                Ok(a) => i < self@.len() && a@ == self@[i as int],
                Err(e) => i >= self@.len() && e@ == SpecError::ExceedingBounds(i as nat),
            },
    {
        if i < self.columns.len() {
            Ok(&self.columns[i])
        } else {
            Err(Error::ExceedingBounds(i))
        }
    }
}

} // verus!
