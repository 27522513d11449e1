//! Columnar values: typed scalars, typed arrays with per-element validity,
//! and the scalar-or-array union the evaluator produces.
//!
//! An array element of `None` is a null. `Float64` entries hold IEEE-754 bit
//! patterns and `Timestamp` entries epoch nanoseconds; both travel through
//! the engine untouched, no kernel computes on them.

use vstd::prelude::*;

use crate::error::{Error, SpecError};
use crate::schema::DataType;

verus! {

/// A single typed value, conceptually broadcastable to any length.
#[derive(Debug, PartialEq)]
pub enum ScalarValue {
    Bool(Option<bool>),
    Int32(Option<i32>),
    Float64(Option<u64>),
    Utf8(Option<String>),
    Timestamp(Option<i64>),
}

/// Mathematical image of a [`ScalarValue`].
#[verifier::ext_equal]
pub enum SpecScalar {
    Bool(Option<bool>),
    Int32(Option<i32>),
    Float64(Option<u64>),
    Utf8(Option<Seq<char>>),
    Timestamp(Option<i64>),
}

impl View for ScalarValue {
    type V = SpecScalar;

    open spec fn view(&self) -> SpecScalar {
        match self {
            ScalarValue::Bool(v) => SpecScalar::Bool(*v),
            ScalarValue::Int32(v) => SpecScalar::Int32(*v),
            ScalarValue::Float64(v) => SpecScalar::Float64(*v),
            ScalarValue::Utf8(v) => SpecScalar::Utf8(
                match v {
                    Some(s) => Some(s@),
                    None => None,
                },
            ),
            ScalarValue::Timestamp(v) => SpecScalar::Timestamp(*v),
        }
    }
}

impl Clone for ScalarValue {
    fn clone(&self) -> (r: Self)
        ensures
            r == *self,
    {
        match self {
            ScalarValue::Bool(v) => ScalarValue::Bool(*v),
            ScalarValue::Int32(v) => ScalarValue::Int32(*v),
            ScalarValue::Float64(v) => ScalarValue::Float64(*v),
            ScalarValue::Utf8(v) => ScalarValue::Utf8(
                match v {
                    Some(s) => Some(s.clone()),
                    None => None,
                },
            ),
            ScalarValue::Timestamp(v) => ScalarValue::Timestamp(*v),
        }
    }
}

impl SpecScalar {
    /// The storage class of this scalar.
    pub open spec fn data_type(self) -> DataType {
        match self {
            SpecScalar::Bool(_) => DataType::Bool,
            SpecScalar::Int32(_) => DataType::Int32,
            SpecScalar::Float64(_) => DataType::Float64,
            SpecScalar::Utf8(_) => DataType::Utf8,
            SpecScalar::Timestamp(_) => DataType::Timestamp,
        }
    }

    /// Whether the scalar holds a value rather than a null.
    pub open spec fn is_present(self) -> bool {
        match self {
            SpecScalar::Bool(v) => v is Some,
            SpecScalar::Int32(v) => v is Some,
            SpecScalar::Float64(v) => v is Some,
            SpecScalar::Utf8(v) => v is Some,
            SpecScalar::Timestamp(v) => v is Some,
        }
    }
}

impl ScalarValue {
    /// The storage class of this scalar.
    pub fn data_type(&self) -> (r: DataType)
        ensures
            r == self@.data_type(),
    {
        match self {
            ScalarValue::Bool(_) => DataType::Bool,
            ScalarValue::Int32(_) => DataType::Int32,
            ScalarValue::Float64(_) => DataType::Float64,
            ScalarValue::Utf8(_) => DataType::Utf8,
            ScalarValue::Timestamp(_) => DataType::Timestamp,
        }
    }
}

/// A typed, length-N column with per-element validity.
#[derive(Debug, PartialEq)]
pub enum ArrayData {
    Bool(Vec<Option<bool>>),
    Int32(Vec<Option<i32>>),
    Float64(Vec<Option<u64>>),
    Utf8(Vec<Option<String>>),
    Timestamp(Vec<Option<i64>>),
}

/// Mathematical image of an [`ArrayData`].
#[verifier::ext_equal]
pub enum SpecArray {
    Bool(Seq<Option<bool>>),
    Int32(Seq<Option<i32>>),
    Float64(Seq<Option<u64>>),
    Utf8(Seq<Option<Seq<char>>>),
    Timestamp(Seq<Option<i64>>),
}

impl View for ArrayData {
    type V = SpecArray;

    open spec fn view(&self) -> SpecArray {
        match self {
            ArrayData::Bool(v) => SpecArray::Bool(v@),
            ArrayData::Int32(v) => SpecArray::Int32(v@),
            ArrayData::Float64(v) => SpecArray::Float64(v@),
            ArrayData::Utf8(v) => SpecArray::Utf8(v.deep_view()),
            ArrayData::Timestamp(v) => SpecArray::Timestamp(v@),
        }
    }
}

impl SpecArray {
    /// Number of rows.
    pub open spec fn len(self) -> nat {
        match self {
            SpecArray::Bool(v) => v.len(),
            SpecArray::Int32(v) => v.len(),
            SpecArray::Float64(v) => v.len(),
            SpecArray::Utf8(v) => v.len(),
            SpecArray::Timestamp(v) => v.len(),
        }
    }

    /// The storage class of this array.
    pub open spec fn data_type(self) -> DataType {
        match self {
            SpecArray::Bool(_) => DataType::Bool,
            SpecArray::Int32(_) => DataType::Int32,
            SpecArray::Float64(_) => DataType::Float64,
            SpecArray::Utf8(_) => DataType::Utf8,
            SpecArray::Timestamp(_) => DataType::Timestamp,
        }
    }

    /// The element at row `i`, as a scalar.
    pub open spec fn index_value(self, i: int) -> SpecScalar {
        match self {
            SpecArray::Bool(v) => SpecScalar::Bool(v[i]),
            SpecArray::Int32(v) => SpecScalar::Int32(v[i]),
            SpecArray::Float64(v) => SpecScalar::Float64(v[i]),
            SpecArray::Utf8(v) => SpecScalar::Utf8(v[i]),
            SpecArray::Timestamp(v) => SpecScalar::Timestamp(v[i]),
        }
    }

    /// The array extended by one element taken from a scalar of its type.
    pub open spec fn push_value(self, s: SpecScalar) -> SpecArray {
        match (self, s) {
            (SpecArray::Bool(v), SpecScalar::Bool(x)) => SpecArray::Bool(v.push(x)),
            (SpecArray::Int32(v), SpecScalar::Int32(x)) => SpecArray::Int32(v.push(x)),
            (SpecArray::Float64(v), SpecScalar::Float64(x)) => SpecArray::Float64(v.push(x)),
            (SpecArray::Utf8(v), SpecScalar::Utf8(x)) => SpecArray::Utf8(v.push(x)),
            (SpecArray::Timestamp(v), SpecScalar::Timestamp(x)) => SpecArray::Timestamp(v.push(x)),
            _ => self,
        }
    }

    /// An empty array of storage class `dt`.
    pub open spec fn empty(dt: DataType) -> SpecArray {
        match dt {
            DataType::Bool => SpecArray::Bool(Seq::empty()),
            DataType::Int32 => SpecArray::Int32(Seq::empty()),
            DataType::Float64 => SpecArray::Float64(Seq::empty()),
            DataType::Utf8 => SpecArray::Utf8(Seq::empty()),
            DataType::Timestamp => SpecArray::Timestamp(Seq::empty()),
        }
    }
}

impl Clone for ArrayData {
    fn clone(&self) -> (r: Self)
        ensures
            r@ == self@,
    {
        match self {
            ArrayData::Bool(v) => ArrayData::Bool(copy_vec_bool(v)),
            ArrayData::Int32(v) => ArrayData::Int32(copy_vec_i32(v)),
            ArrayData::Float64(v) => ArrayData::Float64(copy_vec_u64(v)),
            ArrayData::Utf8(v) => ArrayData::Utf8(clone_vec_string(v)),
            ArrayData::Timestamp(v) => ArrayData::Timestamp(copy_vec_i64(v)),
        }
    }
}

fn copy_vec_bool(v: &Vec<Option<bool>>) -> (r: Vec<Option<bool>>)
    ensures
        r@ == v@,
{
    let mut out: Vec<Option<bool>> = Vec::new();
    let n = v.len();
    let mut i: usize = 0;
    while i < n
        invariant
            i <= n,
            n == v.len(),
            out@ == v@.take(i as int),
        decreases n - i,
    {
        out.push(v[i]);
        proof {
            assert(out@ =~= v@.take(i + 1));
        }
        i = i + 1;
    }
    proof {
        assert(v@.take(n as int) =~= v@);
    }
    out
}

fn copy_vec_i32(v: &Vec<Option<i32>>) -> (r: Vec<Option<i32>>)
    ensures
        r@ == v@,
{
    let mut out: Vec<Option<i32>> = Vec::new();
    let n = v.len();
    let mut i: usize = 0;
    while i < n
        invariant
            i <= n,
            n == v.len(),
            out@ == v@.take(i as int),
        decreases n - i,
    {
        out.push(v[i]);
        proof {
            assert(out@ =~= v@.take(i + 1));
        }
        i = i + 1;
    }
    proof {
        assert(v@.take(n as int) =~= v@);
    }
    out
}

fn copy_vec_u64(v: &Vec<Option<u64>>) -> (r: Vec<Option<u64>>)
    ensures
        r@ == v@,
{
    let mut out: Vec<Option<u64>> = Vec::new();
    let n = v.len();
    let mut i: usize = 0;
    while i < n
        invariant
            i <= n,
            n == v.len(),
            out@ == v@.take(i as int),
        decreases n - i,
    {
        out.push(v[i]);
        proof {
            assert(out@ =~= v@.take(i + 1));
        }
        i = i + 1;
    }
    proof {
        assert(v@.take(n as int) =~= v@);
    }
    out
}

fn copy_vec_i64(v: &Vec<Option<i64>>) -> (r: Vec<Option<i64>>)
    ensures
        r@ == v@,
{
    let mut out: Vec<Option<i64>> = Vec::new();
    let n = v.len();
    let mut i: usize = 0;
    while i < n
        invariant
            i <= n,
            n == v.len(),
            out@ == v@.take(i as int),
        decreases n - i,
    {
        out.push(v[i]);
        proof {
            assert(out@ =~= v@.take(i + 1));
        }
        i = i + 1;
    }
    proof {
        assert(v@.take(n as int) =~= v@);
    }
    out
}

fn clone_vec_string(v: &Vec<Option<String>>) -> (r: Vec<Option<String>>)
    ensures
        r.deep_view() == v.deep_view(),
{
    let mut out: Vec<Option<String>> = Vec::new();
    let n = v.len();
    let mut i: usize = 0;
    while i < n
        invariant
            i <= n,
            n == v@.len(),
            out.deep_view().len() == i,
            forall|j: int| 0 <= j < i ==> out.deep_view()[j] == v.deep_view()[j],
        decreases n - i,
    {
        let elem: Option<String> = match &v[i] {
            Some(s) => Some(s.clone()),
            None => None,
        };
        assert(elem.deep_view() == v@[i as int].deep_view());
        out.push(elem);
        i = i + 1;
    }
    proof {
        assert(out.deep_view() =~~= v.deep_view());
    }
    out
}

impl ArrayData {
    /// Number of rows.
    pub fn len(&self) -> (r: usize)
        ensures
            r == self@.len(),
    {
        match self {
            ArrayData::Bool(v) => v.len(),
            ArrayData::Int32(v) => v.len(),
            ArrayData::Float64(v) => v.len(),
            ArrayData::Utf8(v) => v.len(),
            ArrayData::Timestamp(v) => v.len(),
        }
    }

    /// The storage class of this array.
    pub fn data_type(&self) -> (r: DataType)
        ensures
            r == self@.data_type(),
    {
        match self {
            ArrayData::Bool(_) => DataType::Bool,
            ArrayData::Int32(_) => DataType::Int32,
            ArrayData::Float64(_) => DataType::Float64,
            ArrayData::Utf8(_) => DataType::Utf8,
            ArrayData::Timestamp(_) => DataType::Timestamp,
        }
    }

    /// The element at row `i`, cloned into a scalar.
    pub fn value_at(&self, i: usize) -> (r: ScalarValue)
        requires
            i < self@.len(),
        ensures
            r@ == self@.index_value(i as int),
    {
        match self {
            ArrayData::Bool(v) => ScalarValue::Bool(v[i]),
            ArrayData::Int32(v) => ScalarValue::Int32(v[i]),
            ArrayData::Float64(v) => ScalarValue::Float64(v[i]),
            ArrayData::Utf8(v) => ScalarValue::Utf8(
                match &v[i] {
                    Some(s) => Some(s.clone()),
                    None => None,
                },
            ),
            ArrayData::Timestamp(v) => ScalarValue::Timestamp(v[i]),
        }
    }

    /// An empty array of storage class `dt`.
    pub fn new_empty(dt: DataType) -> (r: ArrayData)
        ensures
            r@ == SpecArray::empty(dt),
    {
        let r = match dt {
            DataType::Bool => ArrayData::Bool(Vec::new()),
            DataType::Int32 => ArrayData::Int32(Vec::new()),
            DataType::Float64 => ArrayData::Float64(Vec::new()),
            DataType::Utf8 => ArrayData::Utf8(Vec::new()),
            DataType::Timestamp => ArrayData::Timestamp(Vec::new()),
        };
        proof {
            assert(r@ =~= SpecArray::empty(dt));
        }
        r
    }

    /// Appends one element taken from a scalar of this array's type; a scalar
    /// of another type is refused.
    pub fn push_value(&mut self, s: &ScalarValue) -> (r: Result<(), Error>)
        ensures
            match r {
                Ok(()) => old(self)@.data_type() == s@.data_type() && final(self)@ == old(
                    self,
                )@.push_value(s@),
                Err(e) => old(self)@.data_type() != s@.data_type() && final(self)@ == old(self)@
                    && e@ == SpecError::PhysicalTypeNotSupported(s@.data_type().spec_name()),
            },
    {
        match (&mut *self, s) {
            (ArrayData::Bool(v), ScalarValue::Bool(x)) => {
                v.push(*x);
                Ok(())
            },
            (ArrayData::Int32(v), ScalarValue::Int32(x)) => {
                v.push(*x);
                Ok(())
            },
            (ArrayData::Float64(v), ScalarValue::Float64(x)) => {
                v.push(*x);
                Ok(())
            },
            (ArrayData::Utf8(v), ScalarValue::Utf8(x)) => {
                match x {
                    Some(s) => v.push(Some(s.clone())),
                    None => v.push(None),
                }
                Ok(())
            },
            (ArrayData::Timestamp(v), ScalarValue::Timestamp(x)) => {
                v.push(*x);
                Ok(())
            },
            _ => Err(Error::PhysicalTypeNotSupported(s.data_type().name())),
        }
    }
}

/// A scalar or an array, the result of evaluating a physical expression.
#[derive(Debug, PartialEq)]
pub enum ColumnarValue {
    Array(ArrayData),
    Scalar(ScalarValue),
}

/// Mathematical image of a [`ColumnarValue`].
#[verifier::ext_equal]
pub enum SpecColumnar {
    Array(SpecArray),
    Scalar(SpecScalar),
}

impl View for ColumnarValue {
    type V = SpecColumnar;

    open spec fn view(&self) -> SpecColumnar {
        match self {
            ColumnarValue::Array(a) => SpecColumnar::Array(a@),
            ColumnarValue::Scalar(s) => SpecColumnar::Scalar(s@),
        }
    }
}

/// The result of inflating scalar `s` to an array of `len` copies: arrays for
/// present `Bool`, `Int32`, `Float64` and `Utf8` values, an error for nulls
/// and for timestamps.
pub open spec fn spec_scalar_to_array(s: SpecScalar, len: nat) -> Result<SpecArray, SpecError> {
    match s {
        SpecScalar::Bool(Some(x)) => Ok(SpecArray::Bool(Seq::new(len, |i: int| Some(x)))),
        SpecScalar::Int32(Some(x)) => Ok(SpecArray::Int32(Seq::new(len, |i: int| Some(x)))),
        SpecScalar::Float64(Some(x)) => Ok(SpecArray::Float64(Seq::new(len, |i: int| Some(x)))),
        SpecScalar::Utf8(Some(x)) => Ok(SpecArray::Utf8(Seq::new(len, |i: int| Some(x)))),
        _ => Err(SpecError::ScalarToArrayError(s.data_type().spec_name())),
    }
}

/// Inflates a scalar to an array of `len` copies of its value.
///
/// Null scalars and timestamp scalars cannot be inflated and are reported as
/// `ScalarToArrayError`.
pub fn scalar_to_array(scalar: &ScalarValue, len: usize) -> (r: Result<ArrayData, Error>)
    ensures
        match r {
            Ok(a) => spec_scalar_to_array(scalar@, len as nat) == Ok::<SpecArray, SpecError>(a@),
            Err(e) => spec_scalar_to_array(scalar@, len as nat) == Err::<SpecArray, SpecError>(e@),
        },
{
    match scalar {
        ScalarValue::Bool(Some(x)) => {
            let mut v: Vec<Option<bool>> = Vec::new();
            let mut i: usize = 0;
            while i < len
                invariant
                    i <= len,
                    v@ == Seq::new(i as nat, |j: int| Some(*x)),
                decreases len - i,
            {
                v.push(Some(*x));
                proof {
                    assert(v@ =~= Seq::new((i + 1) as nat, |j: int| Some(*x)));
                }
                i = i + 1;
            }
            let r = ArrayData::Bool(v);
            proof {
                assert(r@ =~= spec_scalar_to_array(scalar@, len as nat)->Ok_0);
            }
            Ok(r)
        },
        ScalarValue::Int32(Some(x)) => {
            let mut v: Vec<Option<i32>> = Vec::new();
            let mut i: usize = 0;
            while i < len
                invariant
                    i <= len,
                    v@ == Seq::new(i as nat, |j: int| Some(*x)),
                decreases len - i,
            {
                v.push(Some(*x));
                proof {
                    assert(v@ =~= Seq::new((i + 1) as nat, |j: int| Some(*x)));
                }
                i = i + 1;
            }
            let r = ArrayData::Int32(v);
            proof {
                assert(r@ =~= spec_scalar_to_array(scalar@, len as nat)->Ok_0);
            }
            Ok(r)
        },
        ScalarValue::Float64(Some(x)) => {
            let mut v: Vec<Option<u64>> = Vec::new();
            let mut i: usize = 0;
            while i < len
                invariant
                    i <= len,
                    v@ == Seq::new(i as nat, |j: int| Some(*x)),
                decreases len - i,
            {
                v.push(Some(*x));
                proof {
                    assert(v@ =~= Seq::new((i + 1) as nat, |j: int| Some(*x)));
                }
                i = i + 1;
            }
            let r = ArrayData::Float64(v);
            proof {
                assert(r@ =~= spec_scalar_to_array(scalar@, len as nat)->Ok_0);
            }
            Ok(r)
        },
        ScalarValue::Utf8(Some(x)) => {
            let ghost xs = x@;
            let mut v: Vec<Option<String>> = Vec::new();
            let mut i: usize = 0;
            while i < len
                invariant
                    i <= len,
                    xs == x@,
                    v@.len() == i,
                    forall|j: int| 0 <= j < i ==> v.deep_view()[j] == Some(xs),
                decreases len - i,
            {
                let ghost oldv = v@;
                let ghost olddv = v.deep_view();
                let c = x.clone();
                assert(c@ == xs);
                v.push(Some(c));
                proof {
                    assert forall|j: int| 0 <= j < i + 1 implies v.deep_view()[j] == Some(xs) by {
                        assert(v.deep_view()[j] == v@[j].deep_view());
                        if j < i {
                            assert(olddv[j] == oldv[j].deep_view());
                            assert(olddv[j] == Some(xs));
                            assert(v@[j] == oldv[j]);
                        }
                    }
                }
                i = i + 1;
            }
            let r = ArrayData::Utf8(v);
            proof {
                assert(r@ =~~= spec_scalar_to_array(scalar@, len as nat)->Ok_0);
            }
            Ok(r)
        },
        _ => Err(Error::ScalarToArrayError(scalar.data_type().name())),
    }
}

/// The array form of a columnar value: an array is itself, a scalar is
/// inflated to `len` copies.
pub open spec fn spec_to_array(cv: SpecColumnar, len: nat) -> Result<SpecArray, SpecError> {
    match cv {
        SpecColumnar::Array(a) => Ok(a),
        SpecColumnar::Scalar(s) => spec_scalar_to_array(s, len),
    }
}

impl ColumnarValue {
    /// Returns this value as an array, inflating a scalar to `len` copies.
    pub fn to_array(self, len: usize) -> (r: Result<ArrayData, Error>)
        ensures
            match r {
                Ok(a) => spec_to_array(self@, len as nat) == Ok::<SpecArray, SpecError>(a@),
                Err(e) => spec_to_array(self@, len as nat) == Err::<SpecArray, SpecError>(e@),
            },
    {
        match self {
            ColumnarValue::Array(a) => Ok(a),
            ColumnarValue::Scalar(s) => scalar_to_array(&s, len),
        }
    }
}

} // verus!
