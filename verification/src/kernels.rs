//! Array kernels: elementwise comparison, elementwise arithmetic, and row
//! filtering, over the engine's typed arrays.
//!
//! Null handling is uniform: an element is computed only where both operands
//! are present, otherwise the result element is null. Comparisons support
//! `Int32` fully and `Utf8`/`Bool` for equality; arithmetic supports `Int32`
//! with wrapping `Add`/`Sub`/`Mul` and truncating `Div`/`Mod` that yield a
//! null on a zero divisor or on overflowing division.

use vstd::prelude::*;

use crate::columnar_value::{ArrayData, ScalarValue, SpecArray, SpecScalar};
use crate::error::{Error, SpecError};
use crate::logical_expression::BinaryOp;
use crate::schema::DataType;

verus! {

/// The six comparison operators on two integers.
pub open spec fn spec_cmp_i32(op: BinaryOp, u: i32, v: i32) -> bool {
    match op {
        BinaryOp::Eq => u == v,
        BinaryOp::Neq => u != v,
        BinaryOp::Gt => u > v,
        BinaryOp::GtEq => u >= v,
        BinaryOp::Lt => u < v,
        BinaryOp::LtEq => u <= v,
        _ => false,
    }
}

/// Whether `op` is one of the six comparisons.
pub open spec fn is_comparison(op: BinaryOp) -> bool {
    match op {
        BinaryOp::Eq | BinaryOp::Neq | BinaryOp::Gt | BinaryOp::GtEq | BinaryOp::Lt
        | BinaryOp::LtEq => true,
        _ => false,
    }
}

/// Whether `op` is one of the five arithmetic operators.
pub open spec fn is_arithmetic(op: BinaryOp) -> bool {
    match op {
        BinaryOp::Add | BinaryOp::Sub | BinaryOp::Mul | BinaryOp::Div | BinaryOp::Mod => true,
        _ => false,
    }
}

/// Whether the comparison `op` is supported on operands of the two types.
pub open spec fn compare_supported(op: BinaryOp, a: DataType, b: DataType) -> bool {
    is_comparison(op) && a == b && match a {
        DataType::Int32 => true,
        DataType::Utf8 => op == BinaryOp::Eq || op == BinaryOp::Neq,
        DataType::Bool => op == BinaryOp::Eq || op == BinaryOp::Neq,
        _ => false,
    }
}

/// One comparison on two scalars: a boolean where both are present, a null
/// where either is null, an error on an unsupported type pair.
pub open spec fn spec_compare_values(op: BinaryOp, x: SpecScalar, y: SpecScalar) -> Result<
    Option<bool>,
    SpecError,
> {
    if !compare_supported(op, x.data_type(), y.data_type()) {
        Err(SpecError::PhysicalTypeNotSupported(x.data_type().spec_name()))
    } else {
        match (x, y) {
            (SpecScalar::Int32(Some(u)), SpecScalar::Int32(Some(v))) => Ok(
                Some(spec_cmp_i32(op, u, v)),
            ),
            (SpecScalar::Utf8(Some(u)), SpecScalar::Utf8(Some(v))) => Ok(
                Some((u == v) == (op == BinaryOp::Eq)),
            ),
            (SpecScalar::Bool(Some(u)), SpecScalar::Bool(Some(v))) => Ok(
                Some((u == v) == (op == BinaryOp::Eq)),
            ),
            _ => Ok(None),
        }
    }
}

/// The absolute value, as an unbounded integer.
pub open spec fn spec_abs_i32(a: i32) -> int {
    if a >= 0 {
        a as int
    } else {
        -(a as int)
    }
}

/// One arithmetic operator on two present integers: `Add`, `Sub` and `Mul`
/// wrap on overflow; `Div` and `Mod` truncate toward zero and yield null on
/// a zero divisor or on `i32::MIN / -1`.
pub open spec fn spec_arith_i32(op: BinaryOp, a: i32, b: i32) -> Option<i32> {
    match op {
        BinaryOp::Add => Some(a.wrapping_add(b)),
        BinaryOp::Sub => Some(a.wrapping_sub(b)),
        BinaryOp::Mul => Some(a.wrapping_mul(b)),
        BinaryOp::Div => {
            if b == 0 || (a == i32::MIN && b == -1) {
                None
            } else {
                let m = spec_abs_i32(a) / spec_abs_i32(b);
                if (a < 0) == (b < 0) {
                    Some(m as i32)
                } else {
                    Some((-m) as i32)
                }
            }
        },
        BinaryOp::Mod => {
            if b == 0 || (a == i32::MIN && b == -1) {
                None
            } else {
                let m = spec_abs_i32(a) % spec_abs_i32(b);
                if a < 0 {
                    Some((-m) as i32)
                } else {
                    Some(m as i32)
                }
            }
        },
        _ => None,
    }
}

/// One arithmetic operator on two scalars: an integer where both are
/// present, a null where either is null, an error unless both are `Int32`.
pub open spec fn spec_arith_values(op: BinaryOp, x: SpecScalar, y: SpecScalar) -> Result<
    Option<i32>,
    SpecError,
> {
    match (x, y) {
        (SpecScalar::Int32(a), SpecScalar::Int32(b)) => match (a, b) {
            (Some(u), Some(v)) => Ok(spec_arith_i32(op, u, v)),
            _ => Ok(None),
        },
        _ => Err(SpecError::PhysicalTypeNotSupported(x.data_type().spec_name())),
    }
}

/// One comparison on two integers.
pub fn cmp_i32(op: BinaryOp, u: i32, v: i32) -> (r: bool)
    ensures
        r == spec_cmp_i32(op, u, v),
{
    match op {
        BinaryOp::Eq => u == v,
        BinaryOp::Neq => u != v,
        BinaryOp::Gt => u > v,
        BinaryOp::GtEq => u >= v,
        BinaryOp::Lt => u < v,
        BinaryOp::LtEq => u <= v,
        _ => false,
    }
}

/// The magnitude of an integer, as an unsigned value.
fn abs_u32(a: i32) -> (r: u32)
    ensures
        r as int == spec_abs_i32(a),
{
    if a < 0 {
        (-(a as i64)) as u32
    } else {
        a as u32
    }
}

/// One arithmetic operator on two integers.
pub fn arith_i32(op: BinaryOp, a: i32, b: i32) -> (r: Option<i32>)
    ensures
        r == spec_arith_i32(op, a, b),
{
    match op {
        BinaryOp::Add => Some(a.wrapping_add(b)),
        BinaryOp::Sub => Some(a.wrapping_sub(b)),
        BinaryOp::Mul => Some(a.wrapping_mul(b)),
        BinaryOp::Div => {
            if b == 0 || (a == i32::MIN && b == -1) {
                None
            } else {
                let ma = abs_u32(a);
                let mb = abs_u32(b);
                let q = ma / mb;
                proof {
                    let mai = ma as int;
                    let mbi = mb as int;
                    let qi = q as int;
                    assert(qi == mai / mbi);
                    vstd::arithmetic::div_mod::lemma_fundamental_div_mod(mai, mbi);
                    assert(mai == mbi * (mai / mbi) + mai % mbi);
                    assert(mai % mbi >= 0);
                    assert(mb as int * (q as int) <= ma as int);
                    assert(q as int <= ma as int) by (nonlinear_arith)
                        requires
                            mb as int >= 1,
                            q as int >= 0,
                            mb as int * (q as int) <= ma as int,
                    {}
                }
                if (a < 0) == (b < 0) {
                    proof {
                        if a == i32::MIN {
                            assert(b < 0 && b != -1);
                            assert(mb >= 2);
                            assert(2 * (q as int) <= mb as int * (q as int)) by (nonlinear_arith)
                                requires
                                    mb as int >= 2,
                                    q as int >= 0,
                            {}
                        }
                    }
                    Some(q as i32)
                } else {
                    Some(-(q as i64) as i32)
                }
            }
        },
        BinaryOp::Mod => {
            if b == 0 || (a == i32::MIN && b == -1) {
                None
            } else {
                let ma = abs_u32(a);
                let mb = abs_u32(b);
                let m = ma % mb;
                proof {
                    assert(m as int == spec_abs_i32(a) % spec_abs_i32(b));
                    assert(m < mb);
                }
                if a < 0 {
                    Some(-(m as i64) as i32)
                } else {
                    Some(m as i32)
                }
            }
        },
        _ => None,
    }
}

/// One comparison on two scalars.
pub fn compare_values(op: BinaryOp, x: &ScalarValue, y: &ScalarValue) -> (r: Result<
    Option<bool>,
    Error,
>)
    ensures
        match r {
            Ok(o) => spec_compare_values(op, x@, y@) == Ok::<Option<bool>, SpecError>(o),
            Err(e) => spec_compare_values(op, x@, y@) == Err::<Option<bool>, SpecError>(e@),
        },
{
    let supported = match op {
        BinaryOp::Eq | BinaryOp::Neq => match (x, y) {
            (ScalarValue::Int32(_), ScalarValue::Int32(_)) => true,
            (ScalarValue::Utf8(_), ScalarValue::Utf8(_)) => true,
            (ScalarValue::Bool(_), ScalarValue::Bool(_)) => true,
            _ => false,
        },
        BinaryOp::Gt | BinaryOp::GtEq | BinaryOp::Lt | BinaryOp::LtEq => match (x, y) {
            (ScalarValue::Int32(_), ScalarValue::Int32(_)) => true,
            _ => false,
        },
        _ => false,
    };
    if !supported {
        return Err(Error::PhysicalTypeNotSupported(x.data_type().name()));
    }
    match (x, y) {
        (ScalarValue::Int32(Some(u)), ScalarValue::Int32(Some(v))) => Ok(
            Some(cmp_i32(op, *u, *v)),
        ),
        (ScalarValue::Utf8(Some(u)), ScalarValue::Utf8(Some(v))) => {
            let eq = u.eq(v);
            let want_eq = match op {
                BinaryOp::Eq => true,
                _ => false,
            };
            Ok(Some(eq == want_eq))
        },
        (ScalarValue::Bool(Some(u)), ScalarValue::Bool(Some(v))) => {
            let want_eq = match op {
                BinaryOp::Eq => true,
                _ => false,
            };
            Ok(Some((u == v) == want_eq))
        },
        _ => Ok(None),
    }
}

/// One arithmetic operator on two scalars.
pub fn arith_values(op: BinaryOp, x: &ScalarValue, y: &ScalarValue) -> (r: Result<
    Option<i32>,
    Error,
>)
    ensures
        match r {
            Ok(o) => spec_arith_values(op, x@, y@) == Ok::<Option<i32>, SpecError>(o),
            Err(e) => spec_arith_values(op, x@, y@) == Err::<Option<i32>, SpecError>(e@),
        },
{
    match (x, y) {
        (ScalarValue::Int32(Some(u)), ScalarValue::Int32(Some(v))) => Ok(arith_i32(op, *u, *v)),
        (ScalarValue::Int32(_), ScalarValue::Int32(_)) => Ok(None),
        _ => Err(Error::PhysicalTypeNotSupported(x.data_type().name())),
    }
}



// ---------------------------------------------------------------------------
// Arrays: broadcast, elementwise comparison and arithmetic.
// ---------------------------------------------------------------------------
/// The array of `len` copies of the scalar, nulls included.
pub open spec fn spec_broadcast(s: SpecScalar, len: nat) -> SpecArray {
    match s {
        SpecScalar::Bool(v) => SpecArray::Bool(Seq::new(len, |i: int| v)),
        SpecScalar::Int32(v) => SpecArray::Int32(Seq::new(len, |i: int| v)),
        SpecScalar::Float64(v) => SpecArray::Float64(Seq::new(len, |i: int| v)),
        SpecScalar::Utf8(v) => SpecArray::Utf8(Seq::new(len, |i: int| v)),
        SpecScalar::Timestamp(v) => SpecArray::Timestamp(Seq::new(len, |i: int| v)),
    }
}

/// A broadcast array repeats its scalar at every row.
pub proof fn lemma_broadcast(s: SpecScalar, len: nat)
    ensures
        spec_broadcast(s, len).len() == len,
        spec_broadcast(s, len).data_type() == s.data_type(),
        forall|i: int| 0 <= i < len ==> spec_broadcast(s, len).index_value(i) == s,
{
    match s {
        SpecScalar::Bool(_) => {},
        SpecScalar::Int32(_) => {},
        SpecScalar::Float64(_) => {},
        SpecScalar::Utf8(_) => {},
        SpecScalar::Timestamp(_) => {},
    }
}

/// An array element carries the array's storage class.
pub proof fn lemma_index_value_type(a: SpecArray, i: int)
    ensures
        a.index_value(i).data_type() == a.data_type(),
{
    match a {
        SpecArray::Bool(_) => {},
        SpecArray::Int32(_) => {},
        SpecArray::Float64(_) => {},
        SpecArray::Utf8(_) => {},
        SpecArray::Timestamp(_) => {},
    }
}

/// Elementwise comparison of two same-length arrays: a boolean array, or an
/// error on an unsupported type pair.
pub open spec fn spec_compare_arrays(op: BinaryOp, a: SpecArray, b: SpecArray) -> Result<
    SpecArray,
    SpecError,
> {
    if !compare_supported(op, a.data_type(), b.data_type()) {
        Err(SpecError::PhysicalTypeNotSupported(a.data_type().spec_name()))
    } else {
        Ok(
            SpecArray::Bool(
                Seq::new(
                    a.len(),
                    |i: int| spec_compare_values(op, a.index_value(i), b.index_value(i))->Ok_0,
                ),
            ),
        )
    }
}

/// Elementwise arithmetic on two same-length arrays: an integer array, or
/// an error unless both operands are `Int32`.
pub open spec fn spec_arith_arrays(op: BinaryOp, a: SpecArray, b: SpecArray) -> Result<
    SpecArray,
    SpecError,
> {
    if !(a.data_type() == DataType::Int32 && b.data_type() == DataType::Int32) {
        Err(SpecError::PhysicalTypeNotSupported(a.data_type().spec_name()))
    } else {
        Ok(
            SpecArray::Int32(
                Seq::new(
                    a.len(),
                    |i: int| spec_arith_values(op, a.index_value(i), b.index_value(i))->Ok_0,
                ),
            ),
        )
    }
}

/// Whether the comparison `op` is supported on operands of the two types.
pub fn compare_types_ok(op: BinaryOp, a: DataType, b: DataType) -> (r: bool)
    ensures
        r == compare_supported(op, a, b),
{
    let cmp = match op {
        BinaryOp::Eq | BinaryOp::Neq | BinaryOp::Gt | BinaryOp::GtEq | BinaryOp::Lt
        | BinaryOp::LtEq => true,
        _ => false,
    };
    if !cmp || !(a == b) {
        return false;
    }
    match a {
        DataType::Int32 => true,
        DataType::Utf8 | DataType::Bool => match op {
            BinaryOp::Eq | BinaryOp::Neq => true,
            _ => false,
        },
        _ => false,
    }
}

/// Compares two same-length arrays elementwise.
pub fn compare_arrays(op: BinaryOp, a: &ArrayData, b: &ArrayData) -> (r: Result<ArrayData, Error>)
    requires
        a@.len() == b@.len(),
    ensures
        match r {
            Ok(out) => spec_compare_arrays(op, a@, b@) == Ok::<SpecArray, SpecError>(out@),
            Err(e) => spec_compare_arrays(op, a@, b@) == Err::<SpecArray, SpecError>(e@),
        },
{
    if !compare_types_ok(op, a.data_type(), b.data_type()) {
        return Err(Error::PhysicalTypeNotSupported(a.data_type().name()));
    }
    let n = a.len();
    let mut out: Vec<Option<bool>> = Vec::new();
    let mut i: usize = 0;
    while i < n
        invariant
            i <= n,
            n == a@.len(),
            n == b@.len(),
            compare_supported(op, a@.data_type(), b@.data_type()),
            out@.len() == i,
            forall|j: int|
                0 <= j < i ==> out@[j] == spec_compare_values(
                    op,
                    a@.index_value(j),
                    b@.index_value(j),
                )->Ok_0,
        decreases n - i,
    {
        let xv = a.value_at(i);
        let yv = b.value_at(i);
        proof {
            lemma_index_value_type(a@, i as int);
            lemma_index_value_type(b@, i as int);
        }
        let o = match compare_values(op, &xv, &yv) {
            Ok(o) => o,
            Err(_) => {
                return vstd::pervasive::unreached();
            },
        };
        out.push(o);
        i = i + 1;
    }
    let r = ArrayData::Bool(out);
    proof {
        assert(r@ =~= spec_compare_arrays(op, a@, b@)->Ok_0);
    }
    Ok(r)
}

/// Compares an array against a broadcast scalar; `scalar_first` keeps the
/// operand order of the expression.
pub fn compare_array_scalar(op: BinaryOp, a: &ArrayData, s: &ScalarValue, scalar_first: bool) -> (r:
    Result<ArrayData, Error>)
    ensures
        ({
            let spec_r = if scalar_first {
                spec_compare_arrays(op, spec_broadcast(s@, a@.len()), a@)
            } else {
                spec_compare_arrays(op, a@, spec_broadcast(s@, a@.len()))
            };
            match r {
                Ok(out) => spec_r == Ok::<SpecArray, SpecError>(out@),
                Err(e) => spec_r == Err::<SpecArray, SpecError>(e@),
            }
        }),
{
    proof {
        lemma_broadcast(s@, a@.len());
    }
    let (lt, rt) = if scalar_first {
        (s.data_type(), a.data_type())
    } else {
        (a.data_type(), s.data_type())
    };
    if !compare_types_ok(op, lt, rt) {
        return Err(Error::PhysicalTypeNotSupported(if scalar_first {
            s.data_type().name()
        } else {
            a.data_type().name()
        }));
    }
    let n = a.len();
    let mut out: Vec<Option<bool>> = Vec::new();
    let mut i: usize = 0;
    while i < n
        invariant
            i <= n,
            n == a@.len(),
            compare_supported(
                op,
                if scalar_first {
                    s@.data_type()
                } else {
                    a@.data_type()
                },
                if scalar_first {
                    a@.data_type()
                } else {
                    s@.data_type()
                },
            ),
            out@.len() == i,
            forall|j: int|
                0 <= j < i ==> out@[j] == (if scalar_first {
                    spec_compare_values(op, s@, a@.index_value(j))
                } else {
                    spec_compare_values(op, a@.index_value(j), s@)
                })->Ok_0,
        decreases n - i,
    {
        let xv = a.value_at(i);
        proof {
            lemma_index_value_type(a@, i as int);
        }
        let cmp = if scalar_first {
            compare_values(op, s, &xv)
        } else {
            compare_values(op, &xv, s)
        };
        let o = match cmp {
            Ok(o) => o,
            Err(_) => {
                return vstd::pervasive::unreached();
            },
        };
        out.push(o);
        i = i + 1;
    }
    let r = ArrayData::Bool(out);
    proof {
        lemma_broadcast(s@, a@.len());
        if scalar_first {
            assert(r@ =~= spec_compare_arrays(op, spec_broadcast(s@, a@.len()), a@)->Ok_0);
        } else {
            assert(r@ =~= spec_compare_arrays(op, a@, spec_broadcast(s@, a@.len()))->Ok_0);
        }
    }
    Ok(r)
}

/// Elementwise arithmetic on two same-length arrays.
pub fn arith_arrays(op: BinaryOp, a: &ArrayData, b: &ArrayData) -> (r: Result<ArrayData, Error>)
    requires
        a@.len() == b@.len(),
    ensures
        match r {
            Ok(out) => spec_arith_arrays(op, a@, b@) == Ok::<SpecArray, SpecError>(out@),
            Err(e) => spec_arith_arrays(op, a@, b@) == Err::<SpecArray, SpecError>(e@),
        },
{
    let both_int = a.data_type() == DataType::Int32 && b.data_type() == DataType::Int32;
    if !both_int {
        return Err(Error::PhysicalTypeNotSupported(a.data_type().name()));
    }
    let n = a.len();
    let mut out: Vec<Option<i32>> = Vec::new();
    let mut i: usize = 0;
    while i < n
        invariant
            i <= n,
            n == a@.len(),
            n == b@.len(),
            a@.data_type() == DataType::Int32,
            b@.data_type() == DataType::Int32,
            out@.len() == i,
            forall|j: int|
                0 <= j < i ==> out@[j] == spec_arith_values(
                    op,
                    a@.index_value(j),
                    b@.index_value(j),
                )->Ok_0,
        decreases n - i,
    {
        let xv = a.value_at(i);
        let yv = b.value_at(i);
        proof {
            lemma_index_value_type(a@, i as int);
            lemma_index_value_type(b@, i as int);
        }
        let o = match arith_values(op, &xv, &yv) {
            Ok(o) => o,
            Err(_) => {
                return vstd::pervasive::unreached();
            },
        };
        out.push(o);
        i = i + 1;
    }
    let r = ArrayData::Int32(out);
    proof {
        assert(r@ =~= spec_arith_arrays(op, a@, b@)->Ok_0);
    }
    Ok(r)
}

/// Arithmetic between an array and a broadcast scalar; `scalar_first` keeps
/// the operand order of the expression.
pub fn arith_array_scalar(op: BinaryOp, a: &ArrayData, s: &ScalarValue, scalar_first: bool) -> (r:
    Result<ArrayData, Error>)
    ensures
        ({
            let spec_r = if scalar_first {
                spec_arith_arrays(op, spec_broadcast(s@, a@.len()), a@)
            } else {
                spec_arith_arrays(op, a@, spec_broadcast(s@, a@.len()))
            };
            match r {
                Ok(out) => spec_r == Ok::<SpecArray, SpecError>(out@),
                Err(e) => spec_r == Err::<SpecArray, SpecError>(e@),
            }
        }),
{
    proof {
        lemma_broadcast(s@, a@.len());
    }
    let both_int = a.data_type() == DataType::Int32 && s.data_type() == DataType::Int32;
    if !both_int {
        return Err(Error::PhysicalTypeNotSupported(if scalar_first {
            s.data_type().name()
        } else {
            a.data_type().name()
        }));
    }
    let n = a.len();
    let mut out: Vec<Option<i32>> = Vec::new();
    let mut i: usize = 0;
    while i < n
        invariant
            i <= n,
            n == a@.len(),
            a@.data_type() == DataType::Int32,
            s@.data_type() == DataType::Int32,
            out@.len() == i,
            forall|j: int|
                0 <= j < i ==> out@[j] == (if scalar_first {
                    spec_arith_values(op, s@, a@.index_value(j))
                } else {
                    spec_arith_values(op, a@.index_value(j), s@)
                })->Ok_0,
        decreases n - i,
    {
        let xv = a.value_at(i);
        proof {
            lemma_index_value_type(a@, i as int);
        }
        let ar = if scalar_first {
            arith_values(op, s, &xv)
        } else {
            arith_values(op, &xv, s)
        };
        let o = match ar {
            Ok(o) => o,
            Err(_) => {
                return vstd::pervasive::unreached();
            },
        };
        out.push(o);
        i = i + 1;
    }
    let r = ArrayData::Int32(out);
    proof {
        lemma_broadcast(s@, a@.len());
        if scalar_first {
            assert(r@ =~= spec_arith_arrays(op, spec_broadcast(s@, a@.len()), a@)->Ok_0);
        } else {
            assert(r@ =~= spec_arith_arrays(op, a@, spec_broadcast(s@, a@.len()))->Ok_0);
        }
    }
    Ok(r)
}

// ---------------------------------------------------------------------------
// Row filtering by a boolean mask.
// ---------------------------------------------------------------------------
/// The elements of `xs` at positions where the mask holds `true`; a null
/// mask entry, or a position beyond the end of the mask, drops the row.
pub open spec fn spec_filter_seq<T>(xs: Seq<T>, mask: Seq<Option<bool>>) -> Seq<T>
    decreases xs.len(),
{
    if xs.len() == 0 {
        Seq::empty()
    } else {
        let rest = spec_filter_seq(xs.drop_last(), mask);
        if xs.len() <= mask.len() && mask[xs.len() - 1] == Some(true) {
            rest.push(xs.last())
        } else {
            rest
        }
    }
}

/// The rows of the array at positions where the mask holds `true`.
pub open spec fn spec_filter_array(a: SpecArray, mask: Seq<Option<bool>>) -> SpecArray {
    match a {
        SpecArray::Bool(v) => SpecArray::Bool(spec_filter_seq(v, mask)),
        SpecArray::Int32(v) => SpecArray::Int32(spec_filter_seq(v, mask)),
        SpecArray::Float64(v) => SpecArray::Float64(spec_filter_seq(v, mask)),
        SpecArray::Utf8(v) => SpecArray::Utf8(spec_filter_seq(v, mask)),
        SpecArray::Timestamp(v) => SpecArray::Timestamp(spec_filter_seq(v, mask)),
    }
}

/// Keeps the rows of `a` at positions where the mask holds `true`; rows
/// beyond the end of the mask are dropped.
pub fn filter_array(a: &ArrayData, mask: &Vec<Option<bool>>) -> (r: ArrayData)
    ensures
        r@ == spec_filter_array(a@, mask@),
{
    let n = a.len();
    let mut out = ArrayData::new_empty(a.data_type());
    let mut i: usize = 0;
    while i < n
        invariant
            i <= n,
            n == a@.len(),
            out@ == spec_filter_array_prefix(a@, mask@, i as int),
            out@.data_type() == a@.data_type(),
        decreases n - i,
    {
        proof {
            lemma_filter_array_prefix_step(a@, mask@, i as int);
        }
        let keep = if i < mask.len() {
            match mask[i] {
                Some(true) => true,
                _ => false,
            }
        } else {
            false
        };
        if keep {
            let v = a.value_at(i);
            proof {
                lemma_index_value_type(a@, i as int);
            }
            let pushed = out.push_value(&v);
            proof {
                assert(pushed is Ok);
            }
            let _ = pushed;
        }
        i = i + 1;
    }
    proof {
        lemma_filter_array_prefix_full(a@, mask@);
    }
    out
}

/// The filter restricted to the first `i` rows.
pub open spec fn spec_filter_array_prefix(a: SpecArray, mask: Seq<Option<bool>>, i: int) -> SpecArray {
    match a {
        SpecArray::Bool(v) => SpecArray::Bool(spec_filter_seq(v.take(i), mask)),
        SpecArray::Int32(v) => SpecArray::Int32(spec_filter_seq(v.take(i), mask)),
        SpecArray::Float64(v) => SpecArray::Float64(spec_filter_seq(v.take(i), mask)),
        SpecArray::Utf8(v) => SpecArray::Utf8(spec_filter_seq(v.take(i), mask)),
        SpecArray::Timestamp(v) => SpecArray::Timestamp(spec_filter_seq(v.take(i), mask)),
    }
}

/// One row extends the filtered prefix by at most one element.
proof fn lemma_filter_seq_prefix_step<T>(xs: Seq<T>, mask: Seq<Option<bool>>, i: int)
    requires
        0 <= i < xs.len(),
    ensures
        spec_filter_seq(xs.take(i + 1), mask) == if i < mask.len() && mask[i] == Some(true) {
            spec_filter_seq(xs.take(i), mask).push(xs[i])
        } else {
            spec_filter_seq(xs.take(i), mask)
        },
{
    let xp = xs.take(i + 1);
    assert(xp.len() == i + 1);
    assert(xp.drop_last() =~= xs.take(i));
    assert(xp.last() == xs[i]);
}

proof fn lemma_filter_array_prefix_step(a: SpecArray, mask: Seq<Option<bool>>, i: int)
    requires
        0 <= i < a.len(),
    ensures
        spec_filter_array_prefix(a, mask, i + 1) == if i < mask.len() && mask[i] == Some(true) {
            spec_filter_array_prefix(a, mask, i).push_value(a.index_value(i))
        } else {
            spec_filter_array_prefix(a, mask, i)
        },
{
    match a {
        SpecArray::Bool(v) => lemma_filter_seq_prefix_step(v, mask, i),
        SpecArray::Int32(v) => lemma_filter_seq_prefix_step(v, mask, i),
        SpecArray::Float64(v) => lemma_filter_seq_prefix_step(v, mask, i),
        SpecArray::Utf8(v) => lemma_filter_seq_prefix_step(v, mask, i),
        SpecArray::Timestamp(v) => lemma_filter_seq_prefix_step(v, mask, i),
    }
}

proof fn lemma_filter_array_prefix_full(a: SpecArray, mask: Seq<Option<bool>>)
    ensures
        spec_filter_array_prefix(a, mask, a.len() as int) == spec_filter_array(a, mask),
        spec_filter_array_prefix(a, mask, 0) == SpecArray::empty(a.data_type()),
{
    match a {
        SpecArray::Bool(v) => {
            assert(v.take(v.len() as int) =~= v);
            assert(v.take(0) =~= Seq::<Option<bool>>::empty());
        },
        SpecArray::Int32(v) => {
            assert(v.take(v.len() as int) =~= v);
            assert(v.take(0) =~= Seq::<Option<i32>>::empty());
        },
        SpecArray::Float64(v) => {
            assert(v.take(v.len() as int) =~= v);
            assert(v.take(0) =~= Seq::<Option<u64>>::empty());
        },
        SpecArray::Utf8(v) => {
            assert(v.take(v.len() as int) =~= v);
            assert(v.take(0) =~= Seq::<Option<Seq<char>>>::empty());
        },
        SpecArray::Timestamp(v) => {
            assert(v.take(v.len() as int) =~= v);
            assert(v.take(0) =~= Seq::<Option<i64>>::empty());
        },
    }
}

} // verus!
