//! Physical expressions: the executable mirror of the logical algebra, with
//! columns addressed by ordinal index and kernels dispatched by type.

use vstd::prelude::*;

use crate::columnar_value::{
    ArrayData, ColumnarValue, ScalarValue, SpecArray, SpecColumnar, SpecScalar,
};
use crate::error::{Error, SpecError};
use crate::kernels::{
    arith_array_scalar, arith_arrays, arith_i32, compare_array_scalar, compare_arrays,
    compare_values, is_arithmetic, is_comparison, spec_arith_arrays, spec_arith_i32,
    spec_broadcast, spec_compare_arrays, spec_compare_values,
};
use crate::logical_expression::{AggregateOp, BinaryOp};
use crate::record_batch::RecordBatch;
use crate::schema::DataType;

verus! {

/// A column of the input batch, by ordinal index.
#[derive(Debug, PartialEq, Clone, Copy)]
pub struct ColumnExpression {
    pub index: usize,
}

/// A boolean literal.
#[derive(Debug, PartialEq, Clone, Copy)]
pub struct LiteralBoolExpression {
    pub value: bool,
}

impl LiteralBoolExpression {
    pub fn new(value: bool) -> (r: Self)
        ensures
            r.value == value,
    {
        LiteralBoolExpression { value }
    }
}

/// A string literal.
#[derive(Debug, PartialEq)]
pub struct LiteralStringExpression {
    pub value: String,
}

impl LiteralStringExpression {
    pub fn new(value: String) -> (r: Self)
        ensures
            r.value@ == value@,
    {
        LiteralStringExpression { value }
    }
}

/// An integer literal.
#[derive(Debug, PartialEq, Clone, Copy)]
pub struct LiteralIntegerExpression {
    pub value: i32,
}

impl LiteralIntegerExpression {
    pub fn new(value: i32) -> (r: Self)
        ensures
            r.value == value,
    {
        LiteralIntegerExpression { value }
    }
}

/// A physical expression: a closed sum over ordinal columns, typed
/// literals, kernel-bearing binary operators, and aggregates.
#[derive(Debug, PartialEq)]
pub enum PhysicalExpression {
    Column(ColumnExpression),
    LiteralBool(LiteralBoolExpression),
    LiteralString(LiteralStringExpression),
    LiteralInteger(LiteralIntegerExpression),
    Binary(BinaryOp, Box<PhysicalExpression>, Box<PhysicalExpression>),
    Aggregate(AggregateOp, Box<PhysicalExpression>),
}

/// Mathematical image of a [`PhysicalExpression`].
#[verifier::ext_equal]
pub enum SpecPExpr {
    Column(nat),
    LiteralBool(bool),
    LiteralString(Seq<char>),
    LiteralInteger(i32),
    Binary(BinaryOp, Box<SpecPExpr>, Box<SpecPExpr>),
    Aggregate(AggregateOp, Box<SpecPExpr>),
}

/// The view of a physical expression tree.
pub open spec fn spec_pexpr_view(e: PhysicalExpression) -> SpecPExpr
    decreases e,
{
    match e {
        PhysicalExpression::Column(c) => SpecPExpr::Column(c.index as nat),
        PhysicalExpression::LiteralBool(b) => SpecPExpr::LiteralBool(b.value),
        PhysicalExpression::LiteralString(s) => SpecPExpr::LiteralString(s.value@),
        PhysicalExpression::LiteralInteger(v) => SpecPExpr::LiteralInteger(v.value),
        PhysicalExpression::Binary(op, l, r) => SpecPExpr::Binary(
            op,
            Box::new(spec_pexpr_view(*l)),
            Box::new(spec_pexpr_view(*r)),
        ),
        PhysicalExpression::Aggregate(op, x) => SpecPExpr::Aggregate(
            op,
            Box::new(spec_pexpr_view(*x)),
        ),
    }
}

impl View for PhysicalExpression {
    type V = SpecPExpr;

    open spec fn view(&self) -> SpecPExpr {
        spec_pexpr_view(*self)
    }
}

/// The views of a list of physical expressions.
pub open spec fn pexprs_view(es: Seq<PhysicalExpression>) -> Seq<SpecPExpr> {
    es.map_values(|e: PhysicalExpression| e@)
}

/// One binary operator applied to two evaluated operands, dispatching on
/// their shapes: equal-length arrays elementwise, scalars broadcast over
/// arrays, and scalar pairs directly. Unequal array lengths surface
/// `DifferentSizes`; a boolean connective has no kernel and surfaces
/// `PhysicalExpressionNotSupported`.
pub open spec fn spec_apply_binary(op: BinaryOp, l: SpecColumnar, r: SpecColumnar) -> Result<
    SpecColumnar,
    SpecError,
> {
    if is_comparison(op) {
        match (l, r) {
            (SpecColumnar::Array(a), SpecColumnar::Array(b)) => {
                if a.len() != b.len() {
                    Err(SpecError::DifferentSizes(a.len(), b.len()))
                } else {
                    match spec_compare_arrays(op, a, b) {
                        Ok(o) => Ok(SpecColumnar::Array(o)),
                        Err(e) => Err(e),
                    }
                }
            },
            (SpecColumnar::Array(a), SpecColumnar::Scalar(s)) => {
                match spec_compare_arrays(op, a, spec_broadcast(s, a.len())) {
                    Ok(o) => Ok(SpecColumnar::Array(o)),
                    Err(e) => Err(e),
                }
            },
            (SpecColumnar::Scalar(s), SpecColumnar::Array(b)) => {
                match spec_compare_arrays(op, spec_broadcast(s, b.len()), b) {
                    Ok(o) => Ok(SpecColumnar::Array(o)),
                    Err(e) => Err(e),
                }
            },
            (SpecColumnar::Scalar(x), SpecColumnar::Scalar(y)) => {
                match spec_compare_values(op, x, y) {
                    Ok(o) => Ok(SpecColumnar::Scalar(SpecScalar::Bool(o))),
                    Err(e) => Err(e),
                }
            },
        }
    } else if is_arithmetic(op) {
        match (l, r) {
            (SpecColumnar::Array(a), SpecColumnar::Array(b)) => {
                if a.len() != b.len() {
                    Err(SpecError::DifferentSizes(a.len(), b.len()))
                } else {
                    match spec_arith_arrays(op, a, b) {
                        Ok(o) => Ok(SpecColumnar::Array(o)),
                        Err(e) => Err(e),
                    }
                }
            },
            (SpecColumnar::Array(a), SpecColumnar::Scalar(s)) => {
                match spec_arith_arrays(op, a, spec_broadcast(s, a.len())) {
                    Ok(o) => Ok(SpecColumnar::Array(o)),
                    Err(e) => Err(e),
                }
            },
            (SpecColumnar::Scalar(s), SpecColumnar::Array(b)) => {
                match spec_arith_arrays(op, spec_broadcast(s, b.len()), b) {
                    Ok(o) => Ok(SpecColumnar::Array(o)),
                    Err(e) => Err(e),
                }
            },
            (SpecColumnar::Scalar(x), SpecColumnar::Scalar(y)) => {
                match (x, y) {
                    (SpecScalar::Int32(a), SpecScalar::Int32(b)) => {
                        let o = match (a, b) {
                            (Some(u), Some(v)) => spec_arith_i32(op, u, v),
                            _ => None,
                        };
                        Ok(SpecColumnar::Scalar(SpecScalar::Int32(o)))
                    },
                    _ => Err(SpecError::PrimitiveTypeNotSupported(x.data_type().spec_name())),
                }
            },
        }
    } else {
        Err(SpecError::PhysicalExpressionNotSupported(op.spec_name()))
    }
}

/// Evaluation of a physical expression over a batch: a column returns its
/// array, a literal its scalar, a binary node applies its kernel, and an
/// aggregate node passes its operand's evaluation through.
pub open spec fn spec_evaluate(e: SpecPExpr, batch: Seq<SpecArray>) -> Result<
    SpecColumnar,
    SpecError,
>
    decreases e,
{
    match e {
        SpecPExpr::Column(i) => {
            if i >= batch.len() {
                Err(SpecError::ExceedingBounds(i))
            } else if batch[i as int].data_type() == DataType::Timestamp {
                Err(SpecError::PhysicalTypeNotSupported(DataType::Timestamp.spec_name()))
            } else {
                Ok(SpecColumnar::Array(batch[i as int]))
            }
        },
        SpecPExpr::LiteralBool(b) => Ok(SpecColumnar::Scalar(SpecScalar::Bool(Some(b)))),
        SpecPExpr::LiteralString(s) => Ok(SpecColumnar::Scalar(SpecScalar::Utf8(Some(s)))),
        SpecPExpr::LiteralInteger(v) => Ok(SpecColumnar::Scalar(SpecScalar::Int32(Some(v)))),
        SpecPExpr::Binary(op, l, r) => {
            match spec_evaluate(*l, batch) {
                Ok(lv) => match spec_evaluate(*r, batch) {
                    Ok(rv) => spec_apply_binary(op, lv, rv),
                    Err(e) => Err(e),
                },
                Err(e) => Err(e),
            }
        },
        SpecPExpr::Aggregate(_, x) => spec_evaluate(*x, batch),
    }
}

/// Applies one binary operator to two evaluated operands.
fn apply_binary(op: BinaryOp, l: ColumnarValue, r: ColumnarValue) -> (res: Result<
    ColumnarValue,
    Error,
>)
    ensures
        match res {
            Ok(v) => spec_apply_binary(op, l@, r@) == Ok::<SpecColumnar, SpecError>(v@),
            Err(e) => spec_apply_binary(op, l@, r@) == Err::<SpecColumnar, SpecError>(e@),
        },
{
    let comparison = match op {
        BinaryOp::Eq | BinaryOp::Neq | BinaryOp::Gt | BinaryOp::GtEq | BinaryOp::Lt
        | BinaryOp::LtEq => true,
        _ => false,
    };
    let arithmetic = match op {
        BinaryOp::Add | BinaryOp::Sub | BinaryOp::Mul | BinaryOp::Div | BinaryOp::Mod => true,
        _ => false,
    };
    if comparison {
        match (l, r) {
            (ColumnarValue::Array(a), ColumnarValue::Array(b)) => {
                let la = a.len();
                let lb = b.len();
                if la != lb {
                    Err(Error::DifferentSizes(la, lb))
                } else {
                    match compare_arrays(op, &a, &b) {
                        Ok(o) => Ok(ColumnarValue::Array(o)),
                        Err(e) => Err(e),
                    }
                }
            },
            (ColumnarValue::Array(a), ColumnarValue::Scalar(s)) => {
                match compare_array_scalar(op, &a, &s, false) {
                    Ok(o) => Ok(ColumnarValue::Array(o)),
                    Err(e) => Err(e),
                }
            },
            (ColumnarValue::Scalar(s), ColumnarValue::Array(b)) => {
                match compare_array_scalar(op, &b, &s, true) {
                    Ok(o) => Ok(ColumnarValue::Array(o)),
                    Err(e) => Err(e),
                }
            },
            (ColumnarValue::Scalar(x), ColumnarValue::Scalar(y)) => {
                match compare_values(op, &x, &y) {
                    Ok(o) => Ok(ColumnarValue::Scalar(ScalarValue::Bool(o))),
                    Err(e) => Err(e),
                }
            },
        }
    } else if arithmetic {
        match (l, r) {
            (ColumnarValue::Array(a), ColumnarValue::Array(b)) => {
                let la = a.len();
                let lb = b.len();
                if la != lb {
                    Err(Error::DifferentSizes(la, lb))
                } else {
                    match arith_arrays(op, &a, &b) {
                        Ok(o) => Ok(ColumnarValue::Array(o)),
                        Err(e) => Err(e),
                    }
                }
            },
            (ColumnarValue::Array(a), ColumnarValue::Scalar(s)) => {
                match arith_array_scalar(op, &a, &s, false) {
                    Ok(o) => Ok(ColumnarValue::Array(o)),
                    Err(e) => Err(e),
                }
            },
            (ColumnarValue::Scalar(s), ColumnarValue::Array(b)) => {
                match arith_array_scalar(op, &b, &s, true) {
                    Ok(o) => Ok(ColumnarValue::Array(o)),
                    Err(e) => Err(e),
                }
            },
            (ColumnarValue::Scalar(x), ColumnarValue::Scalar(y)) => {
                match (&x, &y) {
                    (ScalarValue::Int32(a), ScalarValue::Int32(b)) => {
                        let o = match (a, b) {
                            (Some(u), Some(v)) => arith_i32(op, *u, *v),
                            _ => None,
                        };
                        Ok(ColumnarValue::Scalar(ScalarValue::Int32(o)))
                    },
                    _ => Err(Error::PrimitiveTypeNotSupported(x.data_type().name())),
                }
            },
        }
    } else {
        Err(Error::PhysicalExpressionNotSupported(op.name()))
    }
}

impl PhysicalExpression {
    /// Evaluates the expression over one batch, yielding an array or a
    /// scalar.
    pub fn evaluate(&self, input: &RecordBatch) -> (res: Result<ColumnarValue, Error>)
        ensures
            match res {
                Ok(v) => spec_evaluate(self@, input@) == Ok::<SpecColumnar, SpecError>(v@),
                Err(e) => spec_evaluate(self@, input@) == Err::<SpecColumnar, SpecError>(e@),
            },
        decreases *self,
    {
        match self {
            PhysicalExpression::Column(c) => {
                match input.field(c.index) {
                    Ok(a) => {
                        if a.data_type() == DataType::Timestamp {
                            Err(Error::PhysicalTypeNotSupported(DataType::Timestamp.name()))
                        } else {
                            Ok(ColumnarValue::Array(a.clone()))
                        }
                    },
                    Err(e) => Err(e),
                }
            },
            PhysicalExpression::LiteralBool(b) => Ok(
                ColumnarValue::Scalar(ScalarValue::Bool(Some(b.value))),
            ),
            PhysicalExpression::LiteralString(s) => Ok(
                ColumnarValue::Scalar(ScalarValue::Utf8(Some(s.value.clone()))),
            ),
            PhysicalExpression::LiteralInteger(v) => Ok(
                ColumnarValue::Scalar(ScalarValue::Int32(Some(v.value))),
            ),
            PhysicalExpression::Binary(op, l, r) => {
                let lv = match l.evaluate(input) {
                    Ok(v) => v,
                    Err(e) => {
                        return Err(e);
                    },
                };
                let rv = match r.evaluate(input) {
                    Ok(v) => v,
                    Err(e) => {
                        return Err(e);
                    },
                };
                apply_binary(*op, lv, rv)
            },
            PhysicalExpression::Aggregate(_, x) => x.evaluate(input),
        }
    }
}

} // verus!
