//! Kernel behavior: comparison operators, arithmetic with wrapping and
//! truncating division, literal naming, and type-dispatch errors.

use query_engine::columnar_value::{ArrayData, ColumnarValue, ScalarValue};
use query_engine::data_source::DataSource;
use query_engine::dataframe::DataFrame;
use query_engine::error::Error;
use query_engine::logical_expression::{col, lit_int, lit_string, BinaryOp, LogicalExpression};
use query_engine::physical_expression::{ColumnExpression, PhysicalExpression};
use query_engine::record_batch::RecordBatch;
use query_engine::schema::{DataType, Field, Schema};
use query_engine::text::i32_decimal_string;

fn field(name: &str, data_type: DataType) -> Field {
    Field { name: name.to_string(), data_type, nullable: true }
}

fn int_source(values: Vec<Option<i32>>) -> DataSource {
    let schema = Schema { fields: vec![field("x", DataType::Int32)] };
    let batch = RecordBatch::new(vec![ArrayData::Int32(values)]);
    DataSource::new(schema, vec![batch]).unwrap()
}

fn binary(op: BinaryOp, l: LogicalExpression, r: LogicalExpression) -> LogicalExpression {
    LogicalExpression::Binary(op, Box::new(l), Box::new(r))
}

fn project_one(ds: DataSource, expr: LogicalExpression) -> ArrayData {
    let mut batches = DataFrame::scan("t", ds)
        .project(vec![expr])
        .unwrap()
        .execute()
        .unwrap();
    batches.remove(0).columns.remove(0)
}

#[test]
fn test_ordering_comparisons_on_integers() {
    let out = project_one(
        int_source(vec![Some(1), Some(5), Some(3), None]),
        col("x").gt(lit_int(2)),
    );
    assert_eq!(
        out,
        ArrayData::Bool(vec![Some(false), Some(true), Some(true), None])
    );
    let out = project_one(
        int_source(vec![Some(1), Some(5), Some(3), None]),
        col("x").lteq(lit_int(3)),
    );
    assert_eq!(
        out,
        ArrayData::Bool(vec![Some(true), Some(false), Some(true), None])
    );
}

#[test]
fn test_arithmetic_values() {
    let out = project_one(
        int_source(vec![Some(10), Some(-7), None]),
        binary(BinaryOp::Add, col("x"), lit_int(5)),
    );
    assert_eq!(out, ArrayData::Int32(vec![Some(15), Some(-2), None]));

    let out = project_one(
        int_source(vec![Some(10), Some(-7)]),
        binary(BinaryOp::Mul, col("x"), lit_int(3)),
    );
    assert_eq!(out, ArrayData::Int32(vec![Some(30), Some(-21)]));
}

#[test]
fn test_division_truncates_toward_zero_and_nulls_on_zero() {
    let out = project_one(
        int_source(vec![Some(7), Some(-7), Some(4)]),
        binary(BinaryOp::Div, col("x"), lit_int(2)),
    );
    assert_eq!(out, ArrayData::Int32(vec![Some(3), Some(-3), Some(2)]));

    let out = project_one(
        int_source(vec![Some(7)]),
        binary(BinaryOp::Div, col("x"), lit_int(0)),
    );
    assert_eq!(out, ArrayData::Int32(vec![None]));

    let out = project_one(
        int_source(vec![Some(7), Some(-7)]),
        binary(BinaryOp::Mod, col("x"), lit_int(4)),
    );
    assert_eq!(out, ArrayData::Int32(vec![Some(3), Some(-3)]));
}

#[test]
fn test_addition_wraps() {
    let out = project_one(
        int_source(vec![Some(i32::MAX)]),
        binary(BinaryOp::Add, col("x"), lit_int(1)),
    );
    assert_eq!(out, ArrayData::Int32(vec![Some(i32::MIN)]));
}

#[test]
fn test_scalar_scalar_arithmetic_type_mismatch() {
    let err = DataFrame::scan("t", int_source(vec![Some(1)]))
        .project(vec![binary(BinaryOp::Add, lit_int(1), lit_string("x"))])
        .unwrap()
        .execute()
        .unwrap_err();
    assert_eq!(err, Error::PrimitiveTypeNotSupported("Int32".to_string()));
}

#[test]
fn test_boolean_connectives_are_not_lowered() {
    let err = DataFrame::scan("t", int_source(vec![Some(1)]))
        .filter(col("x").eq(lit_int(1)).and(col("x").eq(lit_int(1))))
        .unwrap()
        .execute()
        .unwrap_err();
    assert_eq!(err, Error::PhysicalExpressionNotSupported("and".to_string()));
}

#[test]
fn test_comparing_strings_for_order_is_refused() {
    let schema = Schema { fields: vec![field("s", DataType::Utf8)] };
    let batch = RecordBatch::new(vec![ArrayData::Utf8(vec![Some("a".to_string())])]);
    let ds = DataSource::new(schema, vec![batch]).unwrap();
    let err = DataFrame::scan("t", ds)
        .filter(col("s").gt(lit_string("a")))
        .unwrap()
        .execute()
        .unwrap_err();
    assert_eq!(err, Error::PhysicalTypeNotSupported("Utf8".to_string()));
}

#[test]
fn test_decimal_strings() {
    assert_eq!(i32_decimal_string(0), "0");
    assert_eq!(i32_decimal_string(42), "42");
    assert_eq!(i32_decimal_string(-305), "-305");
    assert_eq!(i32_decimal_string(i32::MAX), "2147483647");
    assert_eq!(i32_decimal_string(i32::MIN), "-2147483648");
}

#[test]
fn test_data_source_rejects_ragged_batches() {
    let schema = Schema { fields: vec![field("x", DataType::Int32)] };
    let bad = RecordBatch::new(vec![ArrayData::Bool(vec![Some(true)])]);
    let err = DataSource::new(schema, vec![bad]).unwrap_err();
    assert_eq!(
        err,
        Error::DataSourceError("batch does not conform to the data source schema".to_string())
    );
}

#[test]
fn test_floats_and_timestamps_travel_through_scan_and_filter() {
    // Floats are carried as bit patterns and timestamps as nanoseconds;
    // neither feeds a kernel, but both survive scans and filters intact.
    let schema = Schema {
        fields: vec![
            field("id", DataType::Int32),
            field("salary", DataType::Float64),
            field("seen", DataType::Timestamp),
        ],
    };
    let salary = vec![Some(100.5f64.to_bits()), Some(200.25f64.to_bits())];
    let seen = vec![Some(86_400_000_000_000i64), None];
    let batch = RecordBatch::new(vec![
        ArrayData::Int32(vec![Some(1), Some(2)]),
        ArrayData::Float64(salary.clone()),
        ArrayData::Timestamp(seen.clone()),
    ]);
    let ds = DataSource::new(schema, vec![batch]).unwrap();
    let result = DataFrame::scan("t", ds)
        .filter(col("id").eq(lit_int(2)))
        .unwrap()
        .execute()
        .unwrap();
    assert_eq!(result[0].columns[1], ArrayData::Float64(vec![salary[1]]));
    assert_eq!(result[0].columns[2], ArrayData::Timestamp(vec![None]));
    assert_eq!(f64::from_bits(salary[1].unwrap()), 200.25);
}

#[test]
fn test_projecting_a_timestamp_column_is_refused() {
    let schema = Schema { fields: vec![field("seen", DataType::Timestamp)] };
    let batch = RecordBatch::new(vec![ArrayData::Timestamp(vec![Some(1)])]);
    let ds = DataSource::new(schema, vec![batch]).unwrap();
    let err = DataFrame::scan("t", ds)
        .project(vec![col("seen")])
        .unwrap()
        .execute()
        .unwrap_err();
    assert_eq!(err, Error::PhysicalTypeNotSupported("Timestamp".to_string()));
}

#[test]
fn test_scalar_comparison_of_scalars() {
    let batch = RecordBatch::new(vec![ArrayData::Int32(vec![Some(1)])]);
    let expr = PhysicalExpression::Binary(
        BinaryOp::Lt,
        Box::new(PhysicalExpression::LiteralInteger(
            query_engine::physical_expression::LiteralIntegerExpression::new(2),
        )),
        Box::new(PhysicalExpression::LiteralInteger(
            query_engine::physical_expression::LiteralIntegerExpression::new(3),
        )),
    );
    assert_eq!(
        expr.evaluate(&batch).unwrap(),
        ColumnarValue::Scalar(ScalarValue::Bool(Some(true)))
    );
}

#[test]
fn test_scalar_array_comparison_keeps_operand_order() {
    // `2 < x`: the scalar stands on the left.
    let batch = RecordBatch::new(vec![ArrayData::Int32(vec![Some(1), Some(3)])]);
    let expr = PhysicalExpression::Binary(
        BinaryOp::Lt,
        Box::new(PhysicalExpression::LiteralInteger(
            query_engine::physical_expression::LiteralIntegerExpression::new(2),
        )),
        Box::new(PhysicalExpression::Column(ColumnExpression { index: 0 })),
    );
    assert_eq!(
        expr.evaluate(&batch).unwrap(),
        ColumnarValue::Array(ArrayData::Bool(vec![Some(false), Some(true)]))
    );
}
