//! End-to-end execution: scans, filters, projections, aggregation, the
//! boundary behaviors, and each reachable error kind.

use query_engine::columnar_value::{ArrayData, ColumnarValue, ScalarValue};
use query_engine::data_source::DataSource;
use query_engine::dataframe::DataFrame;
use query_engine::error::Error;
use query_engine::logical_expression::{col, lit_int, lit_string, max, min};
use query_engine::physical_expression::{
    ColumnExpression, LiteralIntegerExpression, PhysicalExpression,
};
use query_engine::record_batch::RecordBatch;
use query_engine::schema::{DataType, Field, Schema};

fn field(name: &str, data_type: DataType) -> Field {
    Field { name: name.to_string(), data_type, nullable: true }
}

fn people_source() -> DataSource {
    let schema = Schema {
        fields: vec![
            field("id", DataType::Int32),
            field("first_name", DataType::Utf8),
            field("gender", DataType::Utf8),
            field("country", DataType::Utf8),
            field("salary", DataType::Int32),
        ],
    };
    let batch = RecordBatch::new(vec![
        ArrayData::Int32(vec![Some(1), Some(2), Some(3), Some(4)]),
        ArrayData::Utf8(vec![
            Some("Amanda".to_string()),
            Some("Albert".to_string()),
            Some("Evelyn".to_string()),
            Some("Denise".to_string()),
        ]),
        ArrayData::Utf8(vec![
            Some("Female".to_string()),
            Some("Male".to_string()),
            Some("Female".to_string()),
            Some("Female".to_string()),
        ]),
        ArrayData::Utf8(vec![
            Some("Indonesia".to_string()),
            Some("Canada".to_string()),
            Some("Indonesia".to_string()),
            Some("Portugal".to_string()),
        ]),
        ArrayData::Int32(vec![Some(70), Some(90), Some(80), Some(60)]),
    ]);
    DataSource::new(schema, vec![batch]).unwrap()
}

#[test]
fn test_scan() {
    let result = DataFrame::scan("people", people_source()).execute().unwrap();
    assert_eq!(result.len(), 1);
    assert_eq!(result[0].columns.len(), 5);
    assert_eq!(
        result[0].columns[1],
        ArrayData::Utf8(vec![
            Some("Amanda".to_string()),
            Some("Albert".to_string()),
            Some("Evelyn".to_string()),
            Some("Denise".to_string()),
        ])
    );
}

#[test]
fn test_projection() {
    let result = DataFrame::scan("people", people_source())
        .project(vec![col("first_name"), col("country")])
        .unwrap()
        .execute()
        .unwrap();
    assert_eq!(result.len(), 1);
    assert_eq!(result[0].columns.len(), 2);
    assert_eq!(
        result[0].columns[0],
        ArrayData::Utf8(vec![
            Some("Amanda".to_string()),
            Some("Albert".to_string()),
            Some("Evelyn".to_string()),
            Some("Denise".to_string()),
        ])
    );
    assert_eq!(
        result[0].columns[1],
        ArrayData::Utf8(vec![
            Some("Indonesia".to_string()),
            Some("Canada".to_string()),
            Some("Indonesia".to_string()),
            Some("Portugal".to_string()),
        ])
    );
}

#[test]
fn test_filter() {
    // Every surviving row has gender == "Female"; order is preserved.
    let result = DataFrame::scan("people", people_source())
        .filter(col("gender").eq(lit_string("Female")))
        .unwrap()
        .execute()
        .unwrap();
    assert_eq!(result.len(), 1);
    assert_eq!(result[0].columns.len(), 5);
    assert_eq!(
        result[0].columns[0],
        ArrayData::Int32(vec![Some(1), Some(3), Some(4)])
    );
    assert_eq!(
        result[0].columns[1],
        ArrayData::Utf8(vec![
            Some("Amanda".to_string()),
            Some("Evelyn".to_string()),
            Some("Denise".to_string()),
        ])
    );
    assert_eq!(
        result[0].columns[2],
        ArrayData::Utf8(vec![
            Some("Female".to_string()),
            Some("Female".to_string()),
            Some("Female".to_string()),
        ])
    );
}

#[test]
fn test_filter_by_id() {
    // Exactly the rows with id == 3 survive.
    let result = DataFrame::scan("people", people_source())
        .filter(col("id").eq(lit_int(3)))
        .unwrap()
        .execute()
        .unwrap();
    assert_eq!(result[0].columns[0], ArrayData::Int32(vec![Some(3)]));
    assert_eq!(
        result[0].columns[1],
        ArrayData::Utf8(vec![Some("Evelyn".to_string())])
    );
}

#[test]
fn test_max() {
    // One batch, two columns, one row per distinct country in
    // first-appearance order, with the per-country maximum salary.
    let result = DataFrame::scan("people", people_source())
        .aggregate(vec![col("country")], vec![max(col("salary"))])
        .unwrap()
        .execute()
        .unwrap();
    assert_eq!(result.len(), 1);
    assert_eq!(result[0].columns.len(), 2);
    assert_eq!(
        result[0].columns[0],
        ArrayData::Utf8(vec![
            Some("Indonesia".to_string()),
            Some("Canada".to_string()),
            Some("Portugal".to_string()),
        ])
    );
    assert_eq!(
        result[0].columns[1],
        ArrayData::Int32(vec![Some(80), Some(90), Some(60)])
    );
}

#[test]
fn test_min_across_batches() {
    // Accumulation spans batches: groups met again keep folding.
    let schema = Schema {
        fields: vec![field("k", DataType::Bool), field("v", DataType::Int32)],
    };
    let b1 = RecordBatch::new(vec![
        ArrayData::Bool(vec![Some(true), Some(false)]),
        ArrayData::Int32(vec![Some(7), Some(5)]),
    ]);
    let b2 = RecordBatch::new(vec![
        ArrayData::Bool(vec![Some(true), Some(false)]),
        ArrayData::Int32(vec![Some(3), Some(9)]),
    ]);
    let ds = DataSource::new(schema, vec![b1, b2]).unwrap();
    let result = DataFrame::scan("pairs", ds)
        .aggregate(vec![col("k")], vec![min(col("v"))])
        .unwrap()
        .execute()
        .unwrap();
    assert_eq!(result.len(), 1);
    assert_eq!(
        result[0].columns[0],
        ArrayData::Bool(vec![Some(true), Some(false)])
    );
    assert_eq!(result[0].columns[1], ArrayData::Int32(vec![Some(3), Some(5)]));
}

#[test]
fn test_empty_stream_projection_and_selection() {
    // An empty input stream flows through projection and selection as zero
    // batches.
    let schema = Schema { fields: vec![field("id", DataType::Int32)] };
    let ds = DataSource::new(schema, vec![]).unwrap();
    let result = DataFrame::scan("empty", ds)
        .project(vec![col("id")])
        .unwrap()
        .execute()
        .unwrap();
    assert_eq!(result.len(), 0);

    let schema = Schema { fields: vec![field("id", DataType::Int32)] };
    let ds = DataSource::new(schema, vec![]).unwrap();
    let result = DataFrame::scan("empty", ds)
        .filter(col("id").eq(lit_int(1)))
        .unwrap()
        .execute()
        .unwrap();
    assert_eq!(result.len(), 0);
}

#[test]
fn test_empty_stream_aggregate_signals_empty_hashmap() {
    // Aggregation over an empty stream finalizes with zero groups.
    let schema = Schema { fields: vec![field("id", DataType::Int32)] };
    let ds = DataSource::new(schema, vec![]).unwrap();
    let err = DataFrame::scan("empty", ds)
        .aggregate(vec![col("id")], vec![max(col("id"))])
        .unwrap()
        .execute()
        .unwrap_err();
    assert_eq!(err, Error::EmptyHashmapForAggregate);
}

#[test]
fn test_different_sizes_at_evaluation() {
    // Two array operands of different lengths surface `DifferentSizes` at
    // the first evaluation. Such a batch can only be built by hand.
    let batch = RecordBatch::new(vec![
        ArrayData::Int32(vec![Some(1), Some(2)]),
        ArrayData::Int32(vec![Some(1)]),
    ]);
    let expr = PhysicalExpression::Binary(
        query_engine::logical_expression::BinaryOp::Eq,
        Box::new(PhysicalExpression::Column(ColumnExpression { index: 0 })),
        Box::new(PhysicalExpression::Column(ColumnExpression { index: 1 })),
    );
    let err = expr.evaluate(&batch).unwrap_err();
    assert_eq!(err, Error::DifferentSizes(2, 1));
}

#[test]
fn test_exceeding_bounds() {
    let batch = RecordBatch::new(vec![ArrayData::Int32(vec![Some(1)])]);
    let expr = PhysicalExpression::Column(ColumnExpression { index: 5 });
    assert_eq!(expr.evaluate(&batch).unwrap_err(), Error::ExceedingBounds(5));
    assert_eq!(batch.field(3).unwrap_err(), Error::ExceedingBounds(3));
}

#[test]
fn test_no_boolean_array_for_filter() {
    // A predicate that evaluates to integers cannot filter.
    let result = DataFrame::scan("people", people_source())
        .filter(col("id"))
        .unwrap()
        .execute()
        .unwrap_err();
    assert!(matches!(result, Error::NoBooleanArrayForFilter));
}

#[test]
fn test_unsupported_aggregate_expression() {
    // A non-aggregate in aggregate position is refused by the planner.
    let err = DataFrame::scan("people", people_source())
        .aggregate(vec![col("country")], vec![col("salary")])
        .unwrap()
        .execute()
        .unwrap_err();
    assert_eq!(
        err,
        Error::PhysicalExpressionNotSupported("aggregate".to_string())
    );
}

#[test]
fn test_unsupported_physical_type_for_max() {
    // Min and max fold integers only; a string input is refused.
    let err = DataFrame::scan("people", people_source())
        .aggregate(vec![col("country")], vec![max(col("first_name"))])
        .unwrap()
        .execute()
        .unwrap_err();
    assert_eq!(err, Error::PhysicalTypeNotSupported("Utf8".to_string()));
}

#[test]
fn test_scalar_to_array_null_scalar() {
    let err =
        query_engine::columnar_value::scalar_to_array(&ScalarValue::Int32(None), 3).unwrap_err();
    assert_eq!(err, Error::ScalarToArrayError("Int32".to_string()));
}

#[test]
fn test_literal_projection_inflates_to_batch_length() {
    // A scalar produced by a projection is broadcast to the batch's rows.
    let result = DataFrame::scan("people", people_source())
        .project(vec![col("id"), lit_int(7)])
        .unwrap()
        .execute()
        .unwrap();
    assert_eq!(
        result[0].columns[1],
        ArrayData::Int32(vec![Some(7), Some(7), Some(7), Some(7)])
    );
}

#[test]
fn test_literal_expression_evaluates_to_scalar() {
    let batch = RecordBatch::new(vec![ArrayData::Int32(vec![Some(1), Some(2)])]);
    let expr = PhysicalExpression::LiteralInteger(LiteralIntegerExpression::new(9));
    assert_eq!(
        expr.evaluate(&batch).unwrap(),
        ColumnarValue::Scalar(ScalarValue::Int32(Some(9)))
    );
}

#[test]
fn test_comparison_with_nulls_yields_nulls() {
    // A null operand row yields a null comparison result, and the filter
    // drops that row.
    let schema = Schema { fields: vec![field("id", DataType::Int32)] };
    let batch = RecordBatch::new(vec![ArrayData::Int32(vec![Some(1), None, Some(1)])]);
    let ds = DataSource::new(schema, vec![batch]).unwrap();
    let result = DataFrame::scan("nulls", ds)
        .filter(col("id").eq(lit_int(1)))
        .unwrap()
        .execute()
        .unwrap();
    assert_eq!(result[0].columns[0], ArrayData::Int32(vec![Some(1), Some(1)]));
}
