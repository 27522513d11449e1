//! Schema derivation: scans, projections, selections and aggregates derive
//! their output schemas by the documented rules.

use query_engine::columnar_value::ArrayData;
use query_engine::data_source::DataSource;
use query_engine::dataframe::DataFrame;
use query_engine::logical_expression::{
    col, lit_bool, lit_int, lit_string, max, BinaryOp, LogicalExpression,
};
use query_engine::record_batch::RecordBatch;
use query_engine::schema::{DataType, Field, Schema};

fn field(name: &str, data_type: DataType) -> Field {
    Field { name: name.to_string(), data_type, nullable: false }
}

fn test_source() -> DataSource {
    let schema = Schema {
        fields: vec![
            field("id", DataType::Int32),
            field("bool_col", DataType::Bool),
            field("name", DataType::Utf8),
        ],
    };
    let batch = RecordBatch::new(vec![
        ArrayData::Int32(vec![Some(1), Some(2), Some(3)]),
        ArrayData::Bool(vec![Some(true), Some(false), Some(true)]),
        ArrayData::Utf8(vec![
            Some("ada".to_string()),
            Some("grace".to_string()),
            Some("edsger".to_string()),
        ]),
    ]);
    DataSource::new(schema, vec![batch]).unwrap()
}

#[test]
fn test_schema() {
    let df = DataFrame::scan("table", test_source());
    let schema = df.schema();
    assert_eq!(schema.fields.len(), 3);
    assert_eq!(schema.fields[0].name, "id");
    assert_eq!(schema.fields[1].name, "bool_col");
    assert_eq!(schema.fields[2].name, "name");
    assert_eq!(schema.fields[0].data_type, DataType::Int32);
    assert_eq!(schema.fields[1].data_type, DataType::Bool);
    assert_eq!(schema.fields[2].data_type, DataType::Utf8);
}

#[test]
fn test_projection_schema_field_names() {
    // Columns keep their field; literals are named by their printable form;
    // binary operators take their canonical name.
    let df = DataFrame::scan("table", test_source())
        .project(vec![
            col("id"),
            lit_int(4),
            lit_int(-17),
            lit_bool(true),
            lit_string("abc"),
            col("id").eq(lit_int(4)),
            LogicalExpression::Binary(
                BinaryOp::Add,
                Box::new(col("id")),
                Box::new(lit_int(1)),
            ),
        ])
        .unwrap();
    let names: Vec<&str> = df.schema().fields.iter().map(|f| f.name.as_str()).collect();
    assert_eq!(names, vec!["id", "4", "-17", "true", "abc", "eq", "add"]);
    assert_eq!(df.schema().fields[5].data_type, DataType::Bool);
    assert_eq!(df.schema().fields[6].data_type, DataType::Int32);
}

#[test]
fn test_selection_schema_single_bool_field() {
    let df = DataFrame::scan("table", test_source())
        .filter(col("id").eq(lit_int(2)))
        .unwrap();
    assert_eq!(df.schema().fields.len(), 1);
    assert_eq!(df.schema().fields[0].name, "eq");
    assert_eq!(df.schema().fields[0].data_type, DataType::Bool);
}

#[test]
fn test_aggregate_schema_group_then_aggregate() {
    let df = DataFrame::scan("table", test_source())
        .aggregate(vec![col("bool_col")], vec![max(col("id"))])
        .unwrap();
    assert_eq!(df.schema().fields.len(), 2);
    assert_eq!(df.schema().fields[0].name, "bool_col");
    assert_eq!(df.schema().fields[0].data_type, DataType::Bool);
    assert_eq!(df.schema().fields[1].name, "max");
    assert_eq!(df.schema().fields[1].data_type, DataType::Int32);
}

#[test]
fn test_scan_projection_filters_schema_in_source_order() {
    let schema = Schema {
        fields: vec![
            field("a", DataType::Int32),
            field("b", DataType::Utf8),
            field("c", DataType::Bool),
        ],
    };
    let batch = RecordBatch::new(vec![
        ArrayData::Int32(vec![Some(1)]),
        ArrayData::Utf8(vec![Some("x".to_string())]),
        ArrayData::Bool(vec![Some(true)]),
    ]);
    let ds = DataSource::new(schema, vec![batch]).unwrap();
    let scan = query_engine::logical_plan::Scan::new(
        "table",
        ds,
        Some(vec!["c".to_string(), "a".to_string()]),
    );
    // Schema order follows the source, not the projection list.
    assert_eq!(scan.schema.fields.len(), 2);
    assert_eq!(scan.schema.fields[0].name, "a");
    assert_eq!(scan.schema.fields[1].name, "c");
}

#[test]
fn test_column_not_found_at_construction() {
    let err = DataFrame::scan("table", test_source())
        .project(vec![col("missing")])
        .unwrap_err();
    assert_eq!(
        err,
        query_engine::error::Error::NoFieldInLogicalPlan("missing".to_string())
    );
}
