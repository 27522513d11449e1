//! Plan rendering: the indented tree form, one node per line.

use query_engine::columnar_value::ArrayData;
use query_engine::data_source::DataSource;
use query_engine::dataframe::DataFrame;
use query_engine::display::format_logical_plan;
use query_engine::logical_expression::{col, lit_int, max};
use query_engine::record_batch::RecordBatch;
use query_engine::schema::{DataType, Field, Schema};

fn field(name: &str, data_type: DataType) -> Field {
    Field { name: name.to_string(), data_type, nullable: true }
}

fn test_source() -> DataSource {
    let schema = Schema {
        fields: vec![field("id", DataType::Int32), field("bool_col", DataType::Bool)],
    };
    let batch = RecordBatch::new(vec![
        ArrayData::Int32(vec![Some(4), Some(7)]),
        ArrayData::Bool(vec![Some(true), Some(false)]),
    ]);
    DataSource::new(schema, vec![batch]).unwrap()
}

#[test]
fn test_parquet() {
    let df = DataFrame::scan("src/tests/test.parquet", test_source())
        .filter(col("id").eq(lit_int(4)))
        .unwrap();
    assert_eq!(
        format_logical_plan(&df.logical_plan(), 0),
        "Selection: #id == '4',  \n \tScan: src/tests/test.parquet; projection=None \n"
    );
}

#[test]
fn test_format_after_push_down() {
    let df = DataFrame::scan("src/tests/test.parquet", test_source())
        .project(vec![col("id")])
        .unwrap()
        .filter(col("id").eq(lit_int(4)))
        .unwrap();
    assert_eq!(
        format_logical_plan(&df.logical_plan().optimize(), 0),
        "Selection: #id == '4',  \n \tProjection: #id,  \n \t \tScan: src/tests/test.parquet; projection=id \n"
    );
}

#[test]
fn test_format_aggregate() {
    let df = DataFrame::scan("t", test_source())
        .aggregate(vec![col("bool_col")], vec![max(col("id"))])
        .unwrap();
    assert_eq!(
        format_logical_plan(&df.logical_plan(), 0),
        "Aggregate: #bool_col, max (#id),  \n \tScan: t; projection=None \n"
    );
}
