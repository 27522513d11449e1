//! Projection pushdown: the rewritten scan projection, its soundness, and
//! idempotence of the pass, on concrete plans.

use query_engine::columnar_value::ArrayData;
use query_engine::data_source::DataSource;
use query_engine::dataframe::DataFrame;
use query_engine::logical_expression::{col, lit_int};
use query_engine::logical_plan::LogicalPlan;
use query_engine::record_batch::RecordBatch;
use query_engine::schema::{DataType, Field, Schema};

fn field(name: &str, data_type: DataType) -> Field {
    Field { name: name.to_string(), data_type, nullable: false }
}

fn test_source() -> DataSource {
    let schema = Schema {
        fields: vec![
            field("id", DataType::Int32),
            field("bool_col", DataType::Bool),
            field("value", DataType::Int32),
        ],
    };
    let batch = RecordBatch::new(vec![
        ArrayData::Int32(vec![Some(1), Some(2), Some(3), Some(4)]),
        ArrayData::Bool(vec![Some(true), Some(false), Some(true), Some(false)]),
        ArrayData::Int32(vec![Some(10), Some(20), Some(30), Some(40)]),
    ]);
    DataSource::new(schema, vec![batch]).unwrap()
}

fn scan_projection(plan: &LogicalPlan) -> Option<Vec<String>> {
    match plan {
        LogicalPlan::Scan(s) => s.projection.clone(),
        LogicalPlan::Projection(p) => scan_projection(&p.child),
        LogicalPlan::Selection(s) => scan_projection(&s.child),
        LogicalPlan::Aggregate(a) => scan_projection(&a.child),
    }
}

#[test]
fn test_projection_push_down() {
    // Projecting and filtering on `id` alone narrows the scan to `{id}`,
    // and the tree keeps its shape: selection over projection over scan.
    let df = DataFrame::scan("table", test_source())
        .project(vec![col("id")])
        .unwrap()
        .filter(col("id").eq(lit_int(4)))
        .unwrap();
    let optimized = df.logical_plan().optimize();
    assert_eq!(scan_projection(&optimized), Some(vec!["id".to_string()]));
    match &optimized {
        LogicalPlan::Selection(sel) => match &*sel.child {
            LogicalPlan::Projection(proj) => match &*proj.child {
                LogicalPlan::Scan(_) => {}
                _ => panic!("expected a scan under the projection"),
            },
            _ => panic!("expected a projection under the selection"),
        },
        _ => panic!("expected a selection at the root"),
    }
}

#[test]
fn test_push_down_unions_existing_projection() {
    // A scan that already carries a projection keeps it: the new projection
    // is the union of the referenced columns and the old set.
    let scan = query_engine::logical_plan::Scan::new(
        "table",
        test_source(),
        Some(vec!["value".to_string()]),
    );
    let plan = LogicalPlan::Scan(scan);
    let selection =
        query_engine::logical_plan::Selection::new(plan, col("id").eq(lit_int(2))).unwrap();
    let optimized = LogicalPlan::Selection(selection).optimize();
    assert_eq!(
        scan_projection(&optimized),
        Some(vec!["id".to_string(), "value".to_string()])
    );
}

#[test]
fn test_optimize_idempotent() {
    // Optimizing twice yields the very same plan as optimizing once.
    let build = || {
        DataFrame::scan("table", test_source())
            .project(vec![col("id"), col("value")])
            .unwrap()
            .filter(col("bool_col").eq(col("bool_col")))
            .unwrap()
            .logical_plan()
    };
    let once = build().optimize();
    let twice = build().optimize().optimize();
    assert_eq!(once, twice);
}

#[test]
fn test_pushdown_superset_of_referenced_columns() {
    // Every column referenced above the scan lands in its projection.
    let df = DataFrame::scan("table", test_source())
        .project(vec![col("id"), col("value")])
        .unwrap()
        .filter(col("bool_col").eq(col("bool_col")))
        .unwrap();
    let optimized = df.logical_plan().optimize();
    let projection = scan_projection(&optimized).unwrap();
    for name in ["bool_col", "id", "value"] {
        assert!(projection.contains(&name.to_string()));
    }
}

#[test]
fn test_column_not_found_at_lowering() {
    // A comparison's field derives without touching its operands, so a bad
    // column name inside a predicate passes plan construction and surfaces
    // `NoFieldInLogicalPlan` only when the planner resolves ordinals.
    let df = DataFrame::scan("table", test_source())
        .filter(col("missing").eq(lit_int(1)))
        .unwrap();
    let err = df.logical_plan().to_physical_plan().unwrap_err();
    assert_eq!(
        err,
        query_engine::error::Error::NoFieldInLogicalPlan("missing".to_string())
    );
}
