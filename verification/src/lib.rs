//! An embeddable columnar query engine.
//!
//! A host program builds a relational query as a dataframe over an in-memory
//! columnar table, optionally narrows its scan by projection pushdown, lowers
//! it to a physical operator tree, and executes it to produce columnar
//! batches. File readers live outside this crate and hand their data in as
//! plain values.

pub mod columnar_value;
pub mod data_source;
pub mod dataframe;
pub mod display;
pub mod error;
pub mod kernels;
pub mod laws;
pub mod logical_expression;
pub mod logical_plan;
pub mod optimizer;
pub mod physical_expression;
pub mod physical_plan;
pub mod query_planner;
pub mod record_batch;
pub mod schema;
pub mod text;
