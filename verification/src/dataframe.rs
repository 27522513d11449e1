//! The dataframe surface: a thin fluent wrapper that builds a logical plan,
//! optimizes it, lowers it, and runs it.

use vstd::prelude::*;

use crate::columnar_value::SpecArray;
use crate::data_source::DataSource;
use crate::error::{Error, SpecError};
use crate::logical_expression::{exprs_view, LogicalExpression};
use crate::logical_plan::{
    spec_aggregate_new, spec_projection_new, spec_scan_new, spec_selection_new, Aggregate,
    LogicalPlan, Projection, Scan, Selection, SpecPlan,
};
use crate::physical_plan::spec_execute;
use crate::query_planner::{lemma_lower_preserves, spec_lower_plan};
use crate::record_batch::{batches_view, RecordBatch};
use crate::schema::Schema;

verus! {

/// A query under construction: a logical plan with a fluent surface.
#[derive(Debug, PartialEq)]
pub struct DataFrame {
    plan: LogicalPlan,
}

impl View for DataFrame {
    type V = SpecPlan;

    closed spec fn view(&self) -> SpecPlan {
        self.plan@
    }
}

/// What running a dataframe yields: the plan is lowered to operators and
/// executed to completion. Projection pushdown is a separate, explicit
/// step: folding it into every run would narrow a bare scan, which
/// references no columns at all, down to zero columns.
pub open spec fn spec_df_execute(p: SpecPlan) -> Result<Seq<Seq<SpecArray>>, SpecError> {
    match spec_lower_plan(p) {
        Ok(q) => spec_execute(q),
        Err(e) => Err(e),
    }
}

impl DataFrame {
    /// The plan's schemas are all derived and its data source is well
    /// formed.
    pub closed spec fn wf(&self) -> bool {
        self.plan.wf()
    }

    fn new(plan: LogicalPlan) -> (r: Self)
        ensures
            r@ == plan@,
            plan.wf() ==> r.wf(),
    {
        DataFrame { plan }
    }

    /// Starts a dataframe as a full scan of an in-memory table.
    pub fn scan(path: &str, data_source: DataSource) -> (r: Self)
        requires
            data_source.wf(),
        ensures
            r@ == spec_scan_new(path@, data_source@, None),
            r.wf(),
    {
        Self::new(LogicalPlan::Scan(Scan::new(path, data_source, None)))
    }

    /// Wraps the current plan in a projection.
    pub fn project(self, exprs: Vec<LogicalExpression>) -> (r: Result<Self, Error>)
        requires
            self.wf(),
        ensures
            match r {
                Ok(df) => spec_projection_new(self@, exprs_view(exprs@)) == Ok::<
                    SpecPlan,
                    SpecError,
                >(df@) && df.wf(),
                Err(e) => spec_projection_new(self@, exprs_view(exprs@)) == Err::<
                    SpecPlan,
                    SpecError,
                >(e@),
            },
    {
        match Projection::new(self.plan, exprs) {
            Ok(p) => Ok(Self::new(LogicalPlan::Projection(p))),
            Err(e) => Err(e),
        }
    }

    /// Wraps the current plan in a selection.
    pub fn filter(self, expr: LogicalExpression) -> (r: Result<Self, Error>)
        requires
            self.wf(),
        ensures
            match r {
                Ok(df) => spec_selection_new(self@, expr@) == Ok::<SpecPlan, SpecError>(df@)
                    && df.wf(),
                Err(e) => spec_selection_new(self@, expr@) == Err::<SpecPlan, SpecError>(e@),
            },
    {
        match Selection::new(self.plan, expr) {
            Ok(p) => Ok(Self::new(LogicalPlan::Selection(p))),
            Err(e) => Err(e),
        }
    }

    /// Wraps the current plan in a grouped aggregation.
    pub fn aggregate(
        self,
        group_by: Vec<LogicalExpression>,
        aggregate_expr: Vec<LogicalExpression>,
    ) -> (r: Result<Self, Error>)
        requires
            self.wf(),
        ensures
            match r {
                Ok(df) => spec_aggregate_new(
                    self@,
                    exprs_view(group_by@),
                    exprs_view(aggregate_expr@),
                ) == Ok::<SpecPlan, SpecError>(df@) && df.wf(),
                Err(e) => spec_aggregate_new(
                    self@,
                    exprs_view(group_by@),
                    exprs_view(aggregate_expr@),
                ) == Err::<SpecPlan, SpecError>(e@),
            },
    {
        match Aggregate::new(self.plan, group_by, aggregate_expr) {
            Ok(p) => Ok(Self::new(LogicalPlan::Aggregate(p))),
            Err(e) => Err(e),
        }
    }

    /// The current plan's derived schema.
    pub fn schema(&self) -> (r: &Schema)
        ensures
            r@ == self@.schema(),
    {
        self.plan.schema()
    }

    /// Surrenders the built logical plan.
    pub fn logical_plan(self) -> (r: LogicalPlan)
        ensures
            r@ == self@,
            self.wf() ==> r.wf(),
    {
        self.plan
    }

    /// Lowers the plan and drains the operator tree to completion.
    pub fn execute(self) -> (r: Result<Vec<RecordBatch>, Error>)
        requires
            self.wf(),
        ensures
            match r {
                Ok(bs) => spec_df_execute(self@) == Ok::<Seq<Seq<SpecArray>>, SpecError>(
                    batches_view(bs@),
                ),
                Err(e) => spec_df_execute(self@) == Err::<Seq<Seq<SpecArray>>, SpecError>(e@),
            },
    {
        let ghost pv = self.plan@;
        let physical = match self.plan.to_physical_plan() {
            Ok(q) => q,
            Err(e) => {
                return Err(e);
            },
        };
        proof {
            lemma_lower_preserves(pv);
        }
        physical.execute()
    }
}

} // verus!
