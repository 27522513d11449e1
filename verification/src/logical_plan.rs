//! Logical plans: `Scan`, `Projection`, `Selection` and `Aggregate`, each
//! carrying its derived output schema.
//!
//! Each node owns its single child by value; the tree shape makes a missing
//! child unrepresentable. Schemas are derived once, at construction, and a
//! construction that cannot resolve a column reports `NoFieldInLogicalPlan`
//! as a value instead of panicking.

use vstd::prelude::*;

use crate::data_source::{source_wf, DataSource, SpecSource};
use crate::error::{Error, SpecError};
use crate::logical_expression::{
    exprs_view, spec_to_field, spec_to_fields, LogicalExpression, SpecExpr,
};
use crate::schema::{names_view, spec_project_fields, Field, Schema, SpecField};

verus! {

/// A scan of a data source, optionally restricted to a set of column names.
#[derive(Debug, PartialEq)]
pub struct Scan {
    pub path: String,
    pub data_source: DataSource,
    pub projection: Option<Vec<String>>,
    pub schema: Schema,
}

/// Evaluation of one expression per output column over a child plan.
#[derive(Debug, PartialEq)]
pub struct Projection {
    pub exprs: Vec<LogicalExpression>,
    pub child: Box<LogicalPlan>,
    pub schema: Schema,
}

/// A filter of the child plan's rows by a boolean predicate.
#[derive(Debug, PartialEq)]
pub struct Selection {
    pub expr: LogicalExpression,
    pub child: Box<LogicalPlan>,
    pub schema: Schema,
}

/// A grouped aggregation over a child plan.
#[derive(Debug, PartialEq)]
pub struct Aggregate {
    pub group_exprs: Vec<LogicalExpression>,
    pub aggregate_exprs: Vec<LogicalExpression>,
    pub child: Box<LogicalPlan>,
    pub schema: Schema,
}

/// A logical plan: a closed sum over the four node kinds.
#[derive(Debug, PartialEq)]
pub enum LogicalPlan {
    Scan(Scan),
    Projection(Projection),
    Selection(Selection),
    Aggregate(Aggregate),
}

/// Mathematical image of a [`LogicalPlan`].
#[verifier::ext_equal]
pub enum SpecPlan {
    Scan {
        path: Seq<char>,
        source: SpecSource,
        projection: Option<Seq<Seq<char>>>,
        schema: Seq<SpecField>,
    },
    Projection { exprs: Seq<SpecExpr>, child: Box<SpecPlan>, schema: Seq<SpecField> },
    Selection { expr: SpecExpr, child: Box<SpecPlan>, schema: Seq<SpecField> },
    Aggregate {
        group_exprs: Seq<SpecExpr>,
        aggregate_exprs: Seq<SpecExpr>,
        child: Box<SpecPlan>,
        schema: Seq<SpecField>,
    },
}

/// The view of a plan tree.
pub open spec fn spec_plan_view(p: LogicalPlan) -> SpecPlan
    decreases p,
{
    match p {
        LogicalPlan::Scan(s) => SpecPlan::Scan {
            path: s.path@,
            source: s.data_source@,
            projection: match s.projection {
                Some(names) => Some(names_view(names@)),
                None => None,
            },
            schema: s.schema@,
        },
        LogicalPlan::Projection(p) => SpecPlan::Projection {
            exprs: exprs_view(p.exprs@),
            child: Box::new(spec_plan_view(*p.child)),
            schema: p.schema@,
        },
        LogicalPlan::Selection(s) => SpecPlan::Selection {
            expr: s.expr@,
            child: Box::new(spec_plan_view(*s.child)),
            schema: s.schema@,
        },
        LogicalPlan::Aggregate(a) => SpecPlan::Aggregate {
            group_exprs: exprs_view(a.group_exprs@),
            aggregate_exprs: exprs_view(a.aggregate_exprs@),
            child: Box::new(spec_plan_view(*a.child)),
            schema: a.schema@,
        },
    }
}

impl View for LogicalPlan {
    type V = SpecPlan;

    open spec fn view(&self) -> SpecPlan {
        spec_plan_view(*self)
    }
}

impl SpecPlan {
    /// The plan's cached output schema.
    pub open spec fn schema(self) -> Seq<SpecField> {
        match self {
            SpecPlan::Scan { schema, .. } => schema,
            SpecPlan::Projection { schema, .. } => schema,
            SpecPlan::Selection { schema, .. } => schema,
            SpecPlan::Aggregate { schema, .. } => schema,
        }
    }
}

/// The schema a scan derives: the source's schema filtered, in source order,
/// by the projection set when one is given.
pub open spec fn spec_scan_schema(
    source_schema: Seq<SpecField>,
    projection: Option<Seq<Seq<char>>>,
) -> Seq<SpecField> {
    match projection {
        Some(names) => spec_project_fields(source_schema, names),
        None => source_schema,
    }
}

/// The scan node built from a source and a projection.
pub open spec fn spec_scan_new(
    path: Seq<char>,
    source: SpecSource,
    projection: Option<Seq<Seq<char>>>,
) -> SpecPlan {
    SpecPlan::Scan {
        path,
        source,
        projection,
        schema: spec_scan_schema(source.schema, projection),
    }
}

/// The projection node built over `child`, or the leftmost inference error.
pub open spec fn spec_projection_new(child: SpecPlan, exprs: Seq<SpecExpr>) -> Result<
    SpecPlan,
    SpecError,
> {
    match spec_to_fields(exprs, child.schema()) {
        Ok(fs) => Ok(SpecPlan::Projection { exprs, child: Box::new(child), schema: fs }),
        Err(e) => Err(e),
    }
}

/// The selection node built over `child`, or the inference error.
pub open spec fn spec_selection_new(child: SpecPlan, expr: SpecExpr) -> Result<
    SpecPlan,
    SpecError,
> {
    match spec_to_field(expr, child.schema()) {
        Ok(f) => Ok(SpecPlan::Selection { expr, child: Box::new(child), schema: seq![f] }),
        Err(e) => Err(e),
    }
}

/// The aggregate node built over `child`: group fields followed by aggregate
/// fields, or the leftmost inference error.
pub open spec fn spec_aggregate_new(
    child: SpecPlan,
    group_exprs: Seq<SpecExpr>,
    aggregate_exprs: Seq<SpecExpr>,
) -> Result<SpecPlan, SpecError> {
    match spec_to_fields(group_exprs + aggregate_exprs, child.schema()) {
        Ok(fs) => Ok(
            SpecPlan::Aggregate {
                group_exprs,
                aggregate_exprs,
                child: Box::new(child),
                schema: fs,
            },
        ),
        Err(e) => Err(e),
    }
}

/// Every node's cached schema is the one derived from its children and its
/// own expressions, and every scan's source is well formed.
pub open spec fn plan_wf(p: SpecPlan) -> bool
    decreases p,
{
    match p {
        SpecPlan::Scan { source, projection, schema, .. } => source_wf(source) && schema
            == spec_scan_schema(source.schema, projection),
        SpecPlan::Projection { exprs, child, schema } => plan_wf(*child) && spec_to_fields(
            exprs,
            child.schema(),
        ) == Ok::<Seq<SpecField>, SpecError>(schema),
        SpecPlan::Selection { expr, child, schema } => plan_wf(*child) && match spec_to_field(
            expr,
            child.schema(),
        ) {
            Ok(f) => schema == seq![f],
            Err(_) => false,
        },
        SpecPlan::Aggregate { group_exprs, aggregate_exprs, child, schema } => plan_wf(*child)
            && spec_to_fields(group_exprs + aggregate_exprs, child.schema()) == Ok::<
            Seq<SpecField>,
            SpecError,
        >(schema),
    }
}

impl LogicalPlan {
    /// Every cached schema in the tree is the derived one.
    pub open spec fn wf(&self) -> bool {
        plan_wf(self@)
    }

    /// The plan's derived output schema.
    pub fn schema(&self) -> (r: &Schema)
        ensures
            r@ == self@.schema(),
    {
        match self {
            LogicalPlan::Scan(s) => &s.schema,
            LogicalPlan::Projection(p) => &p.schema,
            LogicalPlan::Selection(s) => &s.schema,
            LogicalPlan::Aggregate(a) => &a.schema,
        }
    }
}

impl LogicalExpression {
    /// Infers the field this expression produces against the schema of
    /// `input`.
    pub fn to_field(&self, input: &LogicalPlan) -> (r: Result<Field, Error>)
        ensures
            match r {
                Ok(f) => spec_to_field(self@, input@.schema()) == Ok::<SpecField, SpecError>(f@),
                Err(e) => spec_to_field(self@, input@.schema()) == Err::<SpecField, SpecError>(
                    e@,
                ),
            },
    {
        self.to_field_in(input.schema())
    }
}

impl Scan {
    /// Builds a scan of `data_source`, its schema derived by filtering the
    /// source's schema by `projection` when one is given.
    pub fn new(path: &str, data_source: DataSource, projection: Option<Vec<String>>) -> (r: Self)
        requires
            data_source.wf(),
        ensures
            LogicalPlan::Scan(r)@ == spec_scan_new(
                path@,
                data_source@,
                match projection {
                    Some(names) => Some(names_view(names@)),
                    None => None,
                },
            ),
            LogicalPlan::Scan(r).wf(),
    {
        let schema = Self::derive_schema(&data_source, &projection);
        Scan { path: path.to_owned(), data_source, projection, schema }
    }

    fn derive_schema(data_source: &DataSource, projection: &Option<Vec<String>>) -> (r: Schema)
        ensures
            r@ == spec_scan_schema(
                data_source@.schema,
                match projection {
                    Some(names) => Some(names_view(names@)),
                    None => None,
                },
            ),
    {
        match projection {
            Some(names) => {
                let src = data_source.schema();
                Schema { fields: crate::schema::project_field_vec(&src.fields, names) }
            },
            None => data_source.schema(),
        }
    }
}

impl Projection {
    /// Builds a projection over `input`; fails with `NoFieldInLogicalPlan`
    /// when an expression references a column `input` does not provide.
    pub fn new(input: LogicalPlan, exprs: Vec<LogicalExpression>) -> (r: Result<Self, Error>)
        ensures
            match r {
                Ok(p) => spec_projection_new(input@, exprs_view(exprs@)) == Ok::<
                    SpecPlan,
                    SpecError,
                >(LogicalPlan::Projection(p)@),
                Err(e) => spec_projection_new(input@, exprs_view(exprs@)) == Err::<
                    SpecPlan,
                    SpecError,
                >(e@),
            },
            r is Ok && input.wf() ==> LogicalPlan::Projection(r->Ok_0).wf(),
    {
        let fields = match crate::logical_expression::to_fields_from(&exprs, 0, input.schema()) {
            Ok(fs) => fs,
            Err(e) => {
                proof {
                    assert(exprs_view(exprs@).skip(0) =~= exprs_view(exprs@));
                }
                return Err(e);
            },
        };
        proof {
            assert(exprs_view(exprs@).skip(0) =~= exprs_view(exprs@));
        }
        Ok(Projection { exprs, child: Box::new(input), schema: Schema { fields } })
    }
}

impl Selection {
    /// Builds a selection over `input`; the derived schema is the single
    /// field of the predicate expression.
    pub fn new(input: LogicalPlan, expr: LogicalExpression) -> (r: Result<Self, Error>)
        ensures
            match r {
                Ok(p) => spec_selection_new(input@, expr@) == Ok::<SpecPlan, SpecError>(
                    LogicalPlan::Selection(p)@,
                ),
                Err(e) => spec_selection_new(input@, expr@) == Err::<SpecPlan, SpecError>(e@),
            },
            r is Ok && input.wf() ==> LogicalPlan::Selection(r->Ok_0).wf(),
    {
        let f = match expr.to_field_in(input.schema()) {
            Ok(f) => f,
            Err(e) => {
                return Err(e);
            },
        };
        let mut fields: Vec<Field> = Vec::new();
        fields.push(f);
        let r = Selection { expr, child: Box::new(input), schema: Schema { fields } };
        proof {
            assert(r.schema@ =~= seq![spec_to_field(r.expr@, r.child@.schema())->Ok_0]);
        }
        Ok(r)
    }
}

impl Aggregate {
    /// Builds an aggregate over `input`; the derived schema is the group
    /// fields followed by the aggregate fields.
    pub fn new(
        input: LogicalPlan,
        group_exprs: Vec<LogicalExpression>,
        aggregate_exprs: Vec<LogicalExpression>,
    ) -> (r: Result<Self, Error>)
        ensures
            match r {
                Ok(p) => spec_aggregate_new(
                    input@,
                    exprs_view(group_exprs@),
                    exprs_view(aggregate_exprs@),
                ) == Ok::<SpecPlan, SpecError>(LogicalPlan::Aggregate(p)@),
                Err(e) => spec_aggregate_new(
                    input@,
                    exprs_view(group_exprs@),
                    exprs_view(aggregate_exprs@),
                ) == Err::<SpecPlan, SpecError>(e@),
            },
            r is Ok && input.wf() ==> LogicalPlan::Aggregate(r->Ok_0).wf(),
    {
        let combined = derive_aggregate_fields(&group_exprs, &aggregate_exprs, input.schema());
        let fields = match combined {
            Ok(fs) => fs,
            Err(e) => {
                return Err(e);
            },
        };
        Ok(
            Aggregate {
                group_exprs,
                aggregate_exprs,
                child: Box::new(input),
                schema: Schema { fields },
            },
        )
    }
}

/// Infers the fields of the group expressions followed by the aggregate
/// expressions, stopping at the leftmost error.
fn derive_aggregate_fields(
    group_exprs: &Vec<LogicalExpression>,
    aggregate_exprs: &Vec<LogicalExpression>,
    schema: &Schema,
) -> (r: Result<Vec<Field>, Error>)
    ensures
        match r {
            Ok(fs) => spec_to_fields(
                exprs_view(group_exprs@) + exprs_view(aggregate_exprs@),
                schema@,
            ) == Ok::<Seq<SpecField>, SpecError>(fs@.map_values(|f: Field| f@)),
            Err(e) => spec_to_fields(
                exprs_view(group_exprs@) + exprs_view(aggregate_exprs@),
                schema@,
            ) == Err::<Seq<SpecField>, SpecError>(e@),
        },
{
    let ghost combined = exprs_view(group_exprs@) + exprs_view(aggregate_exprs@);
    let g = match crate::logical_expression::to_fields_from(group_exprs, 0, schema) {
        Ok(fs) => fs,
        Err(e) => {
            proof {
                lemma_to_fields_append(
                    exprs_view(group_exprs@),
                    exprs_view(aggregate_exprs@),
                    schema@,
                );
                assert(exprs_view(group_exprs@).skip(0) =~= exprs_view(group_exprs@));
            }
            return Err(e);
        },
    };
    let mut a = match crate::logical_expression::to_fields_from(aggregate_exprs, 0, schema) {
        Ok(fs) => fs,
        Err(e) => {
            proof {
                lemma_to_fields_append(
                    exprs_view(group_exprs@),
                    exprs_view(aggregate_exprs@),
                    schema@,
                );
                assert(exprs_view(group_exprs@).skip(0) =~= exprs_view(group_exprs@));
                assert(exprs_view(aggregate_exprs@).skip(0) =~= exprs_view(aggregate_exprs@));
            }
            return Err(e);
        },
    };
    let ghost gv = g@;
    let ghost av = a@;
    let mut out = g;
    out.append(&mut a);
    proof {
        lemma_to_fields_append(exprs_view(group_exprs@), exprs_view(aggregate_exprs@), schema@);
        assert(exprs_view(group_exprs@).skip(0) =~= exprs_view(group_exprs@));
        assert(exprs_view(aggregate_exprs@).skip(0) =~= exprs_view(aggregate_exprs@));
        assert(out@.map_values(|f: Field| f@) =~= gv.map_values(|f: Field| f@) + av.map_values(
            |f: Field| f@,
        ));
    }
    Ok(out)
}

/// Field inference distributes over concatenation of expression lists.
pub proof fn lemma_to_fields_append(xs: Seq<SpecExpr>, ys: Seq<SpecExpr>, s: Seq<SpecField>)
    ensures
        spec_to_fields(xs + ys, s) == match (spec_to_fields(xs, s), spec_to_fields(ys, s)) {
            (Ok(a), Ok(b)) => Ok::<Seq<SpecField>, SpecError>(a + b),
            (Err(e), _) => Err::<Seq<SpecField>, SpecError>(e),
            (Ok(_), Err(e)) => Err::<Seq<SpecField>, SpecError>(e),
        },
    decreases xs.len(),
{
    if xs.len() == 0 {
        assert(xs + ys =~= ys);
        match spec_to_fields(ys, s) {
            Ok(b) => {
                assert(spec_to_fields(xs, s) == Ok::<Seq<SpecField>, SpecError>(Seq::empty()));
                assert(Seq::<SpecField>::empty() + b =~= b);
            },
            Err(_) => {},
        }
    } else {
        assert((xs + ys)[0] == xs[0]);
        assert((xs + ys).drop_first() =~= xs.drop_first() + ys);
        lemma_to_fields_append(xs.drop_first(), ys, s);
        match spec_to_field(xs[0], s) {
            Ok(f) => {
                match (spec_to_fields(xs.drop_first(), s), spec_to_fields(ys, s)) {
                    (Ok(a), Ok(b)) => {
                        assert(seq![f] + (a + b) =~= (seq![f] + a) + b);
                    },
                    _ => {},
                }
            },
            Err(_) => {},
        }
    }
}

} // verus!
