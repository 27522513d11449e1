//! Execution operators: `ScanExec`, `ProjectionExec`, `SelectionExec` and
//! `AggregateExec`, each producing a single-pass sequence of batches.
//!
//! `execute` drains the operator tree eagerly: each operator consumes its
//! child's batches in order and produces its own, so row order within a
//! batch and batch order across the stream are preserved everywhere except
//! through the aggregate, which erases order and emits one batch.

use vstd::prelude::*;

use crate::columnar_value::{ArrayData, ScalarValue, SpecArray, SpecColumnar, SpecScalar, spec_to_array};
use crate::data_source::{spec_scan, source_wf, DataSource, SpecSource};
use crate::error::{Error, SpecError};
use crate::kernels::{filter_array, spec_filter_array};
use crate::logical_expression::AggregateOp;
use crate::physical_expression::{pexprs_view, spec_evaluate, PhysicalExpression, SpecPExpr};
use crate::record_batch::{batches_view, cols_view, spec_num_rows, RecordBatch};
use crate::schema::{names_view, DataType, Schema, SpecField};

verus! {

/// A scan of a data source, optionally restricted to a set of column names.
#[derive(Debug, PartialEq)]
pub struct ScanExec {
    pub data_source: DataSource,
    pub projection: Option<Vec<String>>,
    pub schema: Schema,
}

/// Evaluation of one expression per output column over an input operator.
#[derive(Debug, PartialEq)]
pub struct ProjectionExec {
    pub input: Box<PhysicalPlan>,
    pub schema: Schema,
    pub exprs: Vec<PhysicalExpression>,
}

/// A filter of the input operator's rows by a boolean predicate.
#[derive(Debug, PartialEq)]
pub struct SelectionExec {
    pub input: Box<PhysicalPlan>,
    pub schema: Schema,
    pub expr: PhysicalExpression,
}

/// A grouped aggregation over an input operator.
#[derive(Debug, PartialEq)]
pub struct AggregateExec {
    pub input: Box<PhysicalPlan>,
    pub schema: Schema,
    pub group_exprs: Vec<PhysicalExpression>,
    pub agg_exprs: Vec<PhysicalExpression>,
}

/// A physical plan: a closed sum over the four operators.
#[derive(Debug, PartialEq)]
pub enum PhysicalPlan {
    Scan(ScanExec),
    Projection(ProjectionExec),
    Selection(SelectionExec),
    Aggregate(AggregateExec),
}

/// Mathematical image of a [`PhysicalPlan`].
#[verifier::ext_equal]
pub enum SpecPPlan {
    Scan { source: SpecSource, projection: Option<Seq<Seq<char>>>, schema: Seq<SpecField> },
    Projection { input: Box<SpecPPlan>, exprs: Seq<SpecPExpr>, schema: Seq<SpecField> },
    Selection { input: Box<SpecPPlan>, expr: SpecPExpr, schema: Seq<SpecField> },
    Aggregate {
        input: Box<SpecPPlan>,
        group_exprs: Seq<SpecPExpr>,
        agg_exprs: Seq<SpecPExpr>,
        schema: Seq<SpecField>,
    },
}

/// The view of a physical plan tree.
pub open spec fn spec_pplan_view(p: PhysicalPlan) -> SpecPPlan
    decreases p,
{
    match p {
        PhysicalPlan::Scan(s) => SpecPPlan::Scan {
            source: s.data_source@,
            projection: match s.projection {
                Some(names) => Some(names_view(names@)),
                None => None,
            },
            schema: s.schema@,
        },
        PhysicalPlan::Projection(x) => SpecPPlan::Projection {
            input: Box::new(spec_pplan_view(*x.input)),
            exprs: pexprs_view(x.exprs@),
            schema: x.schema@,
        },
        PhysicalPlan::Selection(x) => SpecPPlan::Selection {
            input: Box::new(spec_pplan_view(*x.input)),
            expr: x.expr@,
            schema: x.schema@,
        },
        PhysicalPlan::Aggregate(x) => SpecPPlan::Aggregate {
            input: Box::new(spec_pplan_view(*x.input)),
            group_exprs: pexprs_view(x.group_exprs@),
            agg_exprs: pexprs_view(x.agg_exprs@),
            schema: x.schema@,
        },
    }
}

impl View for PhysicalPlan {
    type V = SpecPPlan;

    open spec fn view(&self) -> SpecPPlan {
        spec_pplan_view(*self)
    }
}

impl SpecPPlan {
    /// The operator's cached output schema.
    pub open spec fn schema(self) -> Seq<SpecField> {
        match self {
            SpecPPlan::Scan { schema, .. } => schema,
            SpecPPlan::Projection { schema, .. } => schema,
            SpecPPlan::Selection { schema, .. } => schema,
            SpecPPlan::Aggregate { schema, .. } => schema,
        }
    }
}

/// Every scan's data source in the tree is well formed.
pub open spec fn pplan_sources_wf(p: SpecPPlan) -> bool
    decreases p,
{
    match p {
        SpecPPlan::Scan { source, .. } => source_wf(source),
        SpecPPlan::Projection { input, .. } => pplan_sources_wf(*input),
        SpecPPlan::Selection { input, .. } => pplan_sources_wf(*input),
        SpecPPlan::Aggregate { input, .. } => pplan_sources_wf(*input),
    }
}

// ---------------------------------------------------------------------------
// Projection semantics.
// ---------------------------------------------------------------------------
/// One projected batch: each expression evaluated over the input batch and
/// inflated to the input batch's row count, in expression order.
pub open spec fn spec_project_batch(es: Seq<SpecPExpr>, batch: Seq<SpecArray>) -> Result<
    Seq<SpecArray>,
    SpecError,
>
    decreases es.len(),
{
    if es.len() == 0 {
        Ok(Seq::empty())
    } else {
        match spec_evaluate(es[0], batch) {
            Ok(cv) => match spec_to_array(cv, spec_num_rows(batch)) {
                Ok(a) => match spec_project_batch(es.drop_first(), batch) {
                    Ok(rest) => Ok(seq![a] + rest),
                    Err(e) => Err(e),
                },
                Err(e) => Err(e),
            },
            Err(e) => Err(e),
        }
    }
}

/// The projected stream: each input batch projected, stopping at the first
/// error.
pub open spec fn spec_project_batches(es: Seq<SpecPExpr>, batches: Seq<Seq<SpecArray>>) -> Result<
    Seq<Seq<SpecArray>>,
    SpecError,
>
    decreases batches.len(),
{
    if batches.len() == 0 {
        Ok(Seq::empty())
    } else {
        match spec_project_batch(es, batches[0]) {
            Ok(b) => match spec_project_batches(es, batches.drop_first()) {
                Ok(rest) => Ok(seq![b] + rest),
                Err(e) => Err(e),
            },
            Err(e) => Err(e),
        }
    }
}

// ---------------------------------------------------------------------------
// Selection semantics.
// ---------------------------------------------------------------------------
/// One filtered batch: the predicate is evaluated, inflated to the batch's
/// row count, required to be a boolean array, and every column is filtered
/// by it.
pub open spec fn spec_select_batch(pred: SpecPExpr, batch: Seq<SpecArray>) -> Result<
    Seq<SpecArray>,
    SpecError,
>  {
    match spec_evaluate(pred, batch) {
        Ok(cv) => match spec_to_array(cv, spec_num_rows(batch)) {
            Ok(a) => match a {
                SpecArray::Bool(mask) => Ok(
                    batch.map_values(|c: SpecArray| spec_filter_array(c, mask)),
                ),
                _ => Err(SpecError::NoBooleanArrayForFilter),
            },
            Err(e) => Err(e),
        },
        Err(e) => Err(e),
    }
}

/// The filtered stream: each input batch filtered, stopping at the first
/// error.
pub open spec fn spec_select_batches(pred: SpecPExpr, batches: Seq<Seq<SpecArray>>) -> Result<
    Seq<Seq<SpecArray>>,
    SpecError,
>
    decreases batches.len(),
{
    if batches.len() == 0 {
        Ok(Seq::empty())
    } else {
        match spec_select_batch(pred, batches[0]) {
            Ok(b) => match spec_select_batches(pred, batches.drop_first()) {
                Ok(rest) => Ok(seq![b] + rest),
                Err(e) => Err(e),
            },
            Err(e) => Err(e),
        }
    }
}

// ---------------------------------------------------------------------------
// The executable operators (scan, projection, selection).
// ---------------------------------------------------------------------------
/// Projects the expressions `es[i..]` over one batch.
fn project_batch_from(es: &Vec<PhysicalExpression>, i: usize, batch: &RecordBatch) -> (r: Result<
    Vec<ArrayData>,
    Error,
>)
    requires
        i <= es@.len(),
    ensures
        match r {
            Ok(cols) => spec_project_batch(pexprs_view(es@).skip(i as int), batch@) == Ok::<
                Seq<SpecArray>,
                SpecError,
            >(cols_view(cols@)),
            Err(e) => spec_project_batch(pexprs_view(es@).skip(i as int), batch@) == Err::<
                Seq<SpecArray>,
                SpecError,
            >(e@),
        },
    decreases es@.len() - i,
{
    let ghost tail = pexprs_view(es@).skip(i as int);
    if i == es.len() {
        let out: Vec<ArrayData> = Vec::new();
        proof {
            assert(tail =~= Seq::<SpecPExpr>::empty());
            assert(cols_view(out@) =~= Seq::<SpecArray>::empty());
        }
        Ok(out)
    } else {
        proof {
            assert(tail[0] == es@[i as int]@);
            assert(tail.drop_first() =~= pexprs_view(es@).skip(i + 1));
        }
        let cv = match es[i].evaluate(batch) {
            Ok(v) => v,
            Err(e) => {
                return Err(e);
            },
        };
        let rows = batch.row_count();
        let a = match cv.to_array(rows) {
            Ok(a) => a,
            Err(e) => {
                return Err(e);
            },
        };
        let mut rest = match project_batch_from(es, i + 1, batch) {
            Ok(cols) => cols,
            Err(e) => {
                return Err(e);
            },
        };
        let ghost restv = rest@;
        let mut out: Vec<ArrayData> = Vec::new();
        out.push(a);
        out.append(&mut rest);
        proof {
            assert(cols_view(out@) =~= seq![a@] + cols_view(restv));
        }
        Ok(out)
    }
}

/// Filters every column of the batch by the boolean mask.
fn filter_batch(batch: &RecordBatch, mask: &Vec<Option<bool>>) -> (r: RecordBatch)
    ensures
        r@ == batch@.map_values(|c: SpecArray| spec_filter_array(c, mask@)),
{
    let n = batch.columns.len();
    let mut out: Vec<ArrayData> = Vec::new();
    let mut i: usize = 0;
    while i < n
        invariant
            i <= n,
            n == batch.columns@.len(),
            out@.len() == i,
            forall|j: int|
                0 <= j < i ==> #[trigger] out@[j]@ == spec_filter_array(
                    batch.columns@[j]@,
                    mask@,
                ),
        decreases n - i,
    {
        out.push(filter_array(&batch.columns[i], mask));
        i = i + 1;
    }
    let r = RecordBatch::new(out);
    proof {
        assert(r@ =~= batch@.map_values(|c: SpecArray| spec_filter_array(c, mask@)));
    }
    r
}

/// Filters one batch by the predicate.
fn select_batch(pred: &PhysicalExpression, batch: &RecordBatch) -> (r: Result<RecordBatch, Error>)
    ensures
        match r {
            Ok(b) => spec_select_batch(pred@, batch@) == Ok::<Seq<SpecArray>, SpecError>(b@),
            Err(e) => spec_select_batch(pred@, batch@) == Err::<Seq<SpecArray>, SpecError>(e@),
        },
{
    let cv = match pred.evaluate(batch) {
        Ok(v) => v,
        Err(e) => {
            return Err(e);
        },
    };
    let rows = batch.row_count();
    let a = match cv.to_array(rows) {
        Ok(a) => a,
        Err(e) => {
            return Err(e);
        },
    };
    match a {
        ArrayData::Bool(mask) => Ok(filter_batch(batch, &mask)),
        _ => Err(Error::NoBooleanArrayForFilter),
    }
}

impl ProjectionExec {
    /// Builds a projection operator over `input`.
    pub fn new(input: Box<PhysicalPlan>, exprs: Vec<PhysicalExpression>, schema: Schema) -> (r:
        Self)
        ensures
            r.input == input,
            r.exprs == exprs,
            r.schema == schema,
    {
        ProjectionExec { input, schema, exprs }
    }
}

impl SelectionExec {
    /// Builds a selection operator over `input`.
    pub fn new(input: Box<PhysicalPlan>, expr: PhysicalExpression, schema: Schema) -> (r: Self)
        ensures
            r.input == input,
            r.expr == expr,
            r.schema == schema,
    {
        SelectionExec { input, schema, expr }
    }
}

impl AggregateExec {
    /// Builds an aggregation operator over `input`.
    pub fn new(
        input: Box<PhysicalPlan>,
        group_exprs: Vec<PhysicalExpression>,
        agg_exprs: Vec<PhysicalExpression>,
        schema: Schema,
    ) -> (r: Self)
        ensures
            r.input == input,
            r.group_exprs == group_exprs,
            r.agg_exprs == agg_exprs,
            r.schema == schema,
    {
        AggregateExec { input, schema, group_exprs, agg_exprs }
    }
}

impl PhysicalPlan {
    /// The operator's one child, if it has one.
    pub fn children(&self) -> (r: Option<&PhysicalPlan>)
        ensures
            match r {
                Some(c) => !(self@ is Scan) && c@ == match self@ {
                    SpecPPlan::Projection { input, .. } => *input,
                    SpecPPlan::Selection { input, .. } => *input,
                    SpecPPlan::Aggregate { input, .. } => *input,
                    SpecPPlan::Scan { .. } => self@,
                },
                None => self@ is Scan,
            },
    {
        match self {
            PhysicalPlan::Scan(_) => None,
            PhysicalPlan::Projection(x) => Some(&x.input),
            PhysicalPlan::Selection(x) => Some(&x.input),
            PhysicalPlan::Aggregate(x) => Some(&x.input),
        }
    }

    /// The operator's output schema.
    pub fn schema(&self) -> (r: &Schema)
        ensures
            r@ == self@.schema(),
    {
        match self {
            PhysicalPlan::Scan(s) => &s.schema,
            PhysicalPlan::Projection(x) => &x.schema,
            PhysicalPlan::Selection(x) => &x.schema,
            PhysicalPlan::Aggregate(x) => &x.schema,
        }
    }

    /// Runs the operator tree to completion and returns its batches in
    /// order.
    pub fn execute(self) -> (r: Result<Vec<RecordBatch>, Error>)
        requires
            pplan_sources_wf(self@),
        ensures
            match r {
                Ok(bs) => spec_execute(self@) == Ok::<Seq<Seq<SpecArray>>, SpecError>(
                    batches_view(bs@),
                ),
                Err(e) => spec_execute(self@) == Err::<Seq<Seq<SpecArray>>, SpecError>(e@),
            },
        decreases self,
    {
        match self {
            PhysicalPlan::Scan(s) => Ok(s.data_source.scan(s.projection)),
            PhysicalPlan::Projection(x) => {
                let batches = match x.input.execute() {
                    Ok(bs) => bs,
                    Err(e) => {
                        return Err(e);
                    },
                };
                let ghost bsv = batches_view(batches@);
                proof {
                    assert(spec_execute(self@) == spec_project_batches(
                        pexprs_view(x.exprs@),
                        bsv,
                    ));
                }
                let n = batches.len();
                let mut out: Vec<RecordBatch> = Vec::new();
                let mut i: usize = 0;
                while i < n
                    invariant
                        i <= n,
                        n == batches@.len(),
                        bsv == batches_view(batches@),
                        spec_execute(self@) == spec_project_batches(pexprs_view(x.exprs@), bsv),
                        out@.len() == i,
                        forall|j: int|
                            0 <= j < i ==> spec_project_batch(pexprs_view(x.exprs@), bsv[j])
                                == Ok::<Seq<SpecArray>, SpecError>(#[trigger] out@[j]@),
                    decreases n - i,
                {
                    assert(bsv[i as int] == batches@[i as int]@);
                    let cols = match project_batch_from(&x.exprs, 0, &batches[i]) {
                        Ok(cols) => cols,
                        Err(e) => {
                            proof {
                                assert(pexprs_view(x.exprs@).skip(0) =~= pexprs_view(x.exprs@));
                                assert forall|j: int|
                                    0 <= j < i implies spec_project_batch(
                                    pexprs_view(x.exprs@),
                                    #[trigger] bsv[j],
                                ) is Ok by {
                                    assert(spec_project_batch(pexprs_view(x.exprs@), bsv[j])
                                        == Ok::<Seq<SpecArray>, SpecError>(out@[j]@));
                                }
                                lemma_project_batches_prefix_err(
                                    pexprs_view(x.exprs@),
                                    bsv,
                                    i as int,
                                    e@,
                                );
                            }
                            return Err(e);
                        },
                    };
                    proof {
                        assert(pexprs_view(x.exprs@).skip(0) =~= pexprs_view(x.exprs@));
                    }
                    out.push(RecordBatch::new(cols));
                    proof {
                        assert(out@[i as int]@ == cols_view(cols@));
                    }
                    i = i + 1;
                }
                proof {
                    assert forall|j: int|
                        0 <= j < bsv.len() implies spec_project_batch(
                        pexprs_view(x.exprs@),
                        #[trigger] bsv[j],
                    ) == Ok::<Seq<SpecArray>, SpecError>(batches_view(out@)[j]) by {
                        assert(batches_view(out@)[j] == out@[j]@);
                        assert(spec_project_batch(pexprs_view(x.exprs@), bsv[j]) == Ok::<
                            Seq<SpecArray>,
                            SpecError,
                        >(out@[j]@));
                    }
                    lemma_project_batches_prefix_ok(
                        pexprs_view(x.exprs@),
                        bsv,
                        batches_view(out@),
                    );
                }
                Ok(out)
            },
            PhysicalPlan::Selection(x) => {
                let batches = match x.input.execute() {
                    Ok(bs) => bs,
                    Err(e) => {
                        return Err(e);
                    },
                };
                let ghost bsv = batches_view(batches@);
                proof {
                    assert(spec_execute(self@) == spec_select_batches(x.expr@, bsv));
                }
                let n = batches.len();
                let mut out: Vec<RecordBatch> = Vec::new();
                let mut i: usize = 0;
                while i < n
                    invariant
                        i <= n,
                        n == batches@.len(),
                        bsv == batches_view(batches@),
                        spec_execute(self@) == spec_select_batches(x.expr@, bsv),
                        out@.len() == i,
                        forall|j: int|
                            0 <= j < i ==> spec_select_batch(x.expr@, bsv[j]) == Ok::<
                                Seq<SpecArray>,
                                SpecError,
                            >(#[trigger] out@[j]@),
                    decreases n - i,
                {
                    assert(bsv[i as int] == batches@[i as int]@);
                    let b = match select_batch(&x.expr, &batches[i]) {
                        Ok(b) => b,
                        Err(e) => {
                            proof {
                                assert forall|j: int|
                                    0 <= j < i implies spec_select_batch(
                                    x.expr@,
                                    #[trigger] bsv[j],
                                ) is Ok by {
                                    assert(spec_select_batch(x.expr@, bsv[j]) == Ok::<
                                        Seq<SpecArray>,
                                        SpecError,
                                    >(out@[j]@));
                                }
                                lemma_select_batches_prefix_err(x.expr@, bsv, i as int, e@);
                            }
                            return Err(e);
                        },
                    };
                    out.push(b);
                    i = i + 1;
                }
                proof {
                    assert forall|j: int|
                        0 <= j < bsv.len() implies spec_select_batch(
                        x.expr@,
                        #[trigger] bsv[j],
                    ) == Ok::<Seq<SpecArray>, SpecError>(batches_view(out@)[j]) by {
                        assert(batches_view(out@)[j] == out@[j]@);
                        assert(spec_select_batch(x.expr@, bsv[j]) == Ok::<
                            Seq<SpecArray>,
                            SpecError,
                        >(out@[j]@));
                    }
                    lemma_select_batches_prefix_ok(x.expr@, bsv, batches_view(out@));
                }
                Ok(out)
            },
            PhysicalPlan::Aggregate(x) => {
                let batches = match x.input.execute() {
                    Ok(bs) => bs,
                    Err(e) => {
                        return Err(e);
                    },
                };
                aggregate_batches(&x.group_exprs, &x.agg_exprs, batches)
            },
        }
    }
}

/// Execution of an operator tree: the scan yields the source's batches;
/// projection and selection map their batch transformation over the child's
/// stream; the aggregate folds the whole stream into one batch.
pub open spec fn spec_execute(p: SpecPPlan) -> Result<Seq<Seq<SpecArray>>, SpecError>
    decreases p,
{
    match p {
        SpecPPlan::Scan { source, projection, .. } => Ok(spec_scan(source, projection)),
        SpecPPlan::Projection { input, exprs, .. } => match spec_execute(*input) {
            Ok(bs) => spec_project_batches(exprs, bs),
            Err(e) => Err(e),
        },
        SpecPPlan::Selection { input, expr, .. } => match spec_execute(*input) {
            Ok(bs) => spec_select_batches(expr, bs),
            Err(e) => Err(e),
        },
        SpecPPlan::Aggregate { input, group_exprs, agg_exprs, .. } => match spec_execute(*input) {
            Ok(bs) => spec_aggregate_batches(group_exprs, agg_exprs, bs),
            Err(e) => Err(e),
        },
    }
}

/// If each of the first batches projects cleanly and batch `i` fails, the
/// stream fails with that error.
proof fn lemma_project_batches_prefix_err(
    es: Seq<SpecPExpr>,
    bs: Seq<Seq<SpecArray>>,
    i: int,
    e: SpecError,
)
    requires
        0 <= i < bs.len(),
        forall|j: int| 0 <= j < i ==> spec_project_batch(es, #[trigger] bs[j]) is Ok,
        spec_project_batch(es, bs[i]) == Err::<Seq<SpecArray>, SpecError>(e),
    ensures
        spec_project_batches(es, bs) == Err::<Seq<Seq<SpecArray>>, SpecError>(e),
    decreases i,
{
    if i == 0 {
    } else {
        assert(spec_project_batch(es, bs[0]) is Ok);
        assert(bs.drop_first()[i - 1] == bs[i]);
        assert(forall|j: int|
            0 <= j < i - 1 ==> #[trigger] bs.drop_first()[j] == bs[j + 1]);
        lemma_project_batches_prefix_err(es, bs.drop_first(), i - 1, e);
    }
}

/// A stream whose batches all project cleanly projects to those results.
proof fn lemma_project_batches_prefix_ok(
    es: Seq<SpecPExpr>,
    bs: Seq<Seq<SpecArray>>,
    outs: Seq<Seq<SpecArray>>,
)
    requires
        outs.len() == bs.len(),
        forall|j: int|
            0 <= j < bs.len() ==> spec_project_batch(es, #[trigger] bs[j]) == Ok::<
                Seq<SpecArray>,
                SpecError,
            >(outs[j]),
    ensures
        spec_project_batches(es, bs) == Ok::<Seq<Seq<SpecArray>>, SpecError>(outs),
    decreases bs.len(),
{
    if bs.len() == 0 {
        assert(outs =~= Seq::<Seq<SpecArray>>::empty());
    } else {
        assert(forall|j: int|
            0 <= j < bs.drop_first().len() ==> #[trigger] bs.drop_first()[j] == bs[j + 1]);
        assert(forall|j: int|
            0 <= j < outs.drop_first().len() ==> #[trigger] outs.drop_first()[j] == outs[j + 1]);
        lemma_project_batches_prefix_ok(es, bs.drop_first(), outs.drop_first());
        assert(outs =~= seq![outs[0]] + outs.drop_first());
    }
}

proof fn lemma_select_batches_prefix_err(
    pred: SpecPExpr,
    bs: Seq<Seq<SpecArray>>,
    i: int,
    e: SpecError,
)
    requires
        0 <= i < bs.len(),
        forall|j: int| 0 <= j < i ==> spec_select_batch(pred, #[trigger] bs[j]) is Ok,
        spec_select_batch(pred, bs[i]) == Err::<Seq<SpecArray>, SpecError>(e),
    ensures
        spec_select_batches(pred, bs) == Err::<Seq<Seq<SpecArray>>, SpecError>(e),
    decreases i,
{
    if i == 0 {
    } else {
        assert(spec_select_batch(pred, bs[0]) is Ok);
        assert(bs.drop_first()[i - 1] == bs[i]);
        assert(forall|j: int|
            0 <= j < i - 1 ==> #[trigger] bs.drop_first()[j] == bs[j + 1]);
        lemma_select_batches_prefix_err(pred, bs.drop_first(), i - 1, e);
    }
}

proof fn lemma_select_batches_prefix_ok(
    pred: SpecPExpr,
    bs: Seq<Seq<SpecArray>>,
    outs: Seq<Seq<SpecArray>>,
)
    requires
        outs.len() == bs.len(),
        forall|j: int|
            0 <= j < bs.len() ==> spec_select_batch(pred, #[trigger] bs[j]) == Ok::<
                Seq<SpecArray>,
                SpecError,
            >(outs[j]),
    ensures
        spec_select_batches(pred, bs) == Ok::<Seq<Seq<SpecArray>>, SpecError>(outs),
    decreases bs.len(),
{
    if bs.len() == 0 {
        assert(outs =~= Seq::<Seq<SpecArray>>::empty());
    } else {
        assert(forall|j: int|
            0 <= j < bs.drop_first().len() ==> #[trigger] bs.drop_first()[j] == bs[j + 1]);
        assert(forall|j: int|
            0 <= j < outs.drop_first().len() ==> #[trigger] outs.drop_first()[j] == outs[j + 1]);
        lemma_select_batches_prefix_ok(pred, bs.drop_first(), outs.drop_first());
        assert(outs =~= seq![outs[0]] + outs.drop_first());
    }
}



// ---------------------------------------------------------------------------
// Grouped aggregation.
// ---------------------------------------------------------------------------
//
// A single in-memory pass. Groups are identified by comparing group-key
// tuples for equality, in first-appearance order; no hashing is involved, so
// distinct keys can never be conflated. Aggregation state is one `Option`
// per aggregate expression, `None` until a present value has been folded in.
// At end of stream the groups become the rows of a single output batch:
// group key columns first, then one `Int32` column per aggregate. Zero
// groups surface `EmptyHashmapForAggregate`.
/// One group: its key row and its running accumulators.
pub struct GroupEntry {
    pub key: Vec<ScalarValue>,
    pub accs: Vec<Option<i32>>,
}

/// Mathematical image of a [`GroupEntry`].
#[verifier::ext_equal]
pub struct SpecGroup {
    pub key: Seq<SpecScalar>,
    pub accs: Seq<Option<i32>>,
}

impl View for GroupEntry {
    type V = SpecGroup;

    open spec fn view(&self) -> SpecGroup {
        SpecGroup {
            key: self.key@.map_values(|s: ScalarValue| s@),
            accs: self.accs@,
        }
    }
}

/// The views of the group state.
pub open spec fn state_view(st: Seq<GroupEntry>) -> Seq<SpecGroup> {
    st.map_values(|g: GroupEntry| g@)
}

/// The aggregate operator of each aggregate expression; a non-aggregate
/// expression in aggregate position is refused.
pub open spec fn spec_agg_ops(es: Seq<SpecPExpr>) -> Result<Seq<AggregateOp>, SpecError>
    decreases es.len(),
{
    if es.len() == 0 {
        Ok(Seq::empty())
    } else {
        match es[0] {
            SpecPExpr::Aggregate(op, _) => match spec_agg_ops(es.drop_first()) {
                Ok(rest) => Ok(seq![op] + rest),
                Err(e) => Err(e),
            },
            _ => Err(SpecError::PhysicalExpressionNotSupported("aggregate"@)),
        }
    }
}

/// One accumulator step: a null input leaves the state, a present `Int32`
/// folds in by the operator, any other type is refused.
pub open spec fn spec_acc_step(op: AggregateOp, acc: Option<i32>, v: SpecScalar) -> Result<
    Option<i32>,
    SpecError,
> {
    match v {
        SpecScalar::Int32(o) => match o {
            None => Ok(acc),
            Some(x) => match op {
                AggregateOp::Max => Ok(
                    Some(
                        match acc {
                            None => x,
                            Some(m) => if x > m {
                                x
                            } else {
                                m
                            },
                        },
                    ),
                ),
                AggregateOp::Min => Ok(
                    Some(
                        match acc {
                            None => x,
                            Some(m) => if x < m {
                                x
                            } else {
                                m
                            },
                        },
                    ),
                ),
                _ => Err(SpecError::PhysicalExpressionNotSupported(op.spec_name())),
            },
        },
        _ => Err(SpecError::PhysicalTypeNotSupported(v.data_type().spec_name())),
    }
}

/// The key of row `i`: one scalar per group column.
pub open spec fn spec_row_key(groups: Seq<SpecArray>, i: int) -> Seq<SpecScalar> {
    Seq::new(groups.len(), |k: int| groups[k].index_value(i))
}

/// Position of the first group with this key, if any.
pub open spec fn spec_find_key(st: Seq<SpecGroup>, key: Seq<SpecScalar>) -> Option<int>
    decreases st.len(),
{
    if st.len() == 0 {
        None
    } else if st[0].key == key {
        Some(0int)
    } else {
        match spec_find_key(st.drop_first(), key) {
            Some(i) => Some(i + 1),
            None => None,
        }
    }
}

/// Folds the values of row `i` of the aggregate inputs `inputs[j..]` into
/// the accumulators `accs[j..]`.
pub open spec fn spec_accumulate_row(
    ops: Seq<AggregateOp>,
    accs: Seq<Option<i32>>,
    inputs: Seq<SpecArray>,
    j: int,
    i: int,
) -> Result<Seq<Option<i32>>, SpecError>
    decreases ops.len() - j,
{
    if j < 0 || j >= ops.len() {
        Ok(accs)
    } else {
        match spec_acc_step(ops[j], accs[j], inputs[j].index_value(i)) {
            Ok(a) => spec_accumulate_row(ops, accs.update(j, a), inputs, j + 1, i),
            Err(e) => Err(e),
        }
    }
}

/// Processes rows `i..rows`: each row's key selects or creates its group,
/// and the row's aggregate inputs fold into that group's accumulators.
pub open spec fn spec_agg_rows(
    st: Seq<SpecGroup>,
    ops: Seq<AggregateOp>,
    groups: Seq<SpecArray>,
    inputs: Seq<SpecArray>,
    i: int,
    rows: int,
) -> Result<Seq<SpecGroup>, SpecError>
    decreases rows - i,
{
    if i < 0 || i >= rows {
        Ok(st)
    } else {
        let key = spec_row_key(groups, i);
        match spec_find_key(st, key) {
            Some(j) => match spec_accumulate_row(ops, st[j].accs, inputs, 0, i) {
                Ok(accs) => spec_agg_rows(
                    st.update(j, SpecGroup { key: st[j].key, accs }),
                    ops,
                    groups,
                    inputs,
                    i + 1,
                    rows,
                ),
                Err(e) => Err(e),
            },
            None => {
                let accs0 = Seq::new(ops.len(), |k: int| None::<i32>);
                match spec_accumulate_row(ops, accs0, inputs, 0, i) {
                    Ok(accs) => spec_agg_rows(
                        st.push(SpecGroup { key, accs }),
                        ops,
                        groups,
                        inputs,
                        i + 1,
                        rows,
                    ),
                    Err(e) => Err(e),
                }
            },
        }
    }
}

/// Whether each of the evaluated columns has exactly `rows` rows.
pub open spec fn spec_cols_have_rows(cols: Seq<SpecArray>, rows: int) -> bool {
    forall|k: int| 0 <= k < cols.len() ==> (#[trigger] cols[k]).len() == rows
}

/// One batch folded into the group state: group and aggregate expressions
/// are evaluated and inflated to the batch's row count, then the rows are
/// folded in order. Evaluated columns of the wrong length indicate an
/// engine bug and surface `DowncastError`.
pub open spec fn spec_agg_batch(
    st: Seq<SpecGroup>,
    group_es: Seq<SpecPExpr>,
    agg_es: Seq<SpecPExpr>,
    ops: Seq<AggregateOp>,
    batch: Seq<SpecArray>,
) -> Result<Seq<SpecGroup>, SpecError> {
    match spec_project_batch(group_es, batch) {
        Ok(groups) => match spec_project_batch(agg_es, batch) {
            Ok(inputs) => {
                let rows = spec_num_rows(batch) as int;
                if spec_cols_have_rows(groups, rows) && spec_cols_have_rows(inputs, rows) {
                    spec_agg_rows(st, ops, groups, inputs, 0, rows)
                } else {
                    Err(SpecError::DowncastError)
                }
            },
            Err(e) => Err(e),
        },
        Err(e) => Err(e),
    }
}

/// The whole input stream folded into the group state, batch by batch.
pub open spec fn spec_agg_stream(
    st: Seq<SpecGroup>,
    group_es: Seq<SpecPExpr>,
    agg_es: Seq<SpecPExpr>,
    ops: Seq<AggregateOp>,
    batches: Seq<Seq<SpecArray>>,
) -> Result<Seq<SpecGroup>, SpecError>
    decreases batches.len(),
{
    if batches.len() == 0 {
        Ok(st)
    } else {
        match spec_agg_batch(st, group_es, agg_es, ops, batches[0]) {
            Ok(st1) => spec_agg_stream(st1, group_es, agg_es, ops, batches.drop_first()),
            Err(e) => Err(e),
        }
    }
}

/// Stacks the `k`-th key scalar of every group onto `col`.
pub open spec fn spec_push_keys(col: SpecArray, st: Seq<SpecGroup>, k: int) -> Result<
    SpecArray,
    SpecError,
>
    decreases st.len(),
{
    if st.len() == 0 {
        Ok(col)
    } else {
        let s = st[0].key[k];
        if s.data_type() != col.data_type() {
            Err(SpecError::PhysicalTypeNotSupported(s.data_type().spec_name()))
        } else {
            spec_push_keys(col.push_value(s), st.drop_first(), k)
        }
    }
}

/// The finalized values of accumulator `j` of every group; a group whose
/// accumulator never saw a value cannot be finalized.
pub open spec fn spec_push_accs(vals: Seq<Option<i32>>, st: Seq<SpecGroup>, j: int) -> Result<
    Seq<Option<i32>>,
    SpecError,
>
    decreases st.len(),
{
    if st.len() == 0 {
        Ok(vals)
    } else {
        match st[0].accs[j] {
            Some(v) => spec_push_accs(vals.push(Some(v)), st.drop_first(), j),
            None => Err(SpecError::ScalarToArrayError(DataType::Int32.spec_name())),
        }
    }
}

/// The group-key output columns `k..g`, one per group expression.
pub open spec fn spec_key_columns(st: Seq<SpecGroup>, k: int, g: int) -> Result<
    Seq<SpecArray>,
    SpecError,
>
    decreases g - k,
{
    if k < 0 || k >= g {
        Ok(Seq::empty())
    } else {
        match spec_push_keys(SpecArray::empty(st[0].key[k].data_type()), st, k) {
            Ok(c) => match spec_key_columns(st, k + 1, g) {
                Ok(rest) => Ok(seq![c] + rest),
                Err(e) => Err(e),
            },
            Err(e) => Err(e),
        }
    }
}

/// The aggregate output columns `j..a`, one `Int32` column per aggregate.
pub open spec fn spec_acc_columns(st: Seq<SpecGroup>, j: int, a: int) -> Result<
    Seq<SpecArray>,
    SpecError,
>
    decreases a - j,
{
    if j < 0 || j >= a {
        Ok(Seq::empty())
    } else {
        match spec_push_accs(Seq::empty(), st, j) {
            Ok(vals) => match spec_acc_columns(st, j + 1, a) {
                Ok(rest) => Ok(seq![SpecArray::Int32(vals)] + rest),
                Err(e) => Err(e),
            },
            Err(e) => Err(e),
        }
    }
}

/// The single output batch of the aggregation: the group-key columns
/// followed by the finalized aggregate columns, one row per group.
pub open spec fn spec_finalize(st: Seq<SpecGroup>, g: int, a: int) -> Result<
    Seq<SpecArray>,
    SpecError,
> {
    if st.len() == 0 {
        Err(SpecError::EmptyHashmapForAggregate)
    } else {
        match spec_key_columns(st, 0, g) {
            Ok(kc) => match spec_acc_columns(st, 0, a) {
                Ok(ac) => Ok(kc + ac),
                Err(e) => Err(e),
            },
            Err(e) => Err(e),
        }
    }
}

/// Aggregation of the whole stream: one output batch, or the first error.
pub open spec fn spec_aggregate_batches(
    group_es: Seq<SpecPExpr>,
    agg_es: Seq<SpecPExpr>,
    batches: Seq<Seq<SpecArray>>,
) -> Result<Seq<Seq<SpecArray>>, SpecError> {
    match spec_agg_ops(agg_es) {
        Ok(ops) => match spec_agg_stream(Seq::empty(), group_es, agg_es, ops, batches) {
            Ok(st) => match spec_finalize(st, group_es.len() as int, agg_es.len() as int) {
                Ok(cols) => Ok(seq![cols]),
                Err(e) => Err(e),
            },
            Err(e) => Err(e),
        },
        Err(e) => Err(e),
    }
}



/// A clean projection yields one column per expression.
pub proof fn lemma_project_batch_len(es: Seq<SpecPExpr>, batch: Seq<SpecArray>)
    ensures
        spec_project_batch(es, batch) is Ok ==> spec_project_batch(es, batch)->Ok_0.len()
            == es.len(),
    decreases es.len(),
{
    if es.len() > 0 {
        lemma_project_batch_len(es.drop_first(), batch);
    }
}

/// Whether two scalars are equal, contents compared.
fn scalar_eq(x: &ScalarValue, y: &ScalarValue) -> (r: bool)
    ensures
        r == (x@ == y@),
{
    match (x, y) {
        (ScalarValue::Bool(a), ScalarValue::Bool(b)) => match (a, b) {
            (Some(u), Some(v)) => u == v,
            (None, None) => true,
            _ => false,
        },
        (ScalarValue::Int32(a), ScalarValue::Int32(b)) => match (a, b) {
            (Some(u), Some(v)) => u == v,
            (None, None) => true,
            _ => false,
        },
        (ScalarValue::Float64(a), ScalarValue::Float64(b)) => match (a, b) {
            (Some(u), Some(v)) => u == v,
            (None, None) => true,
            _ => false,
        },
        (ScalarValue::Utf8(a), ScalarValue::Utf8(b)) => match (a, b) {
            (Some(u), Some(v)) => u.eq(v),
            (None, None) => true,
            _ => false,
        },
        (ScalarValue::Timestamp(a), ScalarValue::Timestamp(b)) => match (a, b) {
            (Some(u), Some(v)) => u == v,
            (None, None) => true,
            _ => false,
        },
        _ => false,
    }
}

/// The views of a key row.
pub open spec fn key_view(key: Seq<ScalarValue>) -> Seq<SpecScalar> {
    key.map_values(|s: ScalarValue| s@)
}

/// Whether two key rows are equal, contents compared.
fn key_eq(a: &Vec<ScalarValue>, b: &Vec<ScalarValue>) -> (r: bool)
    ensures
        r == (key_view(a@) == key_view(b@)),
{
    let n = a.len();
    if n != b.len() {
        assert(key_view(a@).len() != key_view(b@).len());
        return false;
    }
    let mut i: usize = 0;
    while i < n
        invariant
            i <= n,
            n == a@.len(),
            n == b@.len(),
            forall|j: int| 0 <= j < i ==> key_view(a@)[j] == key_view(b@)[j],
        decreases n - i,
    {
        if !scalar_eq(&a[i], &b[i]) {
            assert(key_view(a@)[i as int] != key_view(b@)[i as int]);
            return false;
        }
        assert(key_view(a@)[i as int] == key_view(b@)[i as int]);
        i = i + 1;
    }
    proof {
        assert(key_view(a@) =~= key_view(b@));
    }
    true
}

/// Position of the first group with this key, if any.
fn find_group(st: &Vec<GroupEntry>, key: &Vec<ScalarValue>) -> (r: Option<usize>)
    ensures
        match r {
            Some(j) => spec_find_key(state_view(st@), key_view(key@)) == Some(j as int) && j
                < st@.len(),
            None => spec_find_key(state_view(st@), key_view(key@)) is None,
        },
{
    let n = st.len();
    let mut i: usize = 0;
    proof {
        assert(state_view(st@).skip(0) =~= state_view(st@));
    }
    while i < n
        invariant
            i <= n,
            n == st@.len(),
            spec_find_key(state_view(st@), key_view(key@)) == match spec_find_key(
                state_view(st@).skip(i as int),
                key_view(key@),
            ) {
                Some(j) => Some(j + i),
                None => None::<int>,
            },
        decreases n - i,
    {
        proof {
            assert(state_view(st@).skip(i as int)[0] == state_view(st@)[i as int]);
            assert(state_view(st@)[i as int] == st@[i as int]@);
            assert(state_view(st@).skip(i as int).drop_first() =~= state_view(st@).skip(i + 1));
        }
        if key_eq(&st[i].key, key) {
            assert(spec_find_key(state_view(st@).skip(i as int), key_view(key@)) == Some(0int));
            return Some(i);
        }
        i = i + 1;
    }
    assert(state_view(st@).skip(n as int) =~= Seq::<SpecGroup>::empty());
    None
}

/// One accumulator step.
fn acc_step(op: AggregateOp, acc: Option<i32>, v: &ScalarValue) -> (r: Result<Option<i32>, Error>)
    ensures
        match r {
            Ok(a) => spec_acc_step(op, acc, v@) == Ok::<Option<i32>, SpecError>(a),
            Err(e) => spec_acc_step(op, acc, v@) == Err::<Option<i32>, SpecError>(e@),
        },
{
    match v {
        ScalarValue::Int32(o) => match o {
            None => Ok(acc),
            Some(x) => match op {
                AggregateOp::Max => Ok(
                    Some(
                        match acc {
                            None => *x,
                            Some(m) => if *x > m {
                                *x
                            } else {
                                m
                            },
                        },
                    ),
                ),
                AggregateOp::Min => Ok(
                    Some(
                        match acc {
                            None => *x,
                            Some(m) => if *x < m {
                                *x
                            } else {
                                m
                            },
                        },
                    ),
                ),
                _ => Err(Error::PhysicalExpressionNotSupported(op.name())),
            },
        },
        _ => Err(Error::PhysicalTypeNotSupported(v.data_type().name())),
    }
}

/// Folds row `i` of the aggregate inputs into the accumulators.
fn accumulate_row(
    ops: &Vec<AggregateOp>,
    accs: &Vec<Option<i32>>,
    inputs: &Vec<ArrayData>,
    i: usize,
) -> (r: Result<Vec<Option<i32>>, Error>)
    requires
        ops@.len() == accs@.len(),
        inputs@.len() == ops@.len(),
        forall|k: int| 0 <= k < inputs@.len() ==> i < (#[trigger] inputs@[k]@).len(),
    ensures
        match r {
            Ok(a) => spec_accumulate_row(ops@, accs@, cols_view(inputs@), 0, i as int) == Ok::<
                Seq<Option<i32>>,
                SpecError,
            >(a@) && a@.len() == accs@.len(),
            Err(e) => spec_accumulate_row(ops@, accs@, cols_view(inputs@), 0, i as int) == Err::<
                Seq<Option<i32>>,
                SpecError,
            >(e@),
        },
{
    let ghost accs0 = accs@;
    let mut cur = copy_accs(accs);
    let n = ops.len();
    let mut j: usize = 0;
    while j < n
        invariant
            j <= n,
            n == ops@.len(),
            n == inputs@.len(),
            accs0 == accs@,
            cur@.len() == n,
            forall|k: int| 0 <= k < inputs@.len() ==> i < (#[trigger] inputs@[k]@).len(),
            spec_accumulate_row(ops@, accs0, cols_view(inputs@), 0, i as int)
                == spec_accumulate_row(ops@, cur@, cols_view(inputs@), j as int, i as int),
        decreases n - j,
    {
        proof {
            assert(cols_view(inputs@)[j as int] == inputs@[j as int]@);
        }
        let v = inputs[j].value_at(i);
        let ghost pre = cur@;
        let a = match acc_step(ops[j], cur[j], &v) {
            Ok(a) => a,
            Err(e) => {
                proof {
                    assert(spec_accumulate_row(ops@, pre, cols_view(inputs@), j as int, i as int)
                        == Err::<Seq<Option<i32>>, SpecError>(e@));
                }
                return Err(e);
            },
        };
        cur.set(j, a);
        proof {
            assert(cur@ == pre.update(j as int, a));
            assert(spec_accumulate_row(ops@, pre, cols_view(inputs@), j as int, i as int)
                == spec_accumulate_row(ops@, cur@, cols_view(inputs@), j + 1, i as int));
        }
        j = j + 1;
    }
    Ok(cur)
}

/// The key of row `i`: one scalar per group column.
fn build_key(groups: &Vec<ArrayData>, i: usize) -> (r: Vec<ScalarValue>)
    requires
        forall|k: int| 0 <= k < groups@.len() ==> i < (#[trigger] groups@[k]@).len(),
    ensures
        key_view(r@) == spec_row_key(cols_view(groups@), i as int),
        r@.len() == groups@.len(),
{
    let n = groups.len();
    let mut out: Vec<ScalarValue> = Vec::new();
    let mut k: usize = 0;
    while k < n
        invariant
            k <= n,
            n == groups@.len(),
            forall|m: int| 0 <= m < groups@.len() ==> i < (#[trigger] groups@[m]@).len(),
            out@.len() == k,
            forall|m: int|
                0 <= m < k ==> key_view(out@)[m] == groups@[m]@.index_value(i as int),
        decreases n - k,
    {
        let v = groups[k].value_at(i);
        let ghost pre = out@;
        out.push(v);
        proof {
            assert forall|m: int|
                0 <= m < k + 1 implies key_view(out@)[m] == groups@[m]@.index_value(
                i as int,
            ) by {
                assert(key_view(out@)[m] == out@[m]@);
                if m < k {
                    assert(out@[m] == pre[m]);
                    assert(key_view(pre)[m] == pre[m]@);
                }
            }
        }
        k = k + 1;
    }
    proof {
        assert(key_view(out@) =~= spec_row_key(cols_view(groups@), i as int));
    }
    out
}

/// Whether every column has exactly `rows` rows.
fn cols_have_rows(cols: &Vec<ArrayData>, rows: usize) -> (r: bool)
    ensures
        r == spec_cols_have_rows(cols_view(cols@), rows as int),
{
    let n = cols.len();
    let mut i: usize = 0;
    while i < n
        invariant
            i <= n,
            n == cols@.len(),
            forall|j: int| 0 <= j < i ==> (#[trigger] cols_view(cols@)[j]).len() == rows,
        decreases n - i,
    {
        if cols[i].len() != rows {
            assert(cols_view(cols@)[i as int].len() != rows);
            return false;
        }
        assert(cols_view(cols@)[i as int].len() == rows);
        i = i + 1;
    }
    true
}

/// Copies a list of accumulator states.
fn copy_accs(v: &Vec<Option<i32>>) -> (r: Vec<Option<i32>>)
    ensures
        r@ == v@,
{
    let mut out: Vec<Option<i32>> = Vec::new();
    let n = v.len();
    let mut i: usize = 0;
    while i < n
        invariant
            i <= n,
            n == v@.len(),
            out@ == v@.take(i as int),
        decreases n - i,
    {
        out.push(v[i]);
        proof {
            assert(out@ =~= v@.take(i + 1));
        }
        i = i + 1;
    }
    proof {
        assert(v@.take(n as int) =~= v@);
    }
    out
}

/// The aggregate operator of each expression in `es[i..]`.
fn agg_ops_from(es: &Vec<PhysicalExpression>, i: usize) -> (r: Result<Vec<AggregateOp>, Error>)
    requires
        i <= es@.len(),
    ensures
        match r {
            Ok(ops) => spec_agg_ops(pexprs_view(es@).skip(i as int)) == Ok::<
                Seq<AggregateOp>,
                SpecError,
            >(ops@),
            Err(e) => spec_agg_ops(pexprs_view(es@).skip(i as int)) == Err::<
                Seq<AggregateOp>,
                SpecError,
            >(e@),
        },
    decreases es@.len() - i,
{
    let ghost tail = pexprs_view(es@).skip(i as int);
    if i == es.len() {
        let out: Vec<AggregateOp> = Vec::new();
        proof {
            assert(tail =~= Seq::<SpecPExpr>::empty());
        }
        Ok(out)
    } else {
        proof {
            assert(tail[0] == es@[i as int]@);
            assert(tail.drop_first() =~= pexprs_view(es@).skip(i + 1));
        }
        let op = match &es[i] {
            PhysicalExpression::Aggregate(op, _) => *op,
            _ => {
                return Err(Error::PhysicalExpressionNotSupported("aggregate".to_owned()));
            },
        };
        let mut rest = match agg_ops_from(es, i + 1) {
            Ok(ops) => ops,
            Err(e) => {
                return Err(e);
            },
        };
        let ghost restv = rest@;
        let mut out: Vec<AggregateOp> = Vec::new();
        out.push(op);
        out.append(&mut rest);
        proof {
            assert(out@ =~= seq![op] + restv);
        }
        Ok(out)
    }
}

/// Stacks the `k`-th key scalar of every group into one column.
fn stack_keys(st: &Vec<GroupEntry>, k: usize) -> (r: Result<ArrayData, Error>)
    requires
        st@.len() > 0,
        forall|e: int| 0 <= e < st@.len() ==> k < (#[trigger] st@[e]@).key.len(),
    ensures
        ({
            let spec_r = spec_push_keys(
                SpecArray::empty(state_view(st@)[0].key[k as int].data_type()),
                state_view(st@),
                k as int,
            );
            match r {
                Ok(c) => spec_r == Ok::<SpecArray, SpecError>(c@),
                Err(e) => spec_r == Err::<SpecArray, SpecError>(e@),
            }
        }),
{
    let ghost stv = state_view(st@);
    proof {
        assert(stv[0] == st@[0]@);
        assert(stv.skip(0) =~= stv);
    }
    let mut col = ArrayData::new_empty(st[0].key[k].data_type());
    let n = st.len();
    let mut i: usize = 0;
    while i < n
        invariant
            i <= n,
            n == st@.len(),
            stv == state_view(st@),
            forall|e: int| 0 <= e < st@.len() ==> k < (#[trigger] st@[e]@).key.len(),
            spec_push_keys(SpecArray::empty(stv[0].key[k as int].data_type()), stv, k as int)
                == spec_push_keys(col@, stv.skip(i as int), k as int),
        decreases n - i,
    {
        proof {
            assert(stv.skip(i as int)[0] == stv[i as int]);
            assert(stv[i as int] == st@[i as int]@);
            assert(stv.skip(i as int).drop_first() =~= stv.skip(i + 1));
            assert(st@[i as int]@.key[k as int] == st@[i as int].key@[k as int]@);
        }
        match col.push_value(&st[i].key[k]) {
            Ok(()) => {},
            Err(e) => {
                return Err(e);
            },
        }
        i = i + 1;
    }
    proof {
        assert(stv.skip(n as int) =~= Seq::<SpecGroup>::empty());
    }
    Ok(col)
}

/// The finalized values of accumulator `j` of every group.
fn stack_accs(st: &Vec<GroupEntry>, j: usize) -> (r: Result<Vec<Option<i32>>, Error>)
    requires
        forall|e: int| 0 <= e < st@.len() ==> j < (#[trigger] st@[e]@).accs.len(),
    ensures
        match r {
            Ok(vals) => spec_push_accs(Seq::empty(), state_view(st@), j as int) == Ok::<
                Seq<Option<i32>>,
                SpecError,
            >(vals@),
            Err(e) => spec_push_accs(Seq::empty(), state_view(st@), j as int) == Err::<
                Seq<Option<i32>>,
                SpecError,
            >(e@),
        },
{
    let ghost stv = state_view(st@);
    proof {
        assert(stv.skip(0) =~= stv);
    }
    let mut vals: Vec<Option<i32>> = Vec::new();
    let n = st.len();
    let mut i: usize = 0;
    while i < n
        invariant
            i <= n,
            n == st@.len(),
            stv == state_view(st@),
            forall|e: int| 0 <= e < st@.len() ==> j < (#[trigger] st@[e]@).accs.len(),
            spec_push_accs(Seq::empty(), stv, j as int) == spec_push_accs(
                vals@,
                stv.skip(i as int),
                j as int,
            ),
        decreases n - i,
    {
        proof {
            assert(stv.skip(i as int)[0] == stv[i as int]);
            assert(stv[i as int] == st@[i as int]@);
            assert(stv.skip(i as int).drop_first() =~= stv.skip(i + 1));
        }
        match st[i].accs[j] {
            Some(v) => vals.push(Some(v)),
            None => {
                return Err(Error::ScalarToArrayError(DataType::Int32.name()));
            },
        }
        i = i + 1;
    }
    proof {
        assert(stv.skip(n as int) =~= Seq::<SpecGroup>::empty());
    }
    Ok(vals)
}

/// Drains the input stream into group state and emits the single output
/// batch.
fn aggregate_batches(
    group_exprs: &Vec<PhysicalExpression>,
    agg_exprs: &Vec<PhysicalExpression>,
    batches: Vec<RecordBatch>,
) -> (r: Result<Vec<RecordBatch>, Error>)
    ensures
        ({
            let spec_r = spec_aggregate_batches(
                pexprs_view(group_exprs@),
                pexprs_view(agg_exprs@),
                batches_view(batches@),
            );
            match r {
                Ok(bs) => spec_r == Ok::<Seq<Seq<SpecArray>>, SpecError>(batches_view(bs@)),
                Err(e) => spec_r == Err::<Seq<Seq<SpecArray>>, SpecError>(e@),
            }
        }),
{
    let ghost ges = pexprs_view(group_exprs@);
    let ghost aes = pexprs_view(agg_exprs@);
    let ghost bsv = batches_view(batches@);
    proof {
        assert(pexprs_view(agg_exprs@).skip(0) =~= pexprs_view(agg_exprs@));
    }
    let ops = match agg_ops_from(agg_exprs, 0) {
        Ok(ops) => ops,
        Err(e) => {
            return Err(e);
        },
    };
    proof {
        lemma_agg_ops_len(aes);
    }
    let g = group_exprs.len();
    let na = agg_exprs.len();
    let mut state: Vec<GroupEntry> = Vec::new();
    let nb = batches.len();
    let mut bi: usize = 0;
    proof {
        assert(bsv.skip(0) =~= bsv);
        assert(state_view(state@) =~= Seq::<SpecGroup>::empty());
    }
    while bi < nb
        invariant
            bi <= nb,
            nb == batches@.len(),
            ges == pexprs_view(group_exprs@),
            aes == pexprs_view(agg_exprs@),
            bsv == batches_view(batches@),
            g == group_exprs@.len(),
            na == agg_exprs@.len(),
            ops@.len() == na,
            spec_agg_ops(aes) == Ok::<Seq<AggregateOp>, SpecError>(ops@),
            forall|e: int|
                0 <= e < state@.len() ==> (#[trigger] state@[e]@).key.len() == g
                    && state@[e]@.accs.len() == na,
            spec_agg_stream(Seq::empty(), ges, aes, ops@, bsv) == spec_agg_stream(
                state_view(state@),
                ges,
                aes,
                ops@,
                bsv.skip(bi as int),
            ),
        decreases nb - bi,
    {
        let ghost st_in = state_view(state@);
        proof {
            assert(bsv.skip(bi as int)[0] == bsv[bi as int]);
            assert(bsv[bi as int] == batches@[bi as int]@);
            assert(bsv.skip(bi as int).drop_first() =~= bsv.skip(bi + 1));
            assert(pexprs_view(group_exprs@).skip(0) =~= ges);
            assert(pexprs_view(agg_exprs@).skip(0) =~= aes);
        }
        let groups = match project_batch_from(group_exprs, 0, &batches[bi]) {
            Ok(cols) => cols,
            Err(e) => {
                proof {
                    assert(spec_agg_batch(st_in, ges, aes, ops@, bsv[bi as int]) == Err::<
                        Seq<SpecGroup>,
                        SpecError,
                    >(e@));
                    assert(spec_agg_stream(st_in, ges, aes, ops@, bsv.skip(bi as int)) == Err::<
                        Seq<SpecGroup>,
                        SpecError,
                    >(e@));
                }
                return Err(e);
            },
        };
        let inputs = match project_batch_from(agg_exprs, 0, &batches[bi]) {
            Ok(cols) => cols,
            Err(e) => {
                proof {
                    assert(spec_agg_batch(st_in, ges, aes, ops@, bsv[bi as int]) == Err::<
                        Seq<SpecGroup>,
                        SpecError,
                    >(e@));
                    assert(spec_agg_stream(st_in, ges, aes, ops@, bsv.skip(bi as int)) == Err::<
                        Seq<SpecGroup>,
                        SpecError,
                    >(e@));
                }
                return Err(e);
            },
        };
        proof {
            lemma_project_batch_len(ges, bsv[bi as int]);
            lemma_project_batch_len(aes, bsv[bi as int]);
        }
        let rows = batches[bi].row_count();
        let groups_ok = cols_have_rows(&groups, rows);
        let inputs_ok = cols_have_rows(&inputs, rows);
        if !(groups_ok && inputs_ok) {
            proof {
                assert(spec_agg_batch(st_in, ges, aes, ops@, bsv[bi as int]) == Err::<
                    Seq<SpecGroup>,
                    SpecError,
                >(SpecError::DowncastError));
                assert(spec_agg_stream(st_in, ges, aes, ops@, bsv.skip(bi as int)) == Err::<
                    Seq<SpecGroup>,
                    SpecError,
                >(SpecError::DowncastError));
            }
            return Err(Error::DowncastError);
        }
        let ghost groupsv = cols_view(groups@);
        let ghost inputsv = cols_view(inputs@);
        let mut i: usize = 0;
        while i < rows
            invariant
                i <= rows,
                bi < nb,
                nb == batches@.len(),
                g == groups@.len(),
                na == inputs@.len(),
                na == ops@.len(),
                g == group_exprs@.len(),
                na == agg_exprs@.len(),
                ges == pexprs_view(group_exprs@),
                aes == pexprs_view(agg_exprs@),
                bsv == batches_view(batches@),
                groupsv == cols_view(groups@),
                inputsv == cols_view(inputs@),
                spec_cols_have_rows(groupsv, rows as int),
                spec_cols_have_rows(inputsv, rows as int),
                spec_agg_ops(aes) == Ok::<Seq<AggregateOp>, SpecError>(ops@),
                spec_project_batch(ges, bsv[bi as int]) == Ok::<Seq<SpecArray>, SpecError>(
                    groupsv,
                ),
                spec_project_batch(aes, bsv[bi as int]) == Ok::<Seq<SpecArray>, SpecError>(
                    inputsv,
                ),
                rows == spec_num_rows(bsv[bi as int]),
                spec_agg_stream(Seq::empty(), ges, aes, ops@, bsv) == spec_agg_stream(
                    st_in,
                    ges,
                    aes,
                    ops@,
                    bsv.skip(bi as int),
                ),
                forall|e: int|
                    0 <= e < state@.len() ==> (#[trigger] state@[e]@).key.len() == g
                        && state@[e]@.accs.len() == na,
                spec_agg_rows(st_in, ops@, groupsv, inputsv, 0, rows as int) == spec_agg_rows(
                    state_view(state@),
                    ops@,
                    groupsv,
                    inputsv,
                    i as int,
                    rows as int,
                ),
            decreases rows - i,
        {
            proof {
                assert forall|k: int|
                    0 <= k < groups@.len() implies i < (#[trigger] groups@[k]@).len() by {
                    assert(cols_view(groups@)[k] == groups@[k]@);
                }
                assert forall|k: int|
                    0 <= k < inputs@.len() implies i < (#[trigger] inputs@[k]@).len() by {
                    assert(cols_view(inputs@)[k] == inputs@[k]@);
                }
            }
            let key = build_key(&groups, i);
            let ghost st_cur = state_view(state@);
            match find_group(&state, &key) {
                Some(j) => {
                    proof {
                        lemma_find_key_props(st_cur, key_view(key@));
                        assert(st_cur[j as int] == state@[j as int]@);
                    }
                    let accs = match accumulate_row(&ops, &state[j].accs, &inputs, i) {
                        Ok(a) => a,
                        Err(e) => {
                            proof {
                                assert(spec_agg_rows(
                                    st_cur,
                                    ops@,
                                    groupsv,
                                    inputsv,
                                    i as int,
                                    rows as int,
                                ) == Err::<Seq<SpecGroup>, SpecError>(e@));
                                assert(spec_agg_batch(st_in, ges, aes, ops@, bsv[bi as int])
                                    == Err::<Seq<SpecGroup>, SpecError>(e@));
                                assert(spec_agg_stream(st_in, ges, aes, ops@, bsv.skip(bi as int))
                                    == Err::<Seq<SpecGroup>, SpecError>(e@));
                            }
                            return Err(e);
                        },
                    };
                    let entry = GroupEntry { key, accs };
                    state.set(j, entry);
                    proof {
                        assert(state_view(state@) =~= st_cur.update(
                            j as int,
                            SpecGroup {
                                key: st_cur[j as int].key,
                                accs: spec_accumulate_row(
                                    ops@,
                                    st_cur[j as int].accs,
                                    inputsv,
                                    0,
                                    i as int,
                                )->Ok_0,
                            },
                        ));
                        assert forall|e: int|
                            0 <= e < state@.len() implies (#[trigger] state@[e]@).key.len() == g
                                && state@[e]@.accs.len() == na by {
                            assert(state_view(state@)[e] == state@[e]@);
                            if e != j {
                                assert(state_view(state@)[e] == st_cur[e]);
                            }
                        }
                    }
                },
                None => {
                    let mut accs0: Vec<Option<i32>> = Vec::new();
                    let mut z: usize = 0;
                    while z < na
                        invariant
                            z <= na,
                            accs0@ == Seq::new(z as nat, |m: int| None::<i32>),
                        decreases na - z,
                    {
                        accs0.push(None);
                        proof {
                            assert(accs0@ =~= Seq::new((z + 1) as nat, |m: int| None::<i32>));
                        }
                        z = z + 1;
                    }
                    let accs = match accumulate_row(&ops, &accs0, &inputs, i) {
                        Ok(a) => a,
                        Err(e) => {
                            proof {
                                assert(spec_agg_rows(
                                    st_cur,
                                    ops@,
                                    groupsv,
                                    inputsv,
                                    i as int,
                                    rows as int,
                                ) == Err::<Seq<SpecGroup>, SpecError>(e@));
                                assert(spec_agg_batch(st_in, ges, aes, ops@, bsv[bi as int])
                                    == Err::<Seq<SpecGroup>, SpecError>(e@));
                                assert(spec_agg_stream(st_in, ges, aes, ops@, bsv.skip(bi as int))
                                    == Err::<Seq<SpecGroup>, SpecError>(e@));
                            }
                            return Err(e);
                        },
                    };
                    let entry = GroupEntry { key, accs };
                    state.push(entry);
                    proof {
                        assert(state_view(state@) =~= st_cur.push(
                            SpecGroup {
                                key: spec_row_key(groupsv, i as int),
                                accs: spec_accumulate_row(
                                    ops@,
                                    Seq::new(na as nat, |m: int| None::<i32>),
                                    inputsv,
                                    0,
                                    i as int,
                                )->Ok_0,
                            },
                        ));
                        assert forall|e: int|
                            0 <= e < state@.len() implies (#[trigger] state@[e]@).key.len() == g
                                && state@[e]@.accs.len() == na by {
                            assert(state_view(state@)[e] == state@[e]@);
                            if e < st_cur.len() {
                                assert(state_view(state@)[e] == st_cur[e]);
                            }
                        }
                    }
                },
            }
            i = i + 1;
        }
        proof {
            assert(spec_agg_rows(st_in, ops@, groupsv, inputsv, 0, rows as int) == Ok::<
                Seq<SpecGroup>,
                SpecError,
            >(state_view(state@)));
            assert(spec_agg_batch(st_in, ges, aes, ops@, bsv[bi as int]) == Ok::<
                Seq<SpecGroup>,
                SpecError,
            >(state_view(state@)));
            assert(spec_agg_stream(st_in, ges, aes, ops@, bsv.skip(bi as int))
                == spec_agg_stream(state_view(state@), ges, aes, ops@, bsv.skip(bi + 1)));
        }
        bi = bi + 1;
    }
    proof {
        assert(bsv.skip(nb as int) =~= Seq::<Seq<SpecArray>>::empty());
    }
    if state.len() == 0 {
        proof {
            assert(state_view(state@) =~= Seq::<SpecGroup>::empty());
        }
        return Err(Error::EmptyHashmapForAggregate);
    }
    let ghost stv = state_view(state@);
    let mut cols: Vec<ArrayData> = Vec::new();
    let mut k: usize = 0;
    while k < g
        invariant
            k <= g,
            g == group_exprs@.len(),
            na == agg_exprs@.len(),
            ges == pexprs_view(group_exprs@),
            aes == pexprs_view(agg_exprs@),
            bsv == batches_view(batches@),
            spec_agg_ops(aes) == Ok::<Seq<AggregateOp>, SpecError>(ops@),
            spec_agg_stream(Seq::empty(), ges, aes, ops@, bsv) == Ok::<Seq<SpecGroup>, SpecError>(
                stv,
            ),
            state@.len() > 0,
            stv == state_view(state@),
            forall|e: int|
                0 <= e < state@.len() ==> (#[trigger] state@[e]@).key.len() == g
                    && state@[e]@.accs.len() == na,
            cols@.len() == k,
            forall|m: int|
                0 <= m < k ==> spec_push_keys(
                    SpecArray::empty(stv[0].key[m].data_type()),
                    stv,
                    #[trigger] (m + 0),
                ) is Ok,
            forall|m: int|
                0 <= m < k ==> #[trigger] cols_view(cols@)[m] == spec_push_keys(
                    SpecArray::empty(stv[0].key[m].data_type()),
                    stv,
                    m,
                )->Ok_0,
        decreases g - k,
    {
        proof {
            assert(stv[0] == state@[0]@);
        }
        let c = match stack_keys(&state, k) {
            Ok(c) => c,
            Err(e) => {
                proof {
                    lemma_key_columns_err(stv, k as int, g as int, e@);
                    assert(spec_finalize(stv, g as int, na as int) == Err::<
                        Seq<SpecArray>,
                        SpecError,
                    >(e@));
                }
                return Err(e);
            },
        };
        let ghost oldcols = cols@;
        cols.push(c);
        proof {
            assert forall|m: int|
                0 <= m < k + 1 implies #[trigger] cols_view(cols@)[m] == spec_push_keys(
                SpecArray::empty(stv[0].key[m].data_type()),
                stv,
                m,
            )->Ok_0 by {
                assert(cols_view(cols@)[m] == cols@[m]@);
                if m < k {
                    assert(cols@[m] == oldcols[m]);
                    assert(cols_view(oldcols)[m] == oldcols[m]@);
                }
            }
        }
        k = k + 1;
    }
    let mut j: usize = 0;
    while j < na
        invariant
            j <= na,
            g == group_exprs@.len(),
            na == agg_exprs@.len(),
            ges == pexprs_view(group_exprs@),
            aes == pexprs_view(agg_exprs@),
            bsv == batches_view(batches@),
            spec_agg_ops(aes) == Ok::<Seq<AggregateOp>, SpecError>(ops@),
            spec_agg_stream(Seq::empty(), ges, aes, ops@, bsv) == Ok::<Seq<SpecGroup>, SpecError>(
                stv,
            ),
            state@.len() > 0,
            stv == state_view(state@),
            forall|e: int|
                0 <= e < state@.len() ==> (#[trigger] state@[e]@).key.len() == g
                    && state@[e]@.accs.len() == na,
            cols@.len() == g + j,
            forall|m: int|
                0 <= m < g ==> spec_push_keys(
                    SpecArray::empty(stv[0].key[m].data_type()),
                    stv,
                    #[trigger] (m + 0),
                ) is Ok,
            forall|m: int|
                0 <= m < g ==> #[trigger] cols_view(cols@)[m] == spec_push_keys(
                    SpecArray::empty(stv[0].key[m].data_type()),
                    stv,
                    m,
                )->Ok_0,
            forall|m: int|
                0 <= m < j ==> spec_push_accs(Seq::empty(), stv, #[trigger] (m + 0)) is Ok,
            forall|m: int|
                0 <= m < j ==> #[trigger] cols_view(cols@)[g + m] == SpecArray::Int32(
                    spec_push_accs(Seq::empty(), stv, m)->Ok_0,
                ),
        decreases na - j,
    {
        let vals = match stack_accs(&state, j) {
            Ok(v) => v,
            Err(e) => {
                proof {
                    lemma_acc_columns_err(stv, j as int, na as int, e@);
                    lemma_key_columns_from_pushes(stv, g as int);
                    assert(spec_finalize(stv, g as int, na as int) == Err::<
                        Seq<SpecArray>,
                        SpecError,
                    >(e@));
                }
                return Err(e);
            },
        };
        let ghost oldcols = cols@;
        cols.push(ArrayData::Int32(vals));
        proof {
            assert forall|m: int|
                0 <= m < g implies #[trigger] cols_view(cols@)[m] == spec_push_keys(
                SpecArray::empty(stv[0].key[m].data_type()),
                stv,
                m,
            )->Ok_0 by {
                assert(cols_view(cols@)[m] == cols@[m]@);
                assert(cols@[m] == oldcols[m]);
                assert(cols_view(oldcols)[m] == oldcols[m]@);
            }
            assert forall|m: int|
                0 <= m < j + 1 implies #[trigger] cols_view(cols@)[g + m] == SpecArray::Int32(
                spec_push_accs(Seq::empty(), stv, m)->Ok_0,
            ) by {
                assert(cols_view(cols@)[g + m] == cols@[g + m]@);
                if m < j {
                    assert(cols@[g + m] == oldcols[g + m]);
                    assert(cols_view(oldcols)[g + m] == oldcols[g + m]@);
                }
            }
        }
        j = j + 1;
    }
    let out_batch = RecordBatch::new(cols);
    let mut out: Vec<RecordBatch> = Vec::new();
    out.push(out_batch);
    proof {
        lemma_key_columns_from_pushes(stv, g as int);
        lemma_acc_columns_from_pushes(stv, na as int);
        let kc = spec_key_columns(stv, 0, g as int)->Ok_0;
        let ac = spec_acc_columns(stv, 0, na as int)->Ok_0;
        assert(out@[0]@ == cols_view(cols@));
        assert(cols_view(cols@).len() == kc.len() + ac.len());
        assert forall|m: int| 0 <= m < cols@.len() implies cols_view(cols@)[m] == (kc + ac)[m] by {
            if m < g {
                assert(cols_view(cols@)[m] == spec_push_keys(
                    SpecArray::empty(stv[0].key[m].data_type()),
                    stv,
                    m,
                )->Ok_0);
                assert(kc[m] == spec_push_keys(
                    SpecArray::empty(stv[0].key[m].data_type()),
                    stv,
                    m,
                )->Ok_0);
                assert((kc + ac)[m] == kc[m]);
            } else {
                let m2 = m - g;
                assert(cols_view(cols@)[g + m2] == SpecArray::Int32(
                    spec_push_accs(Seq::empty(), stv, m2)->Ok_0,
                ));
                assert(ac[m2] == SpecArray::Int32(spec_push_accs(Seq::empty(), stv, m2)->Ok_0));
                assert((kc + ac)[m] == ac[m2]);
            }
        }
        assert(cols_view(cols@) =~= kc + ac);
        assert(spec_finalize(stv, g as int, na as int) == Ok::<Seq<SpecArray>, SpecError>(
            kc + ac,
        ));
        assert(batches_view(out@) =~= seq![kc + ac]);
    }
    Ok(out)
}

/// A clean operator list yields one operator per aggregate expression.
proof fn lemma_agg_ops_len(es: Seq<SpecPExpr>)
    ensures
        spec_agg_ops(es) is Ok ==> spec_agg_ops(es)->Ok_0.len() == es.len(),
    decreases es.len(),
{
    if es.len() > 0 {
        lemma_agg_ops_len(es.drop_first());
    }
}

/// A found group index lies in range and bears the looked-up key; a miss
/// means no group bears it.
pub proof fn lemma_find_key_props(st: Seq<SpecGroup>, key: Seq<SpecScalar>)
    ensures
        match spec_find_key(st, key) {
            Some(j) => 0 <= j < st.len() && st[j].key == key,
            None => forall|j: int| 0 <= j < st.len() ==> (#[trigger] st[j]).key != key,
        },
    decreases st.len(),
{
    if st.len() > 0 && st[0].key != key {
        assert(forall|j: int|
            1 <= j < st.len() ==> #[trigger] st[j] == st.drop_first()[j - 1]);
        lemma_find_key_props(st.drop_first(), key);
        match spec_find_key(st.drop_first(), key) {
            Some(i) => {
                assert(st[i + 1] == st.drop_first()[i]);
            },
            None => {},
        }
    }
}

/// If stacking the key column `k` fails while the earlier key columns stack
/// cleanly, the whole finalization fails with that error.
proof fn lemma_key_columns_err(st: Seq<SpecGroup>, k: int, g: int, e: SpecError)
    requires
        0 <= k < g,
        st.len() > 0,
        forall|m: int|
            0 <= m < k ==> spec_push_keys(
                SpecArray::empty(st[0].key[m].data_type()),
                st,
                #[trigger] (m + 0),
            ) is Ok,
        spec_push_keys(SpecArray::empty(st[0].key[k].data_type()), st, k) == Err::<
            SpecArray,
            SpecError,
        >(e),
    ensures
        spec_key_columns(st, 0, g) == Err::<Seq<SpecArray>, SpecError>(e),
{
    lemma_key_columns_err_from(st, 0, k, g, e);
}

proof fn lemma_key_columns_err_from(st: Seq<SpecGroup>, lo: int, k: int, g: int, e: SpecError)
    requires
        0 <= lo <= k < g,
        st.len() > 0,
        forall|m: int|
            lo <= m < k ==> spec_push_keys(
                SpecArray::empty(st[0].key[m].data_type()),
                st,
                #[trigger] (m + 0),
            ) is Ok,
        spec_push_keys(SpecArray::empty(st[0].key[k].data_type()), st, k) == Err::<
            SpecArray,
            SpecError,
        >(e),
    ensures
        spec_key_columns(st, lo, g) == Err::<Seq<SpecArray>, SpecError>(e),
    decreases k - lo,
{
    if lo == k {
    } else {
        assert(spec_push_keys(SpecArray::empty(st[0].key[lo].data_type()), st, lo + 0) is Ok);
        lemma_key_columns_err_from(st, lo + 1, k, g, e);
    }
}

/// When every key column stacks cleanly, finalization's key columns are
/// exactly those stacks, in order.
proof fn lemma_key_columns_from_pushes(st: Seq<SpecGroup>, g: int)
    requires
        st.len() > 0,
        forall|m: int|
            0 <= m < g ==> spec_push_keys(
                SpecArray::empty(st[0].key[m].data_type()),
                st,
                #[trigger] (m + 0),
            ) is Ok,
    ensures
        spec_key_columns(st, 0, g) is Ok,
        spec_key_columns(st, 0, g)->Ok_0.len() == if g > 0 {
            g
        } else {
            0
        },
        forall|m: int|
            0 <= m < g ==> #[trigger] spec_key_columns(st, 0, g)->Ok_0[m] == spec_push_keys(
                SpecArray::empty(st[0].key[m].data_type()),
                st,
                m,
            )->Ok_0,
{
    lemma_key_columns_from_pushes_from(st, 0, g);
    assert forall|m: int|
        0 <= m < g implies #[trigger] spec_key_columns(st, 0, g)->Ok_0[m] == spec_push_keys(
        SpecArray::empty(st[0].key[m].data_type()),
        st,
        m,
    )->Ok_0 by {
        assert(spec_key_columns(st, 0, g)->Ok_0[m - 0] == spec_push_keys(
            SpecArray::empty(st[0].key[m].data_type()),
            st,
            m,
        )->Ok_0);
    }
}

proof fn lemma_key_columns_from_pushes_from(st: Seq<SpecGroup>, lo: int, g: int)
    requires
        st.len() > 0,
        0 <= lo,
        forall|m: int|
            lo <= m < g ==> spec_push_keys(
                SpecArray::empty(st[0].key[m].data_type()),
                st,
                #[trigger] (m + 0),
            ) is Ok,
    ensures
        spec_key_columns(st, lo, g) is Ok,
        spec_key_columns(st, lo, g)->Ok_0.len() == if lo < g {
            g - lo
        } else {
            0
        },
        forall|m: int|
            lo <= m < g ==> #[trigger] spec_key_columns(st, lo, g)->Ok_0[m - lo]
                == spec_push_keys(SpecArray::empty(st[0].key[m].data_type()), st, m)->Ok_0,
    decreases g - lo,
{
    if lo < g {
        assert(spec_push_keys(SpecArray::empty(st[0].key[lo].data_type()), st, lo + 0) is Ok);
        lemma_key_columns_from_pushes_from(st, lo + 1, g);
        let c = spec_push_keys(SpecArray::empty(st[0].key[lo].data_type()), st, lo)->Ok_0;
        let rest = spec_key_columns(st, lo + 1, g)->Ok_0;
        assert(spec_key_columns(st, lo, g)->Ok_0 == seq![c] + rest);
        assert forall|m: int|
            lo <= m < g implies #[trigger] spec_key_columns(st, lo, g)->Ok_0[m - lo]
                == spec_push_keys(SpecArray::empty(st[0].key[m].data_type()), st, m)->Ok_0 by {
            if m == lo {
                assert((seq![c] + rest)[0] == c);
            } else {
                assert((seq![c] + rest)[m - lo] == rest[m - lo - 1]);
                assert(rest[m - (lo + 1)] == spec_push_keys(
                    SpecArray::empty(st[0].key[m].data_type()),
                    st,
                    m,
                )->Ok_0);
            }
        }
    }
}

/// If finalizing accumulator `j` fails while the earlier accumulators
/// finalize cleanly, the accumulator columns fail with that error.
proof fn lemma_acc_columns_err(st: Seq<SpecGroup>, j: int, a: int, e: SpecError)
    requires
        0 <= j < a,
        forall|m: int| 0 <= m < j ==> spec_push_accs(Seq::empty(), st, #[trigger] (m + 0)) is Ok,
        spec_push_accs(Seq::empty(), st, j) == Err::<Seq<Option<i32>>, SpecError>(e),
    ensures
        spec_acc_columns(st, 0, a) == Err::<Seq<SpecArray>, SpecError>(e),
{
    lemma_acc_columns_err_from(st, 0, j, a, e);
}

proof fn lemma_acc_columns_err_from(st: Seq<SpecGroup>, lo: int, j: int, a: int, e: SpecError)
    requires
        0 <= lo <= j < a,
        forall|m: int| lo <= m < j ==> spec_push_accs(Seq::empty(), st, #[trigger] (m + 0)) is Ok,
        spec_push_accs(Seq::empty(), st, j) == Err::<Seq<Option<i32>>, SpecError>(e),
    ensures
        spec_acc_columns(st, lo, a) == Err::<Seq<SpecArray>, SpecError>(e),
    decreases j - lo,
{
    if lo == j {
    } else {
        assert(spec_push_accs(Seq::empty(), st, lo + 0) is Ok);
        lemma_acc_columns_err_from(st, lo + 1, j, a, e);
    }
}

/// When every accumulator finalizes cleanly, the accumulator columns are
/// exactly those value stacks, in order.
proof fn lemma_acc_columns_from_pushes(st: Seq<SpecGroup>, a: int)
    requires
        forall|m: int| 0 <= m < a ==> spec_push_accs(Seq::empty(), st, #[trigger] (m + 0)) is Ok,
    ensures
        spec_acc_columns(st, 0, a) is Ok,
        spec_acc_columns(st, 0, a)->Ok_0.len() == if a > 0 {
            a
        } else {
            0
        },
        forall|m: int|
            0 <= m < a ==> #[trigger] spec_acc_columns(st, 0, a)->Ok_0[m] == SpecArray::Int32(
                spec_push_accs(Seq::empty(), st, m)->Ok_0,
            ),
{
    lemma_acc_columns_from_pushes_from(st, 0, a);
    assert forall|m: int|
        0 <= m < a implies #[trigger] spec_acc_columns(st, 0, a)->Ok_0[m] == SpecArray::Int32(
        spec_push_accs(Seq::empty(), st, m)->Ok_0,
    ) by {
        assert(spec_acc_columns(st, 0, a)->Ok_0[m - 0] == SpecArray::Int32(
            spec_push_accs(Seq::empty(), st, m)->Ok_0,
        ));
    }
}

proof fn lemma_acc_columns_from_pushes_from(st: Seq<SpecGroup>, lo: int, a: int)
    requires
        0 <= lo,
        forall|m: int| lo <= m < a ==> spec_push_accs(Seq::empty(), st, #[trigger] (m + 0)) is Ok,
    ensures
        spec_acc_columns(st, lo, a) is Ok,
        spec_acc_columns(st, lo, a)->Ok_0.len() == if lo < a {
            a - lo
        } else {
            0
        },
        forall|m: int|
            lo <= m < a ==> #[trigger] spec_acc_columns(st, lo, a)->Ok_0[m - lo]
                == SpecArray::Int32(spec_push_accs(Seq::empty(), st, m)->Ok_0),
    decreases a - lo,
{
    if lo < a {
        assert(spec_push_accs(Seq::empty(), st, lo + 0) is Ok);
        lemma_acc_columns_from_pushes_from(st, lo + 1, a);
        let c = SpecArray::Int32(spec_push_accs(Seq::empty(), st, lo)->Ok_0);
        let rest = spec_acc_columns(st, lo + 1, a)->Ok_0;
        assert(spec_acc_columns(st, lo, a)->Ok_0 == seq![c] + rest);
        assert forall|m: int|
            lo <= m < a implies #[trigger] spec_acc_columns(st, lo, a)->Ok_0[m - lo]
                == SpecArray::Int32(spec_push_accs(Seq::empty(), st, m)->Ok_0) by {
            if m == lo {
                assert((seq![c] + rest)[0] == c);
            } else {
                assert((seq![c] + rest)[m - lo] == rest[m - lo - 1]);
                assert(rest[m - (lo + 1)] == SpecArray::Int32(
                    spec_push_accs(Seq::empty(), st, m)->Ok_0,
                ));
            }
        }
    }
}

} // verus!
