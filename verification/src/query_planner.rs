//! The physical planner: lowers logical plans and expressions into
//! executable operators, resolving column names to ordinal indices in the
//! child plan's schema.

use vstd::prelude::*;

use crate::data_source::DataSource;
use crate::error::{Error, SpecError};
use crate::logical_expression::{
    exprs_view, AggregateOp, BinaryOp, LogicalExpression, SpecExpr,
};
use crate::logical_plan::{plan_wf, LogicalPlan, SpecPlan};
use crate::physical_expression::{
    pexprs_view, ColumnExpression, LiteralBoolExpression, LiteralIntegerExpression,
    LiteralStringExpression, PhysicalExpression, SpecPExpr,
};
use crate::physical_plan::{
    pplan_sources_wf, AggregateExec, PhysicalPlan, ProjectionExec, ScanExec, SelectionExec,
    SpecPPlan,
};
use crate::schema::{
    lemma_field_index_in_range, spec_field_index, Schema, SpecField,
};

verus! {

// ---------------------------------------------------------------------------
// Expression lowering.
// ---------------------------------------------------------------------------
/// Lowering of one expression against the child schema: a column becomes
/// its ordinal index, literals their typed scalar, comparisons and
/// arithmetic their kernel-bearing node, `Max`/`Min` their aggregate node.
/// Boolean connectives and the remaining aggregates have no physical
/// counterpart and surface `PhysicalExpressionNotSupported`.
pub open spec fn spec_lower_expr(e: SpecExpr, s: Seq<SpecField>) -> Result<SpecPExpr, SpecError>
    decreases e,
{
    match e {
        SpecExpr::Column(name) => match spec_field_index(s, name) {
            Some(i) => Ok(SpecPExpr::Column(i as nat)),
            None => Err(SpecError::NoFieldInLogicalPlan(name)),
        },
        SpecExpr::LiteralBool(b) => Ok(SpecPExpr::LiteralBool(b)),
        SpecExpr::LiteralString(v) => Ok(SpecPExpr::LiteralString(v)),
        SpecExpr::LiteralInteger(v) => Ok(SpecPExpr::LiteralInteger(v)),
        SpecExpr::Binary(op, l, r) => {
            if op == BinaryOp::And || op == BinaryOp::Or {
                Err(SpecError::PhysicalExpressionNotSupported(op.spec_name()))
            } else {
                match spec_lower_expr(*l, s) {
                    Ok(lp) => match spec_lower_expr(*r, s) {
                        Ok(rp) => Ok(SpecPExpr::Binary(op, Box::new(lp), Box::new(rp))),
                        Err(e) => Err(e),
                    },
                    Err(e) => Err(e),
                }
            }
        },
        SpecExpr::Aggregate(op, x) => {
            if op == AggregateOp::Max || op == AggregateOp::Min {
                match spec_lower_expr(*x, s) {
                    Ok(xp) => Ok(SpecPExpr::Aggregate(op, Box::new(xp))),
                    Err(e) => Err(e),
                }
            } else {
                Err(SpecError::PhysicalExpressionNotSupported(op.spec_name()))
            }
        },
    }
}

/// Lowering of an aggregate expression: only `Max` and `Min` nodes are
/// accepted in aggregate position.
pub open spec fn spec_lower_agg_expr(e: SpecExpr, s: Seq<SpecField>) -> Result<
    SpecPExpr,
    SpecError,
> {
    match e {
        SpecExpr::Aggregate(op, x) => {
            if op == AggregateOp::Max || op == AggregateOp::Min {
                match spec_lower_expr(*x, s) {
                    Ok(xp) => Ok(SpecPExpr::Aggregate(op, Box::new(xp))),
                    Err(e) => Err(e),
                }
            } else {
                Err(SpecError::PhysicalExpressionNotSupported(op.spec_name()))
            }
        },
        _ => Err(SpecError::PhysicalExpressionNotSupported("aggregate"@)),
    }
}

/// Lowering of an expression list, stopping at the leftmost error.
pub open spec fn spec_lower_exprs(es: Seq<SpecExpr>, s: Seq<SpecField>) -> Result<
    Seq<SpecPExpr>,
    SpecError,
>
    decreases es.len(),
{
    if es.len() == 0 {
        Ok(Seq::empty())
    } else {
        match spec_lower_expr(es[0], s) {
            Ok(p) => match spec_lower_exprs(es.drop_first(), s) {
                Ok(rest) => Ok(seq![p] + rest),
                Err(e) => Err(e),
            },
            Err(e) => Err(e),
        }
    }
}

/// Lowering of an aggregate expression list, stopping at the leftmost
/// error.
pub open spec fn spec_lower_agg_exprs(es: Seq<SpecExpr>, s: Seq<SpecField>) -> Result<
    Seq<SpecPExpr>,
    SpecError,
>
    decreases es.len(),
{
    if es.len() == 0 {
        Ok(Seq::empty())
    } else {
        match spec_lower_agg_expr(es[0], s) {
            Ok(p) => match spec_lower_agg_exprs(es.drop_first(), s) {
                Ok(rest) => Ok(seq![p] + rest),
                Err(e) => Err(e),
            },
            Err(e) => Err(e),
        }
    }
}

// ---------------------------------------------------------------------------
// Plan lowering.
// ---------------------------------------------------------------------------
/// Lowering of a plan: each node's expressions resolve against its child's
/// schema first, then the child itself is lowered; node schemas carry over,
/// and the scan re-derives its schema from source and projection.
pub open spec fn spec_lower_plan(p: SpecPlan) -> Result<SpecPPlan, SpecError>
    decreases p,
{
    match p {
        SpecPlan::Scan { path, source, projection, schema } => Ok(
            SpecPPlan::Scan {
                source,
                projection,
                schema: crate::logical_plan::spec_scan_schema(source.schema, projection),
            },
        ),
        SpecPlan::Projection { exprs, child, schema } => match spec_lower_exprs(
            exprs,
            child.schema(),
        ) {
            Ok(pes) => match spec_lower_plan(*child) {
                Ok(c) => Ok(SpecPPlan::Projection { input: Box::new(c), exprs: pes, schema }),
                Err(e) => Err(e),
            },
            Err(e) => Err(e),
        },
        SpecPlan::Selection { expr, child, schema } => match spec_lower_expr(
            expr,
            child.schema(),
        ) {
            Ok(pe) => match spec_lower_plan(*child) {
                Ok(c) => Ok(SpecPPlan::Selection { input: Box::new(c), expr: pe, schema }),
                Err(e) => Err(e),
            },
            Err(e) => Err(e),
        },
        SpecPlan::Aggregate { group_exprs, aggregate_exprs, child, schema } => match
            spec_lower_exprs(group_exprs, child.schema()) {
            Ok(ges) => match spec_lower_agg_exprs(aggregate_exprs, child.schema()) {
                Ok(aes) => match spec_lower_plan(*child) {
                    Ok(c) => Ok(
                        SpecPPlan::Aggregate {
                            input: Box::new(c),
                            group_exprs: ges,
                            agg_exprs: aes,
                            schema,
                        },
                    ),
                    Err(e) => Err(e),
                },
                Err(e) => Err(e),
            },
            Err(e) => Err(e),
        },
    }
}

// ---------------------------------------------------------------------------
// The executable planner.
// ---------------------------------------------------------------------------
impl LogicalExpression {
    /// Lowers this expression against the schema of `input`; a column that
    /// does not resolve surfaces `NoFieldInLogicalPlan`.
    pub fn to_physical_expression(&self, input: &LogicalPlan) -> (r: Result<
        PhysicalExpression,
        Error,
    >)
        ensures
            match r {
                Ok(pe) => spec_lower_expr(self@, input@.schema()) == Ok::<SpecPExpr, SpecError>(
                    pe@,
                ),
                Err(e) => spec_lower_expr(self@, input@.schema()) == Err::<SpecPExpr, SpecError>(
                    e@,
                ),
            },
    {
        self.lower_in(input.schema())
    }

    /// Lowers this expression against a schema.
    pub fn lower_in(&self, schema: &Schema) -> (r: Result<PhysicalExpression, Error>)
        ensures
            match r {
                Ok(pe) => spec_lower_expr(self@, schema@) == Ok::<SpecPExpr, SpecError>(pe@),
                Err(e) => spec_lower_expr(self@, schema@) == Err::<SpecPExpr, SpecError>(e@),
            },
        decreases *self,
    {
        match self {
            LogicalExpression::Column(c) => match schema.index_of(&c.name) {
                Some(i) => Ok(PhysicalExpression::Column(ColumnExpression { index: i })),
                None => Err(Error::NoFieldInLogicalPlan(c.name.clone())),
            },
            LogicalExpression::LiteralBool(b) => Ok(
                PhysicalExpression::LiteralBool(LiteralBoolExpression::new(b.value)),
            ),
            LogicalExpression::LiteralString(v) => Ok(
                PhysicalExpression::LiteralString(LiteralStringExpression::new(v.value.clone())),
            ),
            LogicalExpression::LiteralInteger(v) => Ok(
                PhysicalExpression::LiteralInteger(LiteralIntegerExpression::new(v.value)),
            ),
            LogicalExpression::Binary(op, l, r) => {
                let connective = match op {
                    BinaryOp::And | BinaryOp::Or => true,
                    _ => false,
                };
                if connective {
                    Err(Error::PhysicalExpressionNotSupported(op.name()))
                } else {
                    let lp = match l.lower_in(schema) {
                        Ok(p) => p,
                        Err(e) => {
                            return Err(e);
                        },
                    };
                    let rp = match r.lower_in(schema) {
                        Ok(p) => p,
                        Err(e) => {
                            return Err(e);
                        },
                    };
                    Ok(PhysicalExpression::Binary(*op, Box::new(lp), Box::new(rp)))
                }
            },
            LogicalExpression::Aggregate(op, x) => {
                let supported = match op {
                    AggregateOp::Max | AggregateOp::Min => true,
                    _ => false,
                };
                if supported {
                    let xp = match x.lower_in(schema) {
                        Ok(p) => p,
                        Err(e) => {
                            return Err(e);
                        },
                    };
                    Ok(PhysicalExpression::Aggregate(*op, Box::new(xp)))
                } else {
                    Err(Error::PhysicalExpressionNotSupported(op.name()))
                }
            },
        }
    }

    /// Lowers this expression in aggregate position: only `Max` and `Min`
    /// are accepted.
    pub fn to_physical_aggregate_expression(&self, schema: &Schema) -> (r: Result<
        PhysicalExpression,
        Error,
    >)
        ensures
            match r {
                Ok(pe) => spec_lower_agg_expr(self@, schema@) == Ok::<SpecPExpr, SpecError>(pe@),
                Err(e) => spec_lower_agg_expr(self@, schema@) == Err::<SpecPExpr, SpecError>(e@),
            },
    {
        match self {
            LogicalExpression::Aggregate(op, x) => {
                let supported = match op {
                    AggregateOp::Max | AggregateOp::Min => true,
                    _ => false,
                };
                if supported {
                    let xp = match x.lower_in(schema) {
                        Ok(p) => p,
                        Err(e) => {
                            return Err(e);
                        },
                    };
                    Ok(PhysicalExpression::Aggregate(*op, Box::new(xp)))
                } else {
                    Err(Error::PhysicalExpressionNotSupported(op.name()))
                }
            },
            _ => Err(Error::PhysicalExpressionNotSupported("aggregate".to_owned())),
        }
    }
}

/// Lowers the expressions `es[i..]` against a schema.
fn lower_exprs_from(es: &Vec<LogicalExpression>, i: usize, schema: &Schema) -> (r: Result<
    Vec<PhysicalExpression>,
    Error,
>)
    requires
        i <= es@.len(),
    ensures
        match r {
            Ok(pes) => spec_lower_exprs(exprs_view(es@).skip(i as int), schema@) == Ok::<
                Seq<SpecPExpr>,
                SpecError,
            >(pexprs_view(pes@)),
            Err(e) => spec_lower_exprs(exprs_view(es@).skip(i as int), schema@) == Err::<
                Seq<SpecPExpr>,
                SpecError,
            >(e@),
        },
    decreases es@.len() - i,
{
    let ghost tail = exprs_view(es@).skip(i as int);
    if i == es.len() {
        let out: Vec<PhysicalExpression> = Vec::new();
        proof {
            assert(tail =~= Seq::<SpecExpr>::empty());
            assert(pexprs_view(out@) =~= Seq::<SpecPExpr>::empty());
        }
        Ok(out)
    } else {
        proof {
            assert(tail[0] == es@[i as int]@);
            assert(tail.drop_first() =~= exprs_view(es@).skip(i + 1));
        }
        let p = match es[i].lower_in(schema) {
            Ok(p) => p,
            Err(e) => {
                return Err(e);
            },
        };
        let mut rest = match lower_exprs_from(es, i + 1, schema) {
            Ok(pes) => pes,
            Err(e) => {
                return Err(e);
            },
        };
        let ghost restv = pexprs_view(rest@);
        let mut out: Vec<PhysicalExpression> = Vec::new();
        out.push(p);
        out.append(&mut rest);
        proof {
            assert(pexprs_view(out@) =~= seq![p@] + restv);
        }
        Ok(out)
    }
}

/// Lowers the aggregate expressions `es[i..]` against a schema.
fn lower_agg_exprs_from(es: &Vec<LogicalExpression>, i: usize, schema: &Schema) -> (r: Result<
    Vec<PhysicalExpression>,
    Error,
>)
    requires
        i <= es@.len(),
    ensures
        match r {
            Ok(pes) => spec_lower_agg_exprs(exprs_view(es@).skip(i as int), schema@) == Ok::<
                Seq<SpecPExpr>,
                SpecError,
            >(pexprs_view(pes@)),
            Err(e) => spec_lower_agg_exprs(exprs_view(es@).skip(i as int), schema@) == Err::<
                Seq<SpecPExpr>,
                SpecError,
            >(e@),
        },
    decreases es@.len() - i,
{
    let ghost tail = exprs_view(es@).skip(i as int);
    if i == es.len() {
        let out: Vec<PhysicalExpression> = Vec::new();
        proof {
            assert(tail =~= Seq::<SpecExpr>::empty());
            assert(pexprs_view(out@) =~= Seq::<SpecPExpr>::empty());
        }
        Ok(out)
    } else {
        proof {
            assert(tail[0] == es@[i as int]@);
            assert(tail.drop_first() =~= exprs_view(es@).skip(i + 1));
        }
        let p = match es[i].to_physical_aggregate_expression(schema) {
            Ok(p) => p,
            Err(e) => {
                return Err(e);
            },
        };
        let mut rest = match lower_agg_exprs_from(es, i + 1, schema) {
            Ok(pes) => pes,
            Err(e) => {
                return Err(e);
            },
        };
        let ghost restv = pexprs_view(rest@);
        let mut out: Vec<PhysicalExpression> = Vec::new();
        out.push(p);
        out.append(&mut rest);
        proof {
            assert(pexprs_view(out@) =~= seq![p@] + restv);
        }
        Ok(out)
    }
}

impl ScanExec {
    /// Builds a scan operator, deriving its schema from the source's schema
    /// filtered by the projection.
    pub fn new(data_source: DataSource, projection: Option<Vec<String>>) -> (r: Self)
        ensures
            PhysicalPlan::Scan(r)@ == (SpecPPlan::Scan {
                source: data_source@,
                projection: match projection {
                    Some(names) => Some(crate::schema::names_view(names@)),
                    None => None,
                },
                schema: crate::logical_plan::spec_scan_schema(
                    data_source@.schema,
                    match projection {
                        Some(names) => Some(crate::schema::names_view(names@)),
                        None => None,
                    },
                ),
            }),
    {
        let schema = Self::derive_schema(&data_source, &projection);
        ScanExec { data_source, projection, schema }
    }

    fn derive_schema(data_source: &DataSource, projection: &Option<Vec<String>>) -> (r: Schema)
        ensures
            r@ == crate::logical_plan::spec_scan_schema(
                data_source@.schema,
                match projection {
                    Some(names) => Some(crate::schema::names_view(names@)),
                    None => None,
                },
            ),
    {
        match projection {
            Some(names) => {
                let src = data_source.schema();
                Schema { fields: crate::schema::project_field_vec(&src.fields, names) }
            },
            None => data_source.schema(),
        }
    }
}

impl LogicalPlan {
    /// Lowers the logical tree into a physical operator tree.
    pub fn to_physical_plan(self) -> (r: Result<PhysicalPlan, Error>)
        ensures
            match r {
                Ok(q) => spec_lower_plan(self@) == Ok::<SpecPPlan, SpecError>(q@),
                Err(e) => spec_lower_plan(self@) == Err::<SpecPPlan, SpecError>(e@),
            },
        decreases self,
    {
        match self {
            LogicalPlan::Scan(scan) => Ok(
                PhysicalPlan::Scan(ScanExec::new(scan.data_source, scan.projection)),
            ),
            LogicalPlan::Projection(node) => {
                let exprs = match lower_exprs_from(&node.exprs, 0, node.child.schema()) {
                    Ok(pes) => pes,
                    Err(e) => {
                        proof {
                            assert(exprs_view(node.exprs@).skip(0) =~= exprs_view(node.exprs@));
                        }
                        return Err(e);
                    },
                };
                proof {
                    assert(exprs_view(node.exprs@).skip(0) =~= exprs_view(node.exprs@));
                }
                let input = match (*node.child).to_physical_plan() {
                    Ok(q) => q,
                    Err(e) => {
                        return Err(e);
                    },
                };
                Ok(
                    PhysicalPlan::Projection(
                        ProjectionExec { input: Box::new(input), schema: node.schema, exprs },
                    ),
                )
            },
            LogicalPlan::Selection(node) => {
                let expr = match node.expr.lower_in(node.child.schema()) {
                    Ok(pe) => pe,
                    Err(e) => {
                        return Err(e);
                    },
                };
                let input = match (*node.child).to_physical_plan() {
                    Ok(q) => q,
                    Err(e) => {
                        return Err(e);
                    },
                };
                Ok(
                    PhysicalPlan::Selection(
                        SelectionExec { input: Box::new(input), schema: node.schema, expr },
                    ),
                )
            },
            LogicalPlan::Aggregate(node) => {
                let group_exprs = match lower_exprs_from(&node.group_exprs, 0, node.child.schema())
                    {
                    Ok(pes) => pes,
                    Err(e) => {
                        proof {
                            assert(exprs_view(node.group_exprs@).skip(0) =~= exprs_view(
                                node.group_exprs@,
                            ));
                        }
                        return Err(e);
                    },
                };
                proof {
                    assert(exprs_view(node.group_exprs@).skip(0) =~= exprs_view(
                        node.group_exprs@,
                    ));
                }
                let agg_exprs = match lower_agg_exprs_from(
                    &node.aggregate_exprs,
                    0,
                    node.child.schema(),
                ) {
                    Ok(pes) => pes,
                    Err(e) => {
                        proof {
                            assert(exprs_view(node.aggregate_exprs@).skip(0) =~= exprs_view(
                                node.aggregate_exprs@,
                            ));
                        }
                        return Err(e);
                    },
                };
                proof {
                    assert(exprs_view(node.aggregate_exprs@).skip(0) =~= exprs_view(
                        node.aggregate_exprs@,
                    ));
                }
                let input = match (*node.child).to_physical_plan() {
                    Ok(q) => q,
                    Err(e) => {
                        return Err(e);
                    },
                };
                Ok(
                    PhysicalPlan::Aggregate(
                        AggregateExec {
                            input: Box::new(input),
                            schema: node.schema,
                            group_exprs,
                            agg_exprs,
                        },
                    ),
                )
            },
        }
    }
}

/// Lowering a well-formed tree preserves each node's schema and the
/// well-formedness of every data source.
pub proof fn lemma_lower_preserves(p: SpecPlan)
    requires
        plan_wf(p),
        spec_lower_plan(p) is Ok,
    ensures
        spec_lower_plan(p)->Ok_0.schema() == p.schema(),
        pplan_sources_wf(spec_lower_plan(p)->Ok_0),
    decreases p,
{
    match p {
        SpecPlan::Scan { .. } => {},
        SpecPlan::Projection { child, .. } => {
            lemma_lower_preserves(*child);
        },
        SpecPlan::Selection { child, .. } => {
            lemma_lower_preserves(*child);
        },
        SpecPlan::Aggregate { child, .. } => {
            lemma_lower_preserves(*child);
        },
    }
}



// ---------------------------------------------------------------------------
// Raising: the structural inverse of lowering.
// ---------------------------------------------------------------------------
/// The logical expression a physical expression denotes, with ordinal
/// columns renamed through the input schema.
pub open spec fn spec_raise_expr(e: SpecPExpr, s: Seq<SpecField>) -> SpecExpr
    decreases e,
{
    match e {
        SpecPExpr::Column(i) => SpecExpr::Column(s[i as int].name),
        SpecPExpr::LiteralBool(b) => SpecExpr::LiteralBool(b),
        SpecPExpr::LiteralString(v) => SpecExpr::LiteralString(v),
        SpecPExpr::LiteralInteger(v) => SpecExpr::LiteralInteger(v),
        SpecPExpr::Binary(op, l, r) => SpecExpr::Binary(
            op,
            Box::new(spec_raise_expr(*l, s)),
            Box::new(spec_raise_expr(*r, s)),
        ),
        SpecPExpr::Aggregate(op, x) => SpecExpr::Aggregate(op, Box::new(spec_raise_expr(*x, s))),
    }
}

/// The raised form of an expression list.
pub open spec fn spec_raise_exprs(es: Seq<SpecPExpr>, s: Seq<SpecField>) -> Seq<SpecExpr> {
    Seq::new(es.len(), |i: int| spec_raise_expr(es[i], s))
}

/// The logical tree a physical tree denotes; the scan's path, which
/// lowering drops, comes back empty.
pub open spec fn spec_raise_plan(q: SpecPPlan) -> SpecPlan
    decreases q,
{
    match q {
        SpecPPlan::Scan { source, projection, schema } => SpecPlan::Scan {
            path: Seq::empty(),
            source,
            projection,
            schema,
        },
        SpecPPlan::Projection { input, exprs, schema } => SpecPlan::Projection {
            exprs: spec_raise_exprs(exprs, input.schema()),
            child: Box::new(spec_raise_plan(*input)),
            schema,
        },
        SpecPPlan::Selection { input, expr, schema } => SpecPlan::Selection {
            expr: spec_raise_expr(expr, input.schema()),
            child: Box::new(spec_raise_plan(*input)),
            schema,
        },
        SpecPPlan::Aggregate { input, group_exprs, agg_exprs, schema } => SpecPlan::Aggregate {
            group_exprs: spec_raise_exprs(group_exprs, input.schema()),
            aggregate_exprs: spec_raise_exprs(agg_exprs, input.schema()),
            child: Box::new(spec_raise_plan(*input)),
            schema,
        },
    }
}

/// Raising keeps the cached schema.
proof fn lemma_raise_keeps_schema(q: SpecPPlan)
    ensures
        spec_raise_plan(q).schema() == q.schema(),
{
    match q {
        SpecPPlan::Scan { .. } => {},
        SpecPPlan::Projection { .. } => {},
        SpecPPlan::Selection { .. } => {},
        SpecPPlan::Aggregate { .. } => {},
    }
}

/// Raising a cleanly lowered expression gives the expression back.
proof fn lemma_raise_lower_expr(e: SpecExpr, s: Seq<SpecField>)
    requires
        spec_lower_expr(e, s) is Ok,
    ensures
        spec_raise_expr(spec_lower_expr(e, s)->Ok_0, s) == e,
    decreases e,
{
    match e {
        SpecExpr::Column(name) => {
            lemma_field_index_in_range(s, name);
        },
        SpecExpr::Binary(op, l, r) => {
            if !(op == BinaryOp::And || op == BinaryOp::Or) {
                lemma_raise_lower_expr(*l, s);
                lemma_raise_lower_expr(*r, s);
            }
        },
        SpecExpr::Aggregate(op, x) => {
            if op == AggregateOp::Max || op == AggregateOp::Min {
                lemma_raise_lower_expr(*x, s);
            }
        },
        _ => {},
    }
}

/// Raising a cleanly lowered expression list gives the list back.
proof fn lemma_raise_lower_exprs(es: Seq<SpecExpr>, s: Seq<SpecField>)
    requires
        spec_lower_exprs(es, s) is Ok,
    ensures
        spec_lower_exprs(es, s)->Ok_0.len() == es.len(),
        spec_raise_exprs(spec_lower_exprs(es, s)->Ok_0, s) == es,
    decreases es.len(),
{
    let pes = spec_lower_exprs(es, s)->Ok_0;
    if es.len() == 0 {
        assert(spec_raise_exprs(pes, s) =~= es);
    } else {
        lemma_raise_lower_expr(es[0], s);
        lemma_raise_lower_exprs(es.drop_first(), s);
        let p0 = spec_lower_expr(es[0], s)->Ok_0;
        let rest = spec_lower_exprs(es.drop_first(), s)->Ok_0;
        assert(pes == seq![p0] + rest);
        assert forall|i: int| 0 <= i < es.len() implies spec_raise_exprs(pes, s)[i] == es[i] by {
            if i == 0 {
                assert(pes[0] == p0);
            } else {
                assert(pes[i] == rest[i - 1]);
                assert(spec_raise_exprs(rest, s)[i - 1] == es.drop_first()[i - 1]);
            }
        }
        assert(spec_raise_exprs(pes, s) =~= es);
    }
}

/// Raising a cleanly lowered aggregate expression list gives the list back.
proof fn lemma_raise_lower_agg_exprs(es: Seq<SpecExpr>, s: Seq<SpecField>)
    requires
        spec_lower_agg_exprs(es, s) is Ok,
    ensures
        spec_lower_agg_exprs(es, s)->Ok_0.len() == es.len(),
        spec_raise_exprs(spec_lower_agg_exprs(es, s)->Ok_0, s) == es,
    decreases es.len(),
{
    let pes = spec_lower_agg_exprs(es, s)->Ok_0;
    if es.len() == 0 {
        assert(spec_raise_exprs(pes, s) =~= es);
    } else {
        match es[0] {
            SpecExpr::Aggregate(op, x) => {
                lemma_raise_lower_expr(*x, s);
            },
            _ => {},
        }
        lemma_raise_lower_agg_exprs(es.drop_first(), s);
        let p0 = spec_lower_agg_expr(es[0], s)->Ok_0;
        let rest = spec_lower_agg_exprs(es.drop_first(), s)->Ok_0;
        assert(pes == seq![p0] + rest);
        assert forall|i: int| 0 <= i < es.len() implies spec_raise_exprs(pes, s)[i] == es[i] by {
            if i == 0 {
                assert(pes[0] == p0);
            } else {
                assert(pes[i] == rest[i - 1]);
                assert(spec_raise_exprs(rest, s)[i - 1] == es.drop_first()[i - 1]);
            }
        }
        assert(spec_raise_exprs(pes, s) =~= es);
    }
}

/// Lowering is a left inverse of raising on its own image: a physical tree
/// obtained by lowering a well-formed logical tree lowers back to itself
/// from its raised logical form.
pub proof fn lemma_lower_raise_roundtrip(p: SpecPlan)
    requires
        plan_wf(p),
        spec_lower_plan(p) is Ok,
    ensures
        spec_lower_plan(spec_raise_plan(spec_lower_plan(p)->Ok_0)) == spec_lower_plan(p),
    decreases p,
{
    let q = spec_lower_plan(p)->Ok_0;
    match p {
        SpecPlan::Scan { path, source, projection, schema } => {},
        SpecPlan::Projection { exprs, child, schema } => {
            lemma_lower_preserves(*child);
            lemma_raise_lower_exprs(exprs, child.schema());
            lemma_lower_raise_roundtrip(*child);
            let qc = spec_lower_plan(*child)->Ok_0;
            lemma_raise_keeps_schema(qc);
            assert(spec_raise_plan(q) == SpecPlan::Projection {
                exprs,
                child: Box::new(spec_raise_plan(qc)),
                schema,
            });
            assert(spec_raise_plan(qc).schema() == child.schema());
        },
        SpecPlan::Selection { expr, child, schema } => {
            lemma_lower_preserves(*child);
            lemma_raise_lower_expr(expr, child.schema());
            lemma_lower_raise_roundtrip(*child);
            let qc = spec_lower_plan(*child)->Ok_0;
            lemma_raise_keeps_schema(qc);
            assert(spec_raise_plan(q) == SpecPlan::Selection {
                expr,
                child: Box::new(spec_raise_plan(qc)),
                schema,
            });
            assert(spec_raise_plan(qc).schema() == child.schema());
        },
        SpecPlan::Aggregate { group_exprs, aggregate_exprs, child, schema } => {
            lemma_lower_preserves(*child);
            lemma_raise_lower_exprs(group_exprs, child.schema());
            lemma_raise_lower_agg_exprs(aggregate_exprs, child.schema());
            lemma_lower_raise_roundtrip(*child);
            let qc = spec_lower_plan(*child)->Ok_0;
            lemma_raise_keeps_schema(qc);
            assert(spec_raise_plan(q) == SpecPlan::Aggregate {
                group_exprs,
                aggregate_exprs,
                child: Box::new(spec_raise_plan(qc)),
                schema,
            });
            assert(spec_raise_plan(qc).schema() == child.schema());
        },
    }
}

} // verus!
