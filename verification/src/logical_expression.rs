//! The logical expression algebra: columns, literals, binary operators and
//! unary aggregates, with type inference against a child schema.

use vstd::prelude::*;

use crate::error::{Error, SpecError};
use crate::schema::{spec_field_lookup, DataType, Field, Schema, SpecField};
use crate::text::{
    bool_text_string, i32_decimal_string, spec_bool_text, spec_i32_decimal,
};

verus! {

/// A reference to a column of the child plan, by name.
#[derive(Debug, PartialEq)]
pub struct Column {
    pub name: String,
}

impl Column {
    pub fn new(name: String) -> (r: Self)
        ensures
            r.name@ == name@,
    {
        Column { name }
    }
}

/// A boolean literal.
#[derive(Debug, PartialEq, Clone, Copy)]
pub struct LiteralBool {
    pub value: bool,
}

impl LiteralBool {
    pub fn new(value: bool) -> (r: Self)
        ensures
            r.value == value,
    {
        LiteralBool { value }
    }
}

/// A string literal.
#[derive(Debug, PartialEq)]
pub struct LiteralString {
    pub value: String,
}

impl LiteralString {
    pub fn new(value: String) -> (r: Self)
        ensures
            r.value@ == value@,
    {
        LiteralString { value }
    }
}

/// An integer literal.
#[derive(Debug, PartialEq, Clone, Copy)]
pub struct LiteralInteger {
    pub value: i32,
}

impl LiteralInteger {
    pub fn new(value: i32) -> (r: Self)
        ensures
            r.value == value,
    {
        LiteralInteger { value }
    }
}

/// The binary operators: comparisons and boolean connectives produce `Bool`,
/// arithmetic inherits the left operand's type.
#[derive(Clone, Copy, PartialEq, Eq, Structural, Debug)]
pub enum BinaryOp {
    Eq,
    Neq,
    Gt,
    GtEq,
    Lt,
    LtEq,
    And,
    Or,
    Add,
    Sub,
    Mul,
    Div,
    Mod,
}

impl BinaryOp {
    /// Whether the operator always produces a boolean field.
    pub open spec fn produces_bool(self) -> bool {
        match self {
            BinaryOp::Eq
            | BinaryOp::Neq
            | BinaryOp::Gt
            | BinaryOp::GtEq
            | BinaryOp::Lt
            | BinaryOp::LtEq
            | BinaryOp::And
            | BinaryOp::Or => true,
            _ => false,
        }
    }

    /// The canonical field name of the operator.
    pub open spec fn spec_name(self) -> Seq<char> {
        match self {
            BinaryOp::Eq => "eq"@,
            BinaryOp::Neq => "neq"@,
            BinaryOp::Gt => "gt"@,
            BinaryOp::GtEq => "gteq"@,
            BinaryOp::Lt => "lt"@,
            BinaryOp::LtEq => "lteq"@,
            BinaryOp::And => "and"@,
            BinaryOp::Or => "or"@,
            BinaryOp::Add => "add"@,
            BinaryOp::Sub => "sub"@,
            BinaryOp::Mul => "mul"@,
            BinaryOp::Div => "div"@,
            BinaryOp::Mod => "mod"@,
        }
    }

    /// The canonical field name of the operator.
    pub fn name(&self) -> (r: String)
        ensures
            r@ == self.spec_name(),
    {
        match self {
            BinaryOp::Eq => "eq".to_owned(),
            BinaryOp::Neq => "neq".to_owned(),
            BinaryOp::Gt => "gt".to_owned(),
            BinaryOp::GtEq => "gteq".to_owned(),
            BinaryOp::Lt => "lt".to_owned(),
            BinaryOp::LtEq => "lteq".to_owned(),
            BinaryOp::And => "and".to_owned(),
            BinaryOp::Or => "or".to_owned(),
            BinaryOp::Add => "add".to_owned(),
            BinaryOp::Sub => "sub".to_owned(),
            BinaryOp::Mul => "mul".to_owned(),
            BinaryOp::Div => "div".to_owned(),
            BinaryOp::Mod => "mod".to_owned(),
        }
    }
}

/// The unary aggregate operators.
#[derive(Clone, Copy, PartialEq, Eq, Structural, Debug)]
pub enum AggregateOp {
    Sum,
    Avg,
    Max,
    Min,
    Count,
}

impl AggregateOp {
    /// The canonical field name of the aggregate.
    pub open spec fn spec_name(self) -> Seq<char> {
        match self {
            AggregateOp::Sum => "sum"@,
            AggregateOp::Avg => "avg"@,
            AggregateOp::Max => "max"@,
            AggregateOp::Min => "min"@,
            AggregateOp::Count => "count"@,
        }
    }

    /// The canonical field name of the aggregate.
    pub fn name(&self) -> (r: String)
        ensures
            r@ == self.spec_name(),
    {
        match self {
            AggregateOp::Sum => "sum".to_owned(),
            AggregateOp::Avg => "avg".to_owned(),
            AggregateOp::Max => "max".to_owned(),
            AggregateOp::Min => "min".to_owned(),
            AggregateOp::Count => "count".to_owned(),
        }
    }
}

/// A logical expression: a closed sum over columns, literals, binary
/// operators and unary aggregates.
#[derive(Debug, PartialEq)]
pub enum LogicalExpression {
    Column(Column),
    LiteralBool(LiteralBool),
    LiteralString(LiteralString),
    LiteralInteger(LiteralInteger),
    Binary(BinaryOp, Box<LogicalExpression>, Box<LogicalExpression>),
    Aggregate(AggregateOp, Box<LogicalExpression>),
}

/// Mathematical image of a [`LogicalExpression`].
#[verifier::ext_equal]
pub enum SpecExpr {
    Column(Seq<char>),
    LiteralBool(bool),
    LiteralString(Seq<char>),
    LiteralInteger(i32),
    Binary(BinaryOp, Box<SpecExpr>, Box<SpecExpr>),
    Aggregate(AggregateOp, Box<SpecExpr>),
}

/// The view of an expression tree.
pub open spec fn spec_expr_view(e: LogicalExpression) -> SpecExpr
    decreases e,
{
    match e {
        LogicalExpression::Column(c) => SpecExpr::Column(c.name@),
        LogicalExpression::LiteralBool(b) => SpecExpr::LiteralBool(b.value),
        LogicalExpression::LiteralString(s) => SpecExpr::LiteralString(s.value@),
        LogicalExpression::LiteralInteger(v) => SpecExpr::LiteralInteger(v.value),
        LogicalExpression::Binary(op, l, r) => SpecExpr::Binary(
            op,
            Box::new(spec_expr_view(*l)),
            Box::new(spec_expr_view(*r)),
        ),
        LogicalExpression::Aggregate(op, x) => SpecExpr::Aggregate(
            op,
            Box::new(spec_expr_view(*x)),
        ),
    }
}

impl View for LogicalExpression {
    type V = SpecExpr;

    open spec fn view(&self) -> SpecExpr {
        spec_expr_view(*self)
    }
}

/// The views of a list of expressions.
pub open spec fn exprs_view(es: Seq<LogicalExpression>) -> Seq<SpecExpr> {
    es.map_values(|e: LogicalExpression| e@)
}

/// Type inference for an expression against the schema of its input plan.
///
/// A column resolves to the matching field; literals produce a field named by
/// their printable form; comparisons and boolean connectives produce a `Bool`
/// field with the operator's canonical name without touching their operands;
/// arithmetic and aggregates inherit the operand's inferred type.
pub open spec fn spec_to_field(e: SpecExpr, s: Seq<SpecField>) -> Result<SpecField, SpecError>
    decreases e,
{
    match e {
        SpecExpr::Column(name) => match spec_field_lookup(s, name) {
            Some(f) => Ok(f),
            None => Err(SpecError::NoFieldInLogicalPlan(name)),
        },
        SpecExpr::LiteralBool(b) => Ok(
            SpecField { name: spec_bool_text(b), data_type: DataType::Bool, nullable: false },
        ),
        SpecExpr::LiteralString(v) => Ok(
            SpecField { name: v, data_type: DataType::Utf8, nullable: false },
        ),
        SpecExpr::LiteralInteger(v) => Ok(
            SpecField {
                name: spec_i32_decimal(v as int),
                data_type: DataType::Int32,
                nullable: false,
            },
        ),
        SpecExpr::Binary(op, l, r) => {
            if op.produces_bool() {
                Ok(SpecField { name: op.spec_name(), data_type: DataType::Bool, nullable: false })
            } else {
                match spec_to_field(*l, s) {
                    Ok(f) => Ok(
                        SpecField {
                            name: op.spec_name(),
                            data_type: f.data_type,
                            nullable: false,
                        },
                    ),
                    Err(e) => Err(e),
                }
            }
        },
        SpecExpr::Aggregate(op, x) => match spec_to_field(*x, s) {
            Ok(f) => Ok(
                SpecField { name: op.spec_name(), data_type: f.data_type, nullable: false },
            ),
            Err(e) => Err(e),
        },
    }
}

/// Type inference for a list of expressions: the fields in expression order,
/// or the leftmost error.
pub open spec fn spec_to_fields(es: Seq<SpecExpr>, s: Seq<SpecField>) -> Result<
    Seq<SpecField>,
    SpecError,
>
    decreases es.len(),
{
    if es.len() == 0 {
        Ok(Seq::empty())
    } else {
        match spec_to_field(es[0], s) {
            Ok(f) => match spec_to_fields(es.drop_first(), s) {
                Ok(fs) => Ok(seq![f] + fs),
                Err(e) => Err(e),
            },
            Err(e) => Err(e),
        }
    }
}

impl LogicalExpression {
    /// Infers the field this expression produces against `schema`.
    pub fn to_field_in(&self, schema: &Schema) -> (r: Result<Field, Error>)
        ensures
            match r {
                Ok(f) => spec_to_field(self@, schema@) == Ok::<SpecField, SpecError>(f@),
                Err(e) => spec_to_field(self@, schema@) == Err::<SpecField, SpecError>(e@),
            },
        decreases *self,
    {
        match self {
            LogicalExpression::Column(c) => match schema.lookup(&c.name) {
                Some(f) => Ok(f),
                None => Err(Error::NoFieldInLogicalPlan(c.name.clone())),
            },
            LogicalExpression::LiteralBool(b) => Ok(
                Field {
                    name: bool_text_string(b.value),
                    data_type: DataType::Bool,
                    nullable: false,
                },
            ),
            LogicalExpression::LiteralString(s) => Ok(
                Field { name: s.value.clone(), data_type: DataType::Utf8, nullable: false },
            ),
            LogicalExpression::LiteralInteger(v) => Ok(
                Field {
                    name: i32_decimal_string(v.value),
                    data_type: DataType::Int32,
                    nullable: false,
                },
            ),
            LogicalExpression::Binary(op, l, _r) => {
                let bool_result = match op {
                    BinaryOp::Add | BinaryOp::Sub | BinaryOp::Mul | BinaryOp::Div
                    | BinaryOp::Mod => false,
                    _ => true,
                };
                if bool_result {
                    Ok(Field { name: op.name(), data_type: DataType::Bool, nullable: false })
                } else {
                    match l.to_field_in(schema) {
                        Ok(f) => Ok(
                            Field { name: op.name(), data_type: f.data_type, nullable: false },
                        ),
                        Err(e) => Err(e),
                    }
                }
            },
            LogicalExpression::Aggregate(op, x) => match x.to_field_in(schema) {
                Ok(f) => Ok(Field { name: op.name(), data_type: f.data_type, nullable: false }),
                Err(e) => Err(e),
            },
        }
    }
}

/// Infers the fields of `exprs[i..]` in order, stopping at the first error.
pub fn to_fields_from(exprs: &Vec<LogicalExpression>, i: usize, schema: &Schema) -> (r: Result<
    Vec<Field>,
    Error,
>)
    requires
        i <= exprs@.len(),
    ensures
        match r {
            Ok(fs) => spec_to_fields(exprs_view(exprs@).skip(i as int), schema@) == Ok::<
                Seq<SpecField>,
                SpecError,
            >(fs@.map_values(|f: Field| f@)),
            Err(e) => spec_to_fields(exprs_view(exprs@).skip(i as int), schema@) == Err::<
                Seq<SpecField>,
                SpecError,
            >(e@),
        },
    decreases exprs@.len() - i,
{
    let ghost tail = exprs_view(exprs@).skip(i as int);
    if i == exprs.len() {
        let out: Vec<Field> = Vec::new();
        proof {
            assert(tail =~= Seq::<SpecExpr>::empty());
            assert(out@.map_values(|f: Field| f@) =~= Seq::<SpecField>::empty());
        }
        Ok(out)
    } else {
        proof {
            assert(tail[0] == exprs@[i as int]@);
            assert(tail.drop_first() =~= exprs_view(exprs@).skip(i + 1));
        }
        let f = match exprs[i].to_field_in(schema) {
            Ok(f) => f,
            Err(e) => {
                return Err(e);
            },
        };
        let mut rest = match to_fields_from(exprs, i + 1, schema) {
            Ok(fs) => fs,
            Err(e) => {
                return Err(e);
            },
        };
        let ghost restv = rest@;
        let mut out: Vec<Field> = Vec::new();
        out.push(f);
        out.append(&mut rest);
        proof {
            assert(out@.map_values(|x: Field| x@) =~= seq![f@] + restv.map_values(
                |x: Field| x@,
            ));
        }
        Ok(out)
    }
}

impl LogicalExpression {
    /// `self == other`.
    pub fn eq(self, other: LogicalExpression) -> (r: LogicalExpression)
        ensures
            r@ == SpecExpr::Binary(BinaryOp::Eq, Box::new(self@), Box::new(other@)),
    {
        LogicalExpression::Binary(BinaryOp::Eq, Box::new(self), Box::new(other))
    }

    /// `self != other`.
    pub fn neq(self, other: LogicalExpression) -> (r: LogicalExpression)
        ensures
            r@ == SpecExpr::Binary(BinaryOp::Neq, Box::new(self@), Box::new(other@)),
    {
        LogicalExpression::Binary(BinaryOp::Neq, Box::new(self), Box::new(other))
    }

    /// `self > other`.
    pub fn gt(self, other: LogicalExpression) -> (r: LogicalExpression)
        ensures
            r@ == SpecExpr::Binary(BinaryOp::Gt, Box::new(self@), Box::new(other@)),
    {
        LogicalExpression::Binary(BinaryOp::Gt, Box::new(self), Box::new(other))
    }

    /// `self >= other`.
    pub fn gteq(self, other: LogicalExpression) -> (r: LogicalExpression)
        ensures
            r@ == SpecExpr::Binary(BinaryOp::GtEq, Box::new(self@), Box::new(other@)),
    {
        LogicalExpression::Binary(BinaryOp::GtEq, Box::new(self), Box::new(other))
    }

    /// `self < other`.
    pub fn lt(self, other: LogicalExpression) -> (r: LogicalExpression)
        ensures
            r@ == SpecExpr::Binary(BinaryOp::Lt, Box::new(self@), Box::new(other@)),
    {
        LogicalExpression::Binary(BinaryOp::Lt, Box::new(self), Box::new(other))
    }

    /// `self <= other`.
    pub fn lteq(self, other: LogicalExpression) -> (r: LogicalExpression)
        ensures
            r@ == SpecExpr::Binary(BinaryOp::LtEq, Box::new(self@), Box::new(other@)),
    {
        LogicalExpression::Binary(BinaryOp::LtEq, Box::new(self), Box::new(other))
    }

    /// `self && other`.
    pub fn and(self, other: LogicalExpression) -> (r: LogicalExpression)
        ensures
            r@ == SpecExpr::Binary(BinaryOp::And, Box::new(self@), Box::new(other@)),
    {
        LogicalExpression::Binary(BinaryOp::And, Box::new(self), Box::new(other))
    }

    /// `self || other`.
    pub fn or(self, other: LogicalExpression) -> (r: LogicalExpression)
        ensures
            r@ == SpecExpr::Binary(BinaryOp::Or, Box::new(self@), Box::new(other@)),
    {
        LogicalExpression::Binary(BinaryOp::Or, Box::new(self), Box::new(other))
    }
}

/// A reference to the column called `name`.
pub fn col(name: &str) -> (r: LogicalExpression)
    ensures
        r@ == SpecExpr::Column(name@),
{
    LogicalExpression::Column(Column::new(name.to_owned()))
}

/// A string literal.
pub fn lit_string(value: &str) -> (r: LogicalExpression)
    ensures
        r@ == SpecExpr::LiteralString(value@),
{
    LogicalExpression::LiteralString(LiteralString::new(value.to_owned()))
}

/// An integer literal.
pub fn lit_int(value: i32) -> (r: LogicalExpression)
    ensures
        r@ == SpecExpr::LiteralInteger(value),
{
    LogicalExpression::LiteralInteger(LiteralInteger::new(value))
}

/// A boolean literal.
pub fn lit_bool(value: bool) -> (r: LogicalExpression)
    ensures
        r@ == SpecExpr::LiteralBool(value),
{
    LogicalExpression::LiteralBool(LiteralBool::new(value))
}

/// The running maximum of `expr`.
pub fn max(expr: LogicalExpression) -> (r: LogicalExpression)
    ensures
        r@ == SpecExpr::Aggregate(AggregateOp::Max, Box::new(expr@)),
{
    LogicalExpression::Aggregate(AggregateOp::Max, Box::new(expr))
}

/// The running minimum of `expr`.
pub fn min(expr: LogicalExpression) -> (r: LogicalExpression)
    ensures
        r@ == SpecExpr::Aggregate(AggregateOp::Min, Box::new(expr@)),
{
    LogicalExpression::Aggregate(AggregateOp::Min, Box::new(expr))
}

} // verus!
