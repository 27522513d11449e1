//! Printable forms of expressions and plans, built and specified character
//! by character.

use vstd::prelude::*;

use crate::logical_expression::{BinaryOp, LogicalExpression, SpecExpr};
use crate::logical_plan::{LogicalPlan, SpecPlan};
use crate::text::{spec_bool_text, spec_i32_decimal};

verus! {

/// The operator's infix symbol.
pub open spec fn spec_op_symbol(op: BinaryOp) -> Seq<char> {
    match op {
        BinaryOp::Eq => "=="@,
        BinaryOp::Neq => "!="@,
        BinaryOp::Gt => ">"@,
        BinaryOp::GtEq => ">="@,
        BinaryOp::Lt => "<"@,
        BinaryOp::LtEq => "<="@,
        BinaryOp::And => "&&"@,
        BinaryOp::Or => "||"@,
        BinaryOp::Add => "+"@,
        BinaryOp::Sub => "-"@,
        BinaryOp::Mul => "*"@,
        BinaryOp::Div => "/"@,
        BinaryOp::Mod => "%"@,
    }
}

/// The printable form of an expression: `#name` for columns, quoted
/// literals, infix binary operators, and `name (operand)` for aggregates.
pub open spec fn spec_expr_text(e: SpecExpr) -> Seq<char>
    decreases e,
{
    match e {
        SpecExpr::Column(name) => "#"@ + name,
        SpecExpr::LiteralBool(b) => "'"@ + spec_bool_text(b) + "'"@,
        SpecExpr::LiteralString(s) => "'"@ + s + "'"@,
        SpecExpr::LiteralInteger(v) => "'"@ + spec_i32_decimal(v as int) + "'"@,
        SpecExpr::Binary(op, l, r) => spec_expr_text(*l) + " "@ + spec_op_symbol(op) + " "@
            + spec_expr_text(*r),
        SpecExpr::Aggregate(op, x) => op.spec_name() + " ("@ + spec_expr_text(*x) + ")"@,
    }
}

/// Each expression of the list, followed by `, `.
pub open spec fn spec_exprs_text(es: Seq<SpecExpr>) -> Seq<char>
    decreases es.len(),
{
    if es.len() == 0 {
        Seq::empty()
    } else {
        spec_expr_text(es[0]) + ", "@ + spec_exprs_text(es.drop_first())
    }
}

/// The names of a projection, run together in order.
pub open spec fn spec_names_text(names: Seq<Seq<char>>) -> Seq<char>
    decreases names.len(),
{
    if names.len() == 0 {
        Seq::empty()
    } else {
        names[0] + spec_names_text(names.drop_first())
    }
}

/// One plan node's own line.
pub open spec fn spec_plan_text(p: SpecPlan) -> Seq<char> {
    match p {
        SpecPlan::Scan { path, projection, .. } => "Scan: "@ + path + "; projection="@ + (
        match projection {
            None => "None"@,
            Some(names) => spec_names_text(names),
        }),
        SpecPlan::Projection { exprs, .. } => "Projection: "@ + spec_exprs_text(exprs),
        SpecPlan::Selection { expr, .. } => "Selection: "@ + spec_expr_text(expr) + ", "@,
        SpecPlan::Aggregate { group_exprs, aggregate_exprs, .. } => "Aggregate: "@
            + spec_exprs_text(group_exprs + aggregate_exprs),
    }
}

/// `n` copies of the indentation step.
pub open spec fn spec_indent_text(n: nat) -> Seq<char>
    decreases n,
{
    if n == 0 {
        Seq::empty()
    } else {
        spec_indent_text((n - 1) as nat) + " \t"@
    }
}

/// The indented tree rendering: each node on its own line, children one
/// step deeper.
pub open spec fn spec_format_plan(p: SpecPlan, indent: nat) -> Seq<char>
    decreases p,
{
    let own = spec_indent_text(indent) + spec_plan_text(p) + " \n"@;
    match p {
        SpecPlan::Scan { .. } => own,
        SpecPlan::Projection { child, .. } => own + spec_format_plan(*child, indent + 1),
        SpecPlan::Selection { child, .. } => own + spec_format_plan(*child, indent + 1),
        SpecPlan::Aggregate { child, .. } => own + spec_format_plan(*child, indent + 1),
    }
}

/// The height of a plan tree, bounding the indentation its rendering needs.
pub open spec fn spec_plan_height(p: SpecPlan) -> nat
    decreases p,
{
    match p {
        SpecPlan::Scan { .. } => 1,
        SpecPlan::Projection { child, .. } => spec_plan_height(*child) + 1,
        SpecPlan::Selection { child, .. } => spec_plan_height(*child) + 1,
        SpecPlan::Aggregate { child, .. } => spec_plan_height(*child) + 1,
    }
}

/// Appends the operator's infix symbol.
fn push_op_symbol(s: &mut String, op: BinaryOp)
    ensures
        final(s)@ == old(s)@ + spec_op_symbol(op),
{
    match op {
        BinaryOp::Eq => s.append("=="),
        BinaryOp::Neq => s.append("!="),
        BinaryOp::Gt => s.append(">"),
        BinaryOp::GtEq => s.append(">="),
        BinaryOp::Lt => s.append("<"),
        BinaryOp::LtEq => s.append("<="),
        BinaryOp::And => s.append("&&"),
        BinaryOp::Or => s.append("||"),
        BinaryOp::Add => s.append("+"),
        BinaryOp::Sub => s.append("-"),
        BinaryOp::Mul => s.append("*"),
        BinaryOp::Div => s.append("/"),
        BinaryOp::Mod => s.append("%"),
    }
}

/// Appends the printable form of an expression.
fn push_expr_text(s: &mut String, e: &LogicalExpression)
    ensures
        final(s)@ == old(s)@ + spec_expr_text(e@),
    decreases *e,
{
    match e {
        LogicalExpression::Column(c) => {
            s.append("#");
            s.append(c.name.as_str());
            proof {
                assert(s@ =~= old(s)@ + spec_expr_text(e@));
            }
        },
        LogicalExpression::LiteralBool(b) => {
            s.append("'");
            let t = crate::text::bool_text_string(b.value);
            s.append(t.as_str());
            s.append("'");
            proof {
                assert(s@ =~= old(s)@ + spec_expr_text(e@));
            }
        },
        LogicalExpression::LiteralString(v) => {
            s.append("'");
            s.append(v.value.as_str());
            s.append("'");
            proof {
                assert(s@ =~= old(s)@ + spec_expr_text(e@));
            }
        },
        LogicalExpression::LiteralInteger(v) => {
            s.append("'");
            let t = crate::text::i32_decimal_string(v.value);
            s.append(t.as_str());
            s.append("'");
            proof {
                assert(s@ =~= old(s)@ + spec_expr_text(e@));
            }
        },
        LogicalExpression::Binary(op, l, r) => {
            push_expr_text(s, l);
            s.append(" ");
            push_op_symbol(s, *op);
            s.append(" ");
            push_expr_text(s, r);
            proof {
                assert(s@ =~= old(s)@ + spec_expr_text(e@));
            }
        },
        LogicalExpression::Aggregate(op, x) => {
            let n = op.name();
            s.append(n.as_str());
            s.append(" (");
            push_expr_text(s, x);
            s.append(")");
            proof {
                assert(s@ =~= old(s)@ + spec_expr_text(e@));
            }
        },
    }
}

/// Appends each expression of `es[i..]`, followed by `, `.
fn push_exprs_text(s: &mut String, es: &Vec<LogicalExpression>, i: usize)
    requires
        i <= es@.len(),
    ensures
        final(s)@ == old(s)@ + spec_exprs_text(
            crate::logical_expression::exprs_view(es@).skip(i as int),
        ),
    decreases es@.len() - i,
{
    let ghost tail = crate::logical_expression::exprs_view(es@).skip(i as int);
    if i == es.len() {
        proof {
            assert(tail =~= Seq::<SpecExpr>::empty());
            assert(old(s)@ + Seq::<char>::empty() =~= old(s)@);
        }
    } else {
        proof {
            assert(tail[0] == es@[i as int]@);
            assert(tail.drop_first() =~= crate::logical_expression::exprs_view(es@).skip(i + 1));
        }
        push_expr_text(s, &es[i]);
        s.append(", ");
        push_exprs_text(s, es, i + 1);
        proof {
            assert(s@ =~= old(s)@ + spec_exprs_text(tail));
        }
    }
}

/// Appends the names `names[i..]`, run together.
fn push_names_text(s: &mut String, names: &Vec<String>, i: usize)
    requires
        i <= names@.len(),
    ensures
        final(s)@ == old(s)@ + spec_names_text(
            crate::schema::names_view(names@).skip(i as int),
        ),
    decreases names@.len() - i,
{
    let ghost tail = crate::schema::names_view(names@).skip(i as int);
    if i == names.len() {
        proof {
            assert(tail =~= Seq::<Seq<char>>::empty());
            assert(old(s)@ + Seq::<char>::empty() =~= old(s)@);
        }
    } else {
        proof {
            assert(tail[0] == names@[i as int]@);
            assert(tail.drop_first() =~= crate::schema::names_view(names@).skip(i + 1));
        }
        s.append(names[i].as_str());
        push_names_text(s, names, i + 1);
        proof {
            assert(s@ =~= old(s)@ + spec_names_text(tail));
        }
    }
}

/// Appends one plan node's own line text.
fn push_plan_text(s: &mut String, p: &LogicalPlan)
    ensures
        final(s)@ == old(s)@ + spec_plan_text(p@),
{
    match p {
        LogicalPlan::Scan(scan) => {
            s.append("Scan: ");
            s.append(scan.path.as_str());
            s.append("; projection=");
            match &scan.projection {
                None => {
                    s.append("None");
                },
                Some(names) => {
                    proof {
                        assert(crate::schema::names_view(names@).skip(0) =~= crate::schema::names_view(
                            names@,
                        ));
                    }
                    push_names_text(s, names, 0);
                },
            }
            proof {
                assert(s@ =~= old(s)@ + spec_plan_text(p@));
            }
        },
        LogicalPlan::Projection(node) => {
            s.append("Projection: ");
            proof {
                assert(crate::logical_expression::exprs_view(node.exprs@).skip(0)
                    =~= crate::logical_expression::exprs_view(node.exprs@));
            }
            push_exprs_text(s, &node.exprs, 0);
            proof {
                assert(s@ =~= old(s)@ + spec_plan_text(p@));
            }
        },
        LogicalPlan::Selection(node) => {
            s.append("Selection: ");
            push_expr_text(s, &node.expr);
            s.append(", ");
            proof {
                assert(s@ =~= old(s)@ + spec_plan_text(p@));
            }
        },
        LogicalPlan::Aggregate(node) => {
            s.append("Aggregate: ");
            proof {
                let ges = crate::logical_expression::exprs_view(node.group_exprs@);
                let aes = crate::logical_expression::exprs_view(node.aggregate_exprs@);
                assert(ges.skip(0) =~= ges);
                assert(aes.skip(0) =~= aes);
                lemma_exprs_text_append(ges, aes);
            }
            push_exprs_text(s, &node.group_exprs, 0);
            push_exprs_text(s, &node.aggregate_exprs, 0);
            proof {
                assert(s@ =~= old(s)@ + spec_plan_text(p@));
            }
        },
    }
}

/// Rendering distributes over concatenation of expression lists.
proof fn lemma_exprs_text_append(xs: Seq<SpecExpr>, ys: Seq<SpecExpr>)
    ensures
        spec_exprs_text(xs + ys) == spec_exprs_text(xs) + spec_exprs_text(ys),
    decreases xs.len(),
{
    if xs.len() == 0 {
        assert(xs + ys =~= ys);
        assert(Seq::<char>::empty() + spec_exprs_text(ys) =~= spec_exprs_text(ys));
    } else {
        assert((xs + ys)[0] == xs[0]);
        assert((xs + ys).drop_first() =~= xs.drop_first() + ys);
        lemma_exprs_text_append(xs.drop_first(), ys);
        assert(spec_expr_text(xs[0]) + ", "@ + (spec_exprs_text(xs.drop_first())
            + spec_exprs_text(ys)) =~= (spec_expr_text(xs[0]) + ", "@ + spec_exprs_text(
            xs.drop_first(),
        )) + spec_exprs_text(ys));
    }
}

/// Renders the plan tree, one node per line, children indented one step
/// deeper.
pub fn format_logical_plan(plan: &LogicalPlan, indent: usize) -> (r: String)
    requires
        indent + spec_plan_height(plan@) <= usize::MAX,
    ensures
        r@ == spec_format_plan(plan@, indent as nat),
{
    let mut s = String::new();
    push_format_plan(&mut s, plan, indent);
    proof {
        assert(Seq::<char>::empty() + spec_format_plan(plan@, indent as nat) =~= spec_format_plan(
            plan@,
            indent as nat,
        ));
    }
    s
}

fn push_format_plan(s: &mut String, plan: &LogicalPlan, indent: usize)
    requires
        indent + spec_plan_height(plan@) <= usize::MAX,
    ensures
        final(s)@ == old(s)@ + spec_format_plan(plan@, indent as nat),
    decreases *plan,
{
    let ghost pre = s@;
    let mut i: usize = 0;
    while i < indent
        invariant
            i <= indent,
            s@ == pre + spec_indent_text(i as nat),
        decreases indent - i,
    {
        s.append(" \t");
        proof {
            assert(s@ =~= pre + spec_indent_text((i + 1) as nat));
        }
        i = i + 1;
    }
    push_plan_text(s, plan);
    s.append(" \n");
    match plan {
        LogicalPlan::Scan(_) => {
            proof {
                assert(s@ =~= pre + spec_format_plan(plan@, indent as nat));
            }
        },
        LogicalPlan::Projection(node) => {
            push_format_plan(s, &node.child, indent + 1);
            proof {
                assert(s@ =~= pre + spec_format_plan(plan@, indent as nat));
            }
        },
        LogicalPlan::Selection(node) => {
            push_format_plan(s, &node.child, indent + 1);
            proof {
                assert(s@ =~= pre + spec_format_plan(plan@, indent as nat));
            }
        },
        LogicalPlan::Aggregate(node) => {
            push_format_plan(s, &node.child, indent + 1);
            proof {
                assert(s@ =~= pre + spec_format_plan(plan@, indent as nat));
            }
        },
    }
}

} // verus!
