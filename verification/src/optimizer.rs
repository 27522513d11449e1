//! Projection pushdown: one top-down pass that collects the column names
//! referenced above the scan and rewrites the scan's projection to their
//! union with the scan's original projection.
//!
//! The traveling set is kept as a duplicate-free sequence in first-insertion
//! order, so the pass is deterministic and applying it twice yields the very
//! same plan.

use vstd::prelude::*;

use crate::error::SpecError;
use crate::logical_expression::{exprs_view, LogicalExpression, SpecExpr};
use crate::logical_plan::{
    plan_wf, spec_aggregate_new, spec_projection_new, spec_scan_new, spec_selection_new,
    LogicalPlan, Scan, SpecPlan,
};
use crate::schema::{contains_string, names_view, spec_field_lookup, SpecField};

verus! {

// ---------------------------------------------------------------------------
// The traveling set: a duplicate-free name sequence in insertion order.
// ---------------------------------------------------------------------------
/// `s` holds no name twice.
pub open spec fn distinct_names(s: Seq<Seq<char>>) -> bool {
    forall|i: int, j: int| 0 <= i < j < s.len() ==> s[i] != s[j]
}

/// `s` extended by `n` unless `n` is already present.
pub open spec fn set_insert(s: Seq<Seq<char>>, n: Seq<char>) -> Seq<Seq<char>> {
    if s.contains(n) {
        s
    } else {
        s.push(n)
    }
}

/// `s` extended by each of `names` in order, without duplicates.
pub open spec fn spec_insert_all(s: Seq<Seq<char>>, names: Seq<Seq<char>>) -> Seq<Seq<char>>
    decreases names.len(),
{
    if names.len() == 0 {
        s
    } else {
        spec_insert_all(set_insert(s, names[0]), names.drop_first())
    }
}

/// Whether the expression references the column `n` somewhere.
pub open spec fn expr_has_column(e: SpecExpr, n: Seq<char>) -> bool
    decreases e,
{
    match e {
        SpecExpr::Column(name) => name == n,
        SpecExpr::LiteralBool(_) => false,
        SpecExpr::LiteralString(_) => false,
        SpecExpr::LiteralInteger(_) => false,
        SpecExpr::Binary(_, l, r) => expr_has_column(*l, n) || expr_has_column(*r, n),
        SpecExpr::Aggregate(_, x) => expr_has_column(*x, n),
    }
}

/// Whether some expression of the list references the column `n`.
pub open spec fn exprs_have_column(es: Seq<SpecExpr>, n: Seq<char>) -> bool {
    exists|i: int| 0 <= i < es.len() && expr_has_column(#[trigger] es[i], n)
}

/// `s` extended by the names of all columns referenced in `e`, in traversal
/// order: literals contribute nothing, binary and aggregate nodes recurse.
pub open spec fn spec_extract_columns(e: SpecExpr, s: Seq<Seq<char>>) -> Seq<Seq<char>>
    decreases e,
{
    match e {
        SpecExpr::Column(name) => set_insert(s, name),
        SpecExpr::LiteralBool(_) => s,
        SpecExpr::LiteralString(_) => s,
        SpecExpr::LiteralInteger(_) => s,
        SpecExpr::Binary(_, l, r) => spec_extract_columns(*r, spec_extract_columns(*l, s)),
        SpecExpr::Aggregate(_, x) => spec_extract_columns(*x, s),
    }
}

/// `s` extended by the columns referenced in each expression, left to right.
pub open spec fn spec_extract_all(es: Seq<SpecExpr>, s: Seq<Seq<char>>) -> Seq<Seq<char>>
    decreases es.len(),
{
    if es.len() == 0 {
        s
    } else {
        spec_extract_all(es.drop_first(), spec_extract_columns(es[0], s))
    }
}

// ---------------------------------------------------------------------------
// What the traveling set contains, and that it stays duplicate-free and only
// grows at the end.
// ---------------------------------------------------------------------------
/// After an insertion the set holds exactly the old names and the new one,
/// stays duplicate-free, and keeps the old names as a prefix.
pub proof fn lemma_set_insert(s: Seq<Seq<char>>, n: Seq<char>)
    ensures
        forall|m: Seq<char>| set_insert(s, n).contains(m) <==> s.contains(m) || m == n,
        distinct_names(s) ==> distinct_names(set_insert(s, n)),
        set_insert(s, n).take(s.len() as int) == s,
        s.len() <= set_insert(s, n).len(),
{
    let r = set_insert(s, n);
    assert forall|m: Seq<char>| r.contains(m) implies s.contains(m) || m == n by {
        if !s.contains(n) {
            let i = choose|i: int| 0 <= i < r.len() && r[i] == m;
            if i < s.len() {
                assert(s[i] == m);
            }
        }
    }
    assert forall|m: Seq<char>| s.contains(m) || m == n implies r.contains(m) by {
        if s.contains(m) {
            let i = choose|i: int| 0 <= i < s.len() && s[i] == m;
            assert(r[i] == m);
        } else {
            assert(r[s.len() as int] == n);
        }
    }
    assert(r.take(s.len() as int) =~= s);
}

/// Inserting many names keeps old names, adds exactly the new ones, keeps
/// the set duplicate-free, and keeps the old set as a prefix.
pub proof fn lemma_insert_all(s: Seq<Seq<char>>, names: Seq<Seq<char>>)
    ensures
        forall|m: Seq<char>|
            spec_insert_all(s, names).contains(m) <==> s.contains(m) || names.contains(m),
        distinct_names(s) ==> distinct_names(spec_insert_all(s, names)),
        spec_insert_all(s, names).take(s.len() as int) == s,
        s.len() <= spec_insert_all(s, names).len(),
    decreases names.len(),
{
    if names.len() == 0 {
        assert(s.take(s.len() as int) =~= s);
        assert(forall|m: Seq<char>| !names.contains(m));
    } else {
        let s1 = set_insert(s, names[0]);
        lemma_set_insert(s, names[0]);
        lemma_insert_all(s1, names.drop_first());
        assert forall|m: Seq<char>|
            spec_insert_all(s, names).contains(m) implies s.contains(m) || names.contains(m) by {
            if s1.contains(m) {
                if m == names[0] {
                    assert(names.contains(m));
                }
            } else {
                assert(names.drop_first().contains(m));
                let i = choose|i: int|
                    0 <= i < names.drop_first().len() && names.drop_first()[i] == m;
                assert(names[i + 1] == m);
            }
        }
        assert forall|m: Seq<char>|
            s.contains(m) || names.contains(m) implies spec_insert_all(s, names).contains(m) by {
            if s.contains(m) || m == names[0] {
                assert(s1.contains(m));
            } else {
                let i = choose|i: int| 0 <= i < names.len() && names[i] == m;
                assert(names.drop_first()[i - 1] == m);
            }
        }
        assert(spec_insert_all(s, names).take(s.len() as int) =~= s1.take(s.len() as int).take(
            s.len() as int,
        ));
        assert(s1.take(s.len() as int) == s);
        assert(spec_insert_all(s, names).take(s.len() as int) =~= s);
    }
}

/// Extraction keeps old names, adds exactly the referenced columns, keeps
/// the set duplicate-free, and keeps the old set as a prefix.
pub proof fn lemma_extract_columns(e: SpecExpr, s: Seq<Seq<char>>)
    ensures
        forall|m: Seq<char>|
            spec_extract_columns(e, s).contains(m) <==> s.contains(m) || expr_has_column(e, m),
        distinct_names(s) ==> distinct_names(spec_extract_columns(e, s)),
        spec_extract_columns(e, s).take(s.len() as int) == s,
        s.len() <= spec_extract_columns(e, s).len(),
    decreases e,
{
    match e {
        SpecExpr::Column(name) => {
            lemma_set_insert(s, name);
        },
        SpecExpr::LiteralBool(_) => {
            assert(s.take(s.len() as int) =~= s);
        },
        SpecExpr::LiteralString(_) => {
            assert(s.take(s.len() as int) =~= s);
        },
        SpecExpr::LiteralInteger(_) => {
            assert(s.take(s.len() as int) =~= s);
        },
        SpecExpr::Binary(_, l, r) => {
            let s1 = spec_extract_columns(*l, s);
            lemma_extract_columns(*l, s);
            lemma_extract_columns(*r, s1);
            assert(spec_extract_columns(e, s).take(s.len() as int) =~= spec_extract_columns(
                *r,
                s1,
            ).take(s1.len() as int).take(s.len() as int));
        },
        SpecExpr::Aggregate(_, x) => {
            lemma_extract_columns(*x, s);
        },
    }
}

/// List extraction keeps old names, adds exactly the referenced columns,
/// keeps the set duplicate-free, and keeps the old set as a prefix.
pub proof fn lemma_extract_all(es: Seq<SpecExpr>, s: Seq<Seq<char>>)
    ensures
        forall|m: Seq<char>|
            spec_extract_all(es, s).contains(m) <==> s.contains(m) || exprs_have_column(es, m),
        distinct_names(s) ==> distinct_names(spec_extract_all(es, s)),
        spec_extract_all(es, s).take(s.len() as int) == s,
        s.len() <= spec_extract_all(es, s).len(),
    decreases es.len(),
{
    if es.len() == 0 {
        assert(s.take(s.len() as int) =~= s);
        assert(forall|m: Seq<char>| !exprs_have_column(es, m));
    } else {
        let s1 = spec_extract_columns(es[0], s);
        lemma_extract_columns(es[0], s);
        lemma_extract_all(es.drop_first(), s1);
        assert forall|m: Seq<char>|
            spec_extract_all(es, s).contains(m) implies s.contains(m) || exprs_have_column(
            es,
            m,
        ) by {
            if s1.contains(m) {
                if expr_has_column(es[0], m) {
                    assert(expr_has_column(es[0], m) && 0 < es.len());
                }
            } else {
                assert(exprs_have_column(es.drop_first(), m));
                let i = choose|i: int|
                    0 <= i < es.drop_first().len() && expr_has_column(es.drop_first()[i], m);
                assert(expr_has_column(es[i + 1], m));
            }
        }
        assert forall|m: Seq<char>|
            s.contains(m) || exprs_have_column(es, m) implies spec_extract_all(es, s).contains(
            m,
        ) by {
            if s.contains(m) || expr_has_column(es[0], m) {
                assert(s1.contains(m));
            } else {
                let i = choose|i: int| 0 <= i < es.len() && expr_has_column(es[i], m);
                assert(expr_has_column(es.drop_first()[i - 1], m));
            }
        }
        assert(spec_extract_all(es, s).take(s.len() as int) =~= spec_extract_all(
            es.drop_first(),
            s1,
        ).take(s1.len() as int).take(s.len() as int));
        assert(spec_extract_all(es, s).take(s.len() as int) =~= s);
    }
}

// ---------------------------------------------------------------------------
// Re-inserting an extension of a set leaves it unchanged.
// ---------------------------------------------------------------------------
/// Inserting names that are all present changes nothing.
proof fn lemma_insert_all_contained(s: Seq<Seq<char>>, names: Seq<Seq<char>>)
    requires
        forall|i: int| 0 <= i < names.len() ==> s.contains(#[trigger] names[i]),
    ensures
        spec_insert_all(s, names) == s,
    decreases names.len(),
{
    if names.len() > 0 {
        assert(s.contains(names[0]));
        assert(forall|i: int|
            0 <= i < names.drop_first().len() ==> s.contains(#[trigger] names.drop_first()[i]));
        lemma_insert_all_contained(s, names.drop_first());
    }
}

/// Insertion splits over concatenation.
proof fn lemma_insert_all_append(s: Seq<Seq<char>>, a: Seq<Seq<char>>, b: Seq<Seq<char>>)
    ensures
        spec_insert_all(s, a + b) == spec_insert_all(spec_insert_all(s, a), b),
    decreases a.len(),
{
    if a.len() == 0 {
        assert(a + b =~= b);
    } else {
        assert((a + b)[0] == a[0]);
        assert((a + b).drop_first() =~= a.drop_first() + b);
        lemma_insert_all_append(set_insert(s, a[0]), a.drop_first(), b);
    }
}

/// Inserting pairwise-distinct names none of which is present appends them.
proof fn lemma_insert_all_fresh(s: Seq<Seq<char>>, x: Seq<Seq<char>>)
    requires
        forall|i: int| 0 <= i < x.len() ==> !s.contains(#[trigger] x[i]),
        distinct_names(x),
    ensures
        spec_insert_all(s, x) == s + x,
    decreases x.len(),
{
    if x.len() == 0 {
        assert(s + x =~= s);
    } else {
        assert(!s.contains(x[0]));
        let s1 = s.push(x[0]);
        assert(set_insert(s, x[0]) == s1);
        assert forall|i: int| 0 <= i < x.drop_first().len() implies !s1.contains(
            #[trigger] x.drop_first()[i],
        ) by {
            assert(x.drop_first()[i] == x[i + 1]);
            if s1.contains(x[i + 1]) {
                let j = choose|j: int| 0 <= j < s1.len() && s1[j] == x[i + 1];
                if j < s.len() {
                    assert(s.contains(x[i + 1]));
                } else {
                    assert(x[0] == x[i + 1]);
                }
            }
        }
        assert(distinct_names(x.drop_first())) by {
            assert(forall|i: int, j: int|
                0 <= i < j < x.drop_first().len() ==> x.drop_first()[i] == x[i + 1]
                    && x.drop_first()[j] == x[j + 1]);
        }
        lemma_insert_all_fresh(s1, x.drop_first());
        assert(s1 + x.drop_first() =~= s + x);
    }
}

/// Inserting a duplicate-free extension of `s` back into `s` rebuilds that
/// same extension.
pub proof fn lemma_insert_all_extension(s: Seq<Seq<char>>, t: Seq<Seq<char>>)
    requires
        distinct_names(t),
        s.len() <= t.len(),
        t.take(s.len() as int) == s,
    ensures
        spec_insert_all(s, t) == t,
{
    let x = t.skip(s.len() as int);
    assert(t =~= s + x);
    lemma_insert_all_append(s, s, x);
    assert(forall|i: int| 0 <= i < s.len() ==> s.contains(#[trigger] s[i]));
    lemma_insert_all_contained(s, s);
    assert forall|i: int| 0 <= i < x.len() implies !s.contains(#[trigger] x[i]) by {
        if s.contains(x[i]) {
            let j = choose|j: int| 0 <= j < s.len() && s[j] == x[i];
            assert(t[j] == s[j]);
            assert(t[s.len() + i] == x[i]);
        }
    }
    assert(distinct_names(x)) by {
        assert(forall|i: int, j: int|
            0 <= i < j < x.len() ==> x[i] == t[s.len() + i] && x[j] == t[s.len() + j]);
    }
    lemma_insert_all_fresh(s, x);
}



// ---------------------------------------------------------------------------
// Column lookup commutes with schema filtering.
// ---------------------------------------------------------------------------
/// Filtering unfolds at the front as well as at the back.
proof fn lemma_project_fields_first(fields: Seq<SpecField>, names: Seq<Seq<char>>)
    requires
        fields.len() > 0,
    ensures
        crate::schema::spec_project_fields(fields, names) == (if names.contains(fields[0].name) {
            seq![fields[0]]
        } else {
            Seq::<SpecField>::empty()
        }) + crate::schema::spec_project_fields(fields.drop_first(), names),
    decreases fields.len(),
{
    let h = if names.contains(fields[0].name) {
        seq![fields[0]]
    } else {
        Seq::<SpecField>::empty()
    };
    if fields.len() == 1 {
        assert(fields.drop_last() =~= Seq::<SpecField>::empty());
        assert(fields.drop_first() =~= Seq::<SpecField>::empty());
        assert(fields.last() == fields[0]);
        assert(crate::schema::spec_project_fields(Seq::<SpecField>::empty(), names)
            == Seq::<SpecField>::empty());
        if names.contains(fields[0].name) {
            assert(crate::schema::spec_project_fields(fields, names) == Seq::<
                SpecField,
            >::empty().push(fields[0]));
            assert(Seq::<SpecField>::empty().push(fields[0]) =~= h + crate::schema::spec_project_fields(
                fields.drop_first(),
                names,
            ));
        } else {
            assert(crate::schema::spec_project_fields(fields, names) == Seq::<
                SpecField,
            >::empty());
            assert(Seq::<SpecField>::empty() =~= h + crate::schema::spec_project_fields(
                fields.drop_first(),
                names,
            ));
        }
    } else {
        let dl = fields.drop_last();
        lemma_project_fields_first(dl, names);
        assert(dl[0] == fields[0]);
        assert(fields.drop_first().drop_last() =~= dl.drop_first());
        assert(fields.drop_first().last() == fields.last());
        let pdf = crate::schema::spec_project_fields(fields.drop_first(), names);
        let pdldf = crate::schema::spec_project_fields(dl.drop_first(), names);
        if names.contains(fields.last().name) {
            assert(pdf == pdldf.push(fields.last()));
            assert(crate::schema::spec_project_fields(fields, names) == (h + pdldf).push(
                fields.last(),
            ));
            assert((h + pdldf).push(fields.last()) =~= h + pdldf.push(fields.last()));
        } else {
            assert(pdf == pdldf);
            assert(crate::schema::spec_project_fields(fields, names) == h + pdldf);
        }
    }
}

/// Every field the filter keeps bears a name of the filter set.
proof fn lemma_project_fields_names(fields: Seq<SpecField>, names: Seq<Seq<char>>)
    ensures
        forall|k: int|
            0 <= k < crate::schema::spec_project_fields(fields, names).len() ==> names.contains(
                (#[trigger] crate::schema::spec_project_fields(fields, names)[k]).name,
            ),
    decreases fields.len(),
{
    if fields.len() > 0 {
        lemma_project_fields_names(fields.drop_last(), names);
    }
}

/// Looking a name up behind a leading field that bears another name skips it.
proof fn lemma_lookup_cons(x: SpecField, rest: Seq<SpecField>, n: Seq<char>)
    ensures
        spec_field_lookup(seq![x] + rest, n) == if x.name == n {
            Some(x)
        } else {
            spec_field_lookup(rest, n)
        },
{
    let all = seq![x] + rest;
    assert(all[0] == x);
    assert(all.drop_first() =~= rest);
    if x.name != n {
        crate::schema::lemma_field_index_in_range(rest, n);
        match crate::schema::spec_field_index(rest, n) {
            Some(i) => {
                assert(all[i + 1] == rest[i]);
            },
            None => {},
        }
    }
}

/// Looking up a name of the filter set finds the same field before and
/// after filtering.
proof fn lemma_lookup_project(fields: Seq<SpecField>, names: Seq<Seq<char>>, n: Seq<char>)
    requires
        names.contains(n),
    ensures
        spec_field_lookup(crate::schema::spec_project_fields(fields, names), n)
            == spec_field_lookup(fields, n),
    decreases fields.len(),
{
    if fields.len() > 0 {
        lemma_project_fields_first(fields, names);
        let rest_proj = crate::schema::spec_project_fields(fields.drop_first(), names);
        lemma_lookup_project(fields.drop_first(), names, n);
        if fields[0].name == n {
            assert(crate::schema::spec_project_fields(fields, names) =~= seq![fields[0]]
                + rest_proj);
            lemma_lookup_cons(fields[0], rest_proj, n);
        } else {
            if names.contains(fields[0].name) {
                assert(crate::schema::spec_project_fields(fields, names) =~= seq![fields[0]]
                    + rest_proj);
                lemma_lookup_cons(fields[0], rest_proj, n);
            } else {
                assert(crate::schema::spec_project_fields(fields, names) =~= rest_proj);
            }
            assert(spec_field_lookup(fields, n) == spec_field_lookup(fields.drop_first(), n)) by {
                crate::schema::lemma_field_index_in_range(fields.drop_first(), n);
                match crate::schema::spec_field_index(fields.drop_first(), n) {
                    Some(i) => {
                        assert(fields[i + 1] == fields.drop_first()[i]);
                    },
                    None => {},
                }
            }
        }
    }
}

// ---------------------------------------------------------------------------
// Type inference is stable under schema changes that preserve the lookup of
// every referenced column.
// ---------------------------------------------------------------------------
/// Inference of one expression gives the same field against a schema whose
/// lookups agree on the expression's columns.
proof fn lemma_to_field_stable(e: SpecExpr, s1: Seq<SpecField>, s2: Seq<SpecField>)
    requires
        crate::logical_expression::spec_to_field(e, s1) is Ok,
        forall|n: Seq<char>|
            expr_has_column(e, n) && spec_field_lookup(s1, n) is Some ==> spec_field_lookup(s2, n)
                == spec_field_lookup(s1, n),
    ensures
        crate::logical_expression::spec_to_field(e, s2)
            == crate::logical_expression::spec_to_field(e, s1),
    decreases e,
{
    match e {
        SpecExpr::Column(name) => {
            assert(expr_has_column(e, name));
        },
        SpecExpr::Binary(op, l, r) => {
            if !op.produces_bool() {
                assert(forall|n: Seq<char>| expr_has_column(*l, n) ==> expr_has_column(e, n));
                lemma_to_field_stable(*l, s1, s2);
            }
        },
        SpecExpr::Aggregate(_, x) => {
            assert(forall|n: Seq<char>| expr_has_column(*x, n) ==> expr_has_column(e, n));
            lemma_to_field_stable(*x, s1, s2);
        },
        _ => {},
    }
}

/// Inference of an expression list gives the same fields against a schema
/// whose lookups agree on all referenced columns.
proof fn lemma_to_fields_stable(es: Seq<SpecExpr>, s1: Seq<SpecField>, s2: Seq<SpecField>)
    requires
        crate::logical_expression::spec_to_fields(es, s1) is Ok,
        forall|n: Seq<char>|
            exprs_have_column(es, n) && spec_field_lookup(s1, n) is Some ==> spec_field_lookup(
                s2,
                n,
            ) == spec_field_lookup(s1, n),
    ensures
        crate::logical_expression::spec_to_fields(es, s2)
            == crate::logical_expression::spec_to_fields(es, s1),
    decreases es.len(),
{
    if es.len() > 0 {
        assert forall|n: Seq<char>|
            expr_has_column(es[0], n) && spec_field_lookup(s1, n) is Some implies spec_field_lookup(
            s2,
            n,
        ) == spec_field_lookup(s1, n) by {
            assert(expr_has_column(es[0], n) && 0 < es.len());
            assert(exprs_have_column(es, n));
        }
        lemma_to_field_stable(es[0], s1, s2);
        assert forall|n: Seq<char>|
            exprs_have_column(es.drop_first(), n) && spec_field_lookup(s1, n)
                is Some implies spec_field_lookup(s2, n) == spec_field_lookup(s1, n) by {
            let i = choose|i: int|
                0 <= i < es.drop_first().len() && expr_has_column(es.drop_first()[i], n);
            assert(expr_has_column(es[i + 1], n));
            assert(exprs_have_column(es, n));
        }
        lemma_to_fields_stable(es.drop_first(), s1, s2);
    }
}

// ---------------------------------------------------------------------------
// The pushdown pass itself, as a function of plan and traveling set.
// ---------------------------------------------------------------------------
/// One top-down pass: each non-scan node adds the columns its expressions
/// reference to the set before recursing; the scan's new projection is the
/// union of its original projection and the set. Tree shape, expressions and
/// non-scan schemas are preserved.
pub open spec fn spec_push_down(p: SpecPlan, s: Seq<Seq<char>>) -> Result<SpecPlan, SpecError>
    decreases p,
{
    match p {
        SpecPlan::Scan { path, source, projection, schema } => {
            let names = match projection {
                Some(ns) => spec_insert_all(s, ns),
                None => s,
            };
            Ok(spec_scan_new(path, source, Some(names)))
        },
        SpecPlan::Projection { exprs, child, schema } => {
            match spec_push_down(*child, spec_extract_all(exprs, s)) {
                Ok(c) => spec_projection_new(c, exprs),
                Err(e) => Err(e),
            }
        },
        SpecPlan::Selection { expr, child, schema } => {
            match spec_push_down(*child, spec_extract_columns(expr, s)) {
                Ok(c) => spec_selection_new(c, expr),
                Err(e) => Err(e),
            }
        },
        SpecPlan::Aggregate { group_exprs, aggregate_exprs, child, schema } => {
            match spec_push_down(
                *child,
                spec_extract_all(aggregate_exprs, spec_extract_all(group_exprs, s)),
            ) {
                Ok(c) => spec_aggregate_new(c, group_exprs, aggregate_exprs),
                Err(e) => Err(e),
            }
        },
    }
}

/// The optimizer: projection pushdown starting from the empty set.
pub open spec fn spec_optimize(p: SpecPlan) -> Result<SpecPlan, SpecError> {
    spec_push_down(p, Seq::empty())
}

/// On a well-formed plan the pass cannot fail, keeps the plan well formed,
/// keeps every non-scan schema, and preserves the lookup of every name of
/// the traveling set that resolved before.
pub proof fn lemma_push_down_ok(p: SpecPlan, s: Seq<Seq<char>>)
    requires
        plan_wf(p),
    ensures
        spec_push_down(p, s) is Ok,
        plan_wf(spec_push_down(p, s)->Ok_0),
        forall|n: Seq<char>|
            s.contains(n) && spec_field_lookup(p.schema(), n) is Some ==> spec_field_lookup(
                spec_push_down(p, s)->Ok_0.schema(),
                n,
            ) == spec_field_lookup(p.schema(), n),
        !(p is Scan) ==> spec_push_down(p, s)->Ok_0.schema() == p.schema(),
    decreases p,
{
    match p {
        SpecPlan::Scan { path, source, projection, schema } => {
            let names = match projection {
                Some(ns) => spec_insert_all(s, ns),
                None => s,
            };
            let q = spec_push_down(p, s)->Ok_0;
            assert(q.schema() == crate::schema::spec_project_fields(source.schema, names));
            assert forall|n: Seq<char>|
                s.contains(n) && spec_field_lookup(schema, n) is Some implies spec_field_lookup(
                q.schema(),
                n,
            ) == spec_field_lookup(schema, n) by {
                match projection {
                    Some(ns) => {
                        lemma_insert_all(s, ns);
                        assert(names.contains(n));
                        crate::schema::lemma_field_index_in_range(schema, n);
                        let i = crate::schema::spec_field_index(schema, n)->Some_0;
                        assert(schema[i].name == n);
                        lemma_project_fields_names(source.schema, ns);
                        assert(schema == crate::schema::spec_project_fields(source.schema, ns));
                        assert(ns.contains(n));
                        lemma_lookup_project(source.schema, ns, n);
                        lemma_lookup_project(source.schema, names, n);
                    },
                    None => {
                        lemma_lookup_project(source.schema, names, n);
                    },
                }
            }
        },
        SpecPlan::Projection { exprs, child, schema } => {
            let s1 = spec_extract_all(exprs, s);
            lemma_extract_all(exprs, s);
            lemma_push_down_ok(*child, s1);
            let c = spec_push_down(*child, s1)->Ok_0;
            assert forall|n: Seq<char>|
                exprs_have_column(exprs, n) && spec_field_lookup(child.schema(), n)
                    is Some implies spec_field_lookup(c.schema(), n) == spec_field_lookup(
                child.schema(),
                n,
            ) by {
                assert(s1.contains(n));
            }
            lemma_to_fields_stable(exprs, child.schema(), c.schema());
        },
        SpecPlan::Selection { expr, child, schema } => {
            let s1 = spec_extract_columns(expr, s);
            lemma_extract_columns(expr, s);
            lemma_push_down_ok(*child, s1);
            let c = spec_push_down(*child, s1)->Ok_0;
            assert forall|n: Seq<char>|
                expr_has_column(expr, n) && spec_field_lookup(child.schema(), n)
                    is Some implies spec_field_lookup(c.schema(), n) == spec_field_lookup(
                child.schema(),
                n,
            ) by {
                assert(s1.contains(n));
            }
            lemma_to_field_stable(expr, child.schema(), c.schema());
        },
        SpecPlan::Aggregate { group_exprs, aggregate_exprs, child, schema } => {
            let sg = spec_extract_all(group_exprs, s);
            let s1 = spec_extract_all(aggregate_exprs, sg);
            lemma_extract_all(group_exprs, s);
            lemma_extract_all(aggregate_exprs, sg);
            lemma_push_down_ok(*child, s1);
            let c = spec_push_down(*child, s1)->Ok_0;
            let combined = group_exprs + aggregate_exprs;
            assert forall|n: Seq<char>|
                exprs_have_column(combined, n) && spec_field_lookup(child.schema(), n)
                    is Some implies spec_field_lookup(c.schema(), n) == spec_field_lookup(
                child.schema(),
                n,
            ) by {
                let i = choose|i: int|
                    0 <= i < combined.len() && expr_has_column(combined[i], n);
                if i < group_exprs.len() {
                    assert(expr_has_column(group_exprs[i], n));
                    assert(exprs_have_column(group_exprs, n));
                    assert(sg.contains(n));
                } else {
                    assert(expr_has_column(aggregate_exprs[i - group_exprs.len()], n));
                    assert(exprs_have_column(aggregate_exprs, n));
                }
                assert(s1.contains(n));
            }
            lemma_to_fields_stable(combined, child.schema(), c.schema());
        },
    }
}

/// Applying the pass to its own output, with the same traveling set, gives
/// that output back unchanged.
pub proof fn lemma_push_down_idempotent(p: SpecPlan, s: Seq<Seq<char>>)
    requires
        plan_wf(p),
        distinct_names(s),
    ensures
        spec_push_down(spec_push_down(p, s)->Ok_0, s) == spec_push_down(p, s),
    decreases p,
{
    lemma_push_down_ok(p, s);
    let q = spec_push_down(p, s)->Ok_0;
    match p {
        SpecPlan::Scan { path, source, projection, schema } => {
            let t = match projection {
                Some(ns) => spec_insert_all(s, ns),
                None => s,
            };
            match projection {
                Some(ns) => {
                    lemma_insert_all(s, ns);
                },
                None => {
                    assert(s.take(s.len() as int) =~= s);
                },
            }
            lemma_insert_all_extension(s, t);
        },
        SpecPlan::Projection { exprs, child, schema } => {
            let s1 = spec_extract_all(exprs, s);
            lemma_extract_all(exprs, s);
            lemma_push_down_idempotent(*child, s1);
        },
        SpecPlan::Selection { expr, child, schema } => {
            let s1 = spec_extract_columns(expr, s);
            lemma_extract_columns(expr, s);
            lemma_push_down_idempotent(*child, s1);
        },
        SpecPlan::Aggregate { group_exprs, aggregate_exprs, child, schema } => {
            let s1 = spec_extract_all(aggregate_exprs, spec_extract_all(group_exprs, s));
            lemma_extract_all(group_exprs, s);
            lemma_extract_all(aggregate_exprs, spec_extract_all(group_exprs, s));
            lemma_push_down_idempotent(*child, s1);
        },
    }
}

/// Optimizing twice yields the same plan as optimizing once.
pub proof fn lemma_optimize_idempotent(p: SpecPlan)
    requires
        plan_wf(p),
    ensures
        spec_optimize(p) is Ok,
        spec_optimize(spec_optimize(p)->Ok_0) == spec_optimize(p),
{
    lemma_push_down_ok(p, Seq::empty());
    lemma_push_down_idempotent(p, Seq::empty());
}



// ---------------------------------------------------------------------------
// Pushdown soundness: the rewritten scan projection covers every column
// referenced above the scan.
// ---------------------------------------------------------------------------
/// The projection of the scan at the leaf of the plan.
pub open spec fn scan_projection_of(p: SpecPlan) -> Option<Seq<Seq<char>>>
    decreases p,
{
    match p {
        SpecPlan::Scan { projection, .. } => projection,
        SpecPlan::Projection { child, .. } => scan_projection_of(*child),
        SpecPlan::Selection { child, .. } => scan_projection_of(*child),
        SpecPlan::Aggregate { child, .. } => scan_projection_of(*child),
    }
}

/// Whether any expression above the scan references the column `n`.
pub open spec fn plan_references_column(p: SpecPlan, n: Seq<char>) -> bool
    decreases p,
{
    match p {
        SpecPlan::Scan { .. } => false,
        SpecPlan::Projection { exprs, child, .. } => exprs_have_column(exprs, n)
            || plan_references_column(*child, n),
        SpecPlan::Selection { expr, child, .. } => expr_has_column(expr, n)
            || plan_references_column(*child, n),
        SpecPlan::Aggregate { group_exprs, aggregate_exprs, child, .. } => exprs_have_column(
            group_exprs,
            n,
        ) || exprs_have_column(aggregate_exprs, n) || plan_references_column(*child, n),
    }
}

proof fn lemma_push_down_superset(p: SpecPlan, s: Seq<Seq<char>>)
    requires
        plan_wf(p),
    ensures
        spec_push_down(p, s) is Ok,
        scan_projection_of(spec_push_down(p, s)->Ok_0) is Some,
        forall|n: Seq<char>|
            (s.contains(n) || plan_references_column(p, n)) ==> scan_projection_of(
                spec_push_down(p, s)->Ok_0,
            )->Some_0.contains(n),
        forall|n: Seq<char>|
            plan_references_column(spec_push_down(p, s)->Ok_0, n) == plan_references_column(p, n),
    decreases p,
{
    lemma_push_down_ok(p, s);
    let q = spec_push_down(p, s)->Ok_0;
    match p {
        SpecPlan::Scan { path, source, projection, schema } => {
            let names = match projection {
                Some(ns) => spec_insert_all(s, ns),
                None => s,
            };
            assert(scan_projection_of(q) == Some(names));
            match projection {
                Some(ns) => {
                    lemma_insert_all(s, ns);
                },
                None => {},
            }
            assert forall|n: Seq<char>|
                s.contains(n) || plan_references_column(p, n) implies names.contains(n) by {}
            assert forall|n: Seq<char>|
                plan_references_column(q, n) == plan_references_column(p, n) by {}
        },
        SpecPlan::Projection { exprs, child, schema } => {
            let s1 = spec_extract_all(exprs, s);
            lemma_extract_all(exprs, s);
            lemma_push_down_superset(*child, s1);
            let c = spec_push_down(*child, s1)->Ok_0;
            assert(scan_projection_of(q) == scan_projection_of(c));
            assert forall|n: Seq<char>|
                s.contains(n) || plan_references_column(p, n) implies scan_projection_of(
                q,
            )->Some_0.contains(n) by {
                assert(s1.contains(n) || plan_references_column(*child, n));
            }
            assert forall|n: Seq<char>|
                plan_references_column(q, n) == plan_references_column(p, n) by {
                assert(plan_references_column(c, n) == plan_references_column(*child, n));
            }
        },
        SpecPlan::Selection { expr, child, schema } => {
            let s1 = spec_extract_columns(expr, s);
            lemma_extract_columns(expr, s);
            lemma_push_down_superset(*child, s1);
            let c = spec_push_down(*child, s1)->Ok_0;
            assert(scan_projection_of(q) == scan_projection_of(c));
            assert forall|n: Seq<char>|
                s.contains(n) || plan_references_column(p, n) implies scan_projection_of(
                q,
            )->Some_0.contains(n) by {
                assert(s1.contains(n) || plan_references_column(*child, n));
            }
            assert forall|n: Seq<char>|
                plan_references_column(q, n) == plan_references_column(p, n) by {
                assert(plan_references_column(c, n) == plan_references_column(*child, n));
            }
        },
        SpecPlan::Aggregate { group_exprs, aggregate_exprs, child, schema } => {
            let sg = spec_extract_all(group_exprs, s);
            let s1 = spec_extract_all(aggregate_exprs, sg);
            lemma_extract_all(group_exprs, s);
            lemma_extract_all(aggregate_exprs, sg);
            lemma_push_down_superset(*child, s1);
            let c = spec_push_down(*child, s1)->Ok_0;
            assert(scan_projection_of(q) == scan_projection_of(c));
            assert forall|n: Seq<char>|
                s.contains(n) || plan_references_column(p, n) implies scan_projection_of(
                q,
            )->Some_0.contains(n) by {
                assert(s1.contains(n) || plan_references_column(*child, n));
            }
            assert forall|n: Seq<char>|
                plan_references_column(q, n) == plan_references_column(p, n) by {
                assert(plan_references_column(c, n) == plan_references_column(*child, n));
            }
        },
    }
}

/// Pushdown soundness: after optimization the scan carries a projection,
/// and that projection contains every column name referenced above it.
pub proof fn lemma_pushdown_soundness(p: SpecPlan)
    requires
        plan_wf(p),
    ensures
        spec_optimize(p) is Ok,
        scan_projection_of(spec_optimize(p)->Ok_0) is Some,
        forall|n: Seq<char>|
            plan_references_column(spec_optimize(p)->Ok_0, n) ==> scan_projection_of(
                spec_optimize(p)->Ok_0,
            )->Some_0.contains(n),
{
    lemma_push_down_superset(p, Seq::empty());
    let q = spec_optimize(p)->Ok_0;
    assert forall|n: Seq<char>|
        plan_references_column(q, n) implies scan_projection_of(q)->Some_0.contains(n) by {
        assert(plan_references_column(p, n));
        assert(Seq::<Seq<char>>::empty().contains(n) || plan_references_column(p, n));
    }
}

// ---------------------------------------------------------------------------
// The executable pass.
// ---------------------------------------------------------------------------
/// Appends `name` to the set unless it is already present.
fn insert_name(set: &mut Vec<String>, name: &String)
    ensures
        names_view(final(set)@) == set_insert(names_view(old(set)@), name@),
{
    if !contains_string(set, name) {
        let ghost oldv = names_view(set@);
        set.push(name.clone());
        proof {
            assert(names_view(set@) =~= oldv.push(name@));
        }
    }
}

/// Inserts every name of `names` into the set, in order.
fn insert_all_names(set: &mut Vec<String>, names: &Vec<String>)
    ensures
        names_view(final(set)@) == spec_insert_all(names_view(old(set)@), names_view(names@)),
{
    let ghost s0 = names_view(old(set)@);
    let ghost nv = names_view(names@);
    proof {
        assert(nv.skip(0) =~= nv);
    }
    let n = names.len();
    let mut i: usize = 0;
    while i < n
        invariant
            i <= n,
            n == names@.len(),
            nv == names_view(names@),
            spec_insert_all(names_view(set@), nv.skip(i as int)) == spec_insert_all(s0, nv),
        decreases n - i,
    {
        proof {
            assert(nv.skip(i as int)[0] == names@[i as int]@);
            assert(nv.skip(i as int).drop_first() =~= nv.skip(i + 1));
        }
        insert_name(set, &names[i]);
        i = i + 1;
    }
    proof {
        assert(nv.skip(n as int) =~= Seq::<Seq<char>>::empty());
    }
}

/// Collects into the set the name of every column the expression
/// references; literals contribute nothing.
pub fn extract_columns(expr: &LogicalExpression, set: &mut Vec<String>)
    ensures
        names_view(final(set)@) == spec_extract_columns(expr@, names_view(old(set)@)),
    decreases *expr,
{
    match expr {
        LogicalExpression::Column(c) => {
            insert_name(set, &c.name);
        },
        LogicalExpression::LiteralBool(_) => {},
        LogicalExpression::LiteralString(_) => {},
        LogicalExpression::LiteralInteger(_) => {},
        LogicalExpression::Binary(_, l, r) => {
            extract_columns(l, set);
            extract_columns(r, set);
        },
        LogicalExpression::Aggregate(_, x) => {
            extract_columns(x, set);
        },
    }
}

/// Collects the referenced columns of every expression, left to right.
pub fn extract_all_columns(exprs: &Vec<LogicalExpression>, set: &mut Vec<String>)
    ensures
        names_view(final(set)@) == spec_extract_all(exprs_view(exprs@), names_view(old(set)@)),
{
    let ghost s0 = names_view(old(set)@);
    let ghost ev = exprs_view(exprs@);
    proof {
        assert(ev.skip(0) =~= ev);
    }
    let n = exprs.len();
    let mut i: usize = 0;
    while i < n
        invariant
            i <= n,
            n == exprs@.len(),
            ev == exprs_view(exprs@),
            spec_extract_all(ev.skip(i as int), names_view(set@)) == spec_extract_all(ev, s0),
        decreases n - i,
    {
        proof {
            assert(ev.skip(i as int)[0] == exprs@[i as int]@);
            assert(ev.skip(i as int).drop_first() =~= ev.skip(i + 1));
        }
        extract_columns(&exprs[i], set);
        i = i + 1;
    }
    proof {
        assert(ev.skip(n as int) =~= Seq::<SpecExpr>::empty());
    }
}

/// Clones a list of names.
fn clone_names(v: &Vec<String>) -> (r: Vec<String>)
    ensures
        names_view(r@) == names_view(v@),
{
    let n = v.len();
    let mut out: Vec<String> = Vec::new();
    let mut i: usize = 0;
    while i < n
        invariant
            i <= n,
            n == v@.len(),
            out@.len() == i,
            forall|j: int| 0 <= j < i ==> #[trigger] out@[j]@ == v@[j]@,
        decreases n - i,
    {
        out.push(v[i].clone());
        i = i + 1;
    }
    proof {
        assert(names_view(out@) =~= names_view(v@));
    }
    out
}

impl LogicalPlan {
    /// Rewrites the plan by projection pushdown. Tree shape, expressions and
    /// every non-scan schema are preserved; only the scan's projection and
    /// schema change.
    pub fn optimize(self) -> (r: Self)
        requires
            self.wf(),
        ensures
            spec_optimize(self@) == Ok::<SpecPlan, SpecError>(r@),
            r.wf(),
    {
        proof {
            lemma_push_down_ok(self@, Seq::empty());
        }
        self.projection_push_down()
    }

    fn projection_push_down(self) -> (r: Self)
        requires
            self.wf(),
        ensures
            spec_push_down(self@, Seq::empty()) == Ok::<SpecPlan, SpecError>(r@),
            r.wf(),
    {
        let mut set: Vec<String> = Vec::new();
        proof {
            assert(names_view(set@) =~= Seq::<Seq<char>>::empty());
            lemma_push_down_ok(self@, Seq::empty());
        }
        self.push_down(&mut set)
    }

    fn push_down(self, set: &mut Vec<String>) -> (r: Self)
        requires
            self.wf(),
        ensures
            spec_push_down(self@, names_view(old(set)@)) == Ok::<SpecPlan, SpecError>(r@),
            r.wf(),
        decreases self,
    {
        proof {
            lemma_push_down_ok(self@, names_view(old(set)@));
        }
        match self {
            LogicalPlan::Scan(scan) => {
                match &scan.projection {
                    Some(projs) => {
                        insert_all_names(set, projs);
                    },
                    None => {},
                }
                let names = clone_names(set);
                LogicalPlan::Scan(
                    Scan::new(scan.path.as_str(), scan.data_source, Some(names)),
                )
            },
            LogicalPlan::Projection(node) => {
                extract_all_columns(&node.exprs, set);
                let child = node.child.push_down(set);
                match crate::logical_plan::Projection::new(child, node.exprs) {
                    Ok(p) => LogicalPlan::Projection(p),
                    Err(_) => vstd::pervasive::unreached(),
                }
            },
            LogicalPlan::Selection(node) => {
                extract_columns(&node.expr, set);
                let child = node.child.push_down(set);
                match crate::logical_plan::Selection::new(child, node.expr) {
                    Ok(p) => LogicalPlan::Selection(p),
                    Err(_) => vstd::pervasive::unreached(),
                }
            },
            LogicalPlan::Aggregate(node) => {
                extract_all_columns(&node.group_exprs, set);
                extract_all_columns(&node.aggregate_exprs, set);
                let child = node.child.push_down(set);
                match crate::logical_plan::Aggregate::new(
                    child,
                    node.group_exprs,
                    node.aggregate_exprs,
                ) {
                    Ok(p) => LogicalPlan::Aggregate(p),
                    Err(_) => vstd::pervasive::unreached(),
                }
            },
        }
    }
}

} // verus!
