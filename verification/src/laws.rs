//! Engine-wide laws: properties of execution that hold for every input,
//! stated over the mathematical model and proved once and for all.

use vstd::prelude::*;

use crate::columnar_value::{spec_to_array, SpecArray, SpecColumnar, SpecScalar};

use crate::error::SpecError;
use crate::kernels::{
    is_arithmetic, is_comparison, lemma_broadcast, lemma_index_value_type, spec_filter_array,
    spec_filter_seq,
};
use crate::logical_expression::AggregateOp;
use crate::physical_expression::{spec_evaluate, SpecPExpr};
use crate::physical_plan::{
    lemma_find_key_props, spec_acc_columns, spec_agg_batch, spec_agg_ops, spec_agg_rows,
    spec_agg_stream, spec_aggregate_batches, spec_find_key, spec_finalize, spec_key_columns,
    spec_project_batch, spec_project_batches, spec_push_accs, spec_push_keys, spec_row_key,
    spec_select_batch, spec_select_batches, SpecGroup,
};
use crate::record_batch::{batch_wf, spec_num_rows};

verus! {

// ---------------------------------------------------------------------------
// Filter lengths.
// ---------------------------------------------------------------------------
/// How many of the first `n` mask entries keep their row.
pub open spec fn spec_keep_count(n: int, mask: Seq<Option<bool>>) -> int
    decreases n,
{
    if n <= 0 {
        0
    } else {
        spec_keep_count(n - 1, mask) + if n <= mask.len() && mask[n - 1] == Some(true) {
            1int
        } else {
            0int
        }
    }
}

/// A filtered sequence has one element per kept row; in particular it is
/// never longer than its input.
pub proof fn lemma_filter_seq_len<T>(xs: Seq<T>, mask: Seq<Option<bool>>)
    ensures
        spec_filter_seq(xs, mask).len() == spec_keep_count(xs.len() as int, mask),
        spec_filter_seq(xs, mask).len() <= xs.len(),
    decreases xs.len(),
{
    if xs.len() > 0 {
        lemma_filter_seq_len(xs.drop_last(), mask);
    }
}

/// A filtered array has one row per kept mask entry.
pub proof fn lemma_filter_array_len(a: SpecArray, mask: Seq<Option<bool>>)
    ensures
        spec_filter_array(a, mask).len() == spec_keep_count(a.len() as int, mask),
        spec_filter_array(a, mask).len() <= a.len(),
{
    match a {
        SpecArray::Bool(v) => lemma_filter_seq_len(v, mask),
        SpecArray::Int32(v) => lemma_filter_seq_len(v, mask),
        SpecArray::Float64(v) => lemma_filter_seq_len(v, mask),
        SpecArray::Utf8(v) => lemma_filter_seq_len(v, mask),
        SpecArray::Timestamp(v) => lemma_filter_seq_len(v, mask),
    }
}

/// Selection preserves the column count: a filtered batch has exactly the
/// columns of its input, and each holds at most as many rows.
pub proof fn lemma_selection_preserves_columns(pred: SpecPExpr, batch: Seq<SpecArray>)
    requires
        spec_select_batch(pred, batch) is Ok,
    ensures
        spec_select_batch(pred, batch)->Ok_0.len() == batch.len(),
        forall|k: int|
            0 <= k < batch.len() ==> (#[trigger] spec_select_batch(pred, batch)->Ok_0[k]).len()
                <= batch[k].len(),
        spec_num_rows(spec_select_batch(pred, batch)->Ok_0) <= spec_num_rows(batch),
{
    let out = spec_select_batch(pred, batch)->Ok_0;
    assert forall|k: int| 0 <= k < batch.len() implies (#[trigger] out[k]).len()
        <= batch[k].len() by {
        let cv = crate::physical_expression::spec_evaluate(pred, batch)->Ok_0;
        let a = crate::columnar_value::spec_to_array(cv, spec_num_rows(batch))->Ok_0;
        match a {
            SpecArray::Bool(mask) => {
                assert(out[k] == spec_filter_array(batch[k], mask));
                lemma_filter_array_len(batch[k], mask);
            },
            _ => {},
        }
    }
    if batch.len() > 0 {
        assert(out[0].len() <= batch[0].len());
    }
}

// ---------------------------------------------------------------------------
// Empty input streams.
// ---------------------------------------------------------------------------
/// On an empty input stream a projection and a selection emit no batches,
/// and an aggregation finalizes with zero groups and signals
/// `EmptyHashmapForAggregate`.
pub proof fn lemma_empty_input(
    es: Seq<SpecPExpr>,
    pred: SpecPExpr,
    ges: Seq<SpecPExpr>,
    aes: Seq<SpecPExpr>,
)
    ensures
        spec_project_batches(es, Seq::empty()) == Ok::<Seq<Seq<SpecArray>>, SpecError>(
            Seq::empty(),
        ),
        spec_select_batches(pred, Seq::empty()) == Ok::<Seq<Seq<SpecArray>>, SpecError>(
            Seq::empty(),
        ),
        spec_agg_ops(aes) is Ok ==> spec_aggregate_batches(ges, aes, Seq::empty()) == Err::<
            Seq<Seq<SpecArray>>,
            SpecError,
        >(SpecError::EmptyHashmapForAggregate),
{
}



// ---------------------------------------------------------------------------
// Aggregate row count: one output row per distinct group key.
// ---------------------------------------------------------------------------
/// Whether some group of the state bears the key `k`.
pub open spec fn state_has_key(st: Seq<SpecGroup>, k: Seq<SpecScalar>) -> bool {
    exists|j: int| 0 <= j < st.len() && (#[trigger] st[j]).key == k
}

/// No two groups of the state bear the same key.
pub open spec fn distinct_keys(st: Seq<SpecGroup>) -> bool {
    forall|i: int, j: int| 0 <= i < j < st.len() ==> st[i].key != st[j].key
}

/// Whether some row of some batch of the stream, under the group
/// expressions `ges`, carries the key `k`.
pub open spec fn spec_stream_has_key(
    ges: Seq<SpecPExpr>,
    batches: Seq<Seq<SpecArray>>,
    k: Seq<SpecScalar>,
) -> bool {
    exists|bi: int, x: int|
        0 <= bi < batches.len() && spec_project_batch(ges, #[trigger] batches[bi]) is Ok && 0 <= x
            < spec_num_rows(batches[bi]) && spec_row_key(
            spec_project_batch(ges, batches[bi])->Ok_0,
            #[trigger] (x + 0),
        ) == k
}

/// Folding rows into the state keeps its keys distinct, and afterwards the
/// state holds exactly its old keys and the keys of the folded rows.
proof fn lemma_agg_rows_keys(
    st: Seq<SpecGroup>,
    ops: Seq<AggregateOp>,
    groups: Seq<SpecArray>,
    inputs: Seq<SpecArray>,
    i: int,
    rows: int,
)
    requires
        0 <= i,
        spec_agg_rows(st, ops, groups, inputs, i, rows) is Ok,
        distinct_keys(st),
    ensures
        distinct_keys(spec_agg_rows(st, ops, groups, inputs, i, rows)->Ok_0),
        forall|k: Seq<SpecScalar>|
            state_has_key(spec_agg_rows(st, ops, groups, inputs, i, rows)->Ok_0, k)
                <==> state_has_key(st, k) || exists|x: int|
                i <= x < rows && spec_row_key(groups, #[trigger] (x + 0)) == k,
    decreases rows - i,
{
    let r = spec_agg_rows(st, ops, groups, inputs, i, rows)->Ok_0;
    if i >= rows {
        assert forall|k: Seq<SpecScalar>|
            state_has_key(r, k) <==> state_has_key(st, k) || exists|x: int|
                i <= x < rows && spec_row_key(groups, #[trigger] (x + 0)) == k by {
            assert(!(exists|x: int| i <= x < rows && spec_row_key(groups, #[trigger] (x + 0))
                == k));
        }
    } else {
        let key = spec_row_key(groups, i);
        lemma_find_key_props(st, key);
        match spec_find_key(st, key) {
            Some(j) => {
                let st1 = st.update(
                    j,
                    SpecGroup {
                        key: st[j].key,
                        accs: crate::physical_plan::spec_accumulate_row(
                            ops,
                            st[j].accs,
                            inputs,
                            0,
                            i,
                        )->Ok_0,
                    },
                );
                assert(forall|m: int| 0 <= m < st1.len() ==> (#[trigger] st1[m]).key
                    == st[m].key);
                assert(distinct_keys(st1));
                assert forall|k: Seq<SpecScalar>|
                    state_has_key(st1, k) <==> state_has_key(st, k) by {
                    if state_has_key(st1, k) {
                        let m = choose|m: int| 0 <= m < st1.len() && (#[trigger] st1[m]).key == k;
                        assert(st[m].key == k);
                    }
                    if state_has_key(st, k) {
                        let m = choose|m: int| 0 <= m < st.len() && (#[trigger] st[m]).key == k;
                        assert(st1[m].key == k);
                    }
                }
                lemma_agg_rows_keys(st1, ops, groups, inputs, i + 1, rows);
                assert forall|k: Seq<SpecScalar>|
                    state_has_key(r, k) <==> state_has_key(st, k) || exists|x: int|
                        i <= x < rows && spec_row_key(groups, #[trigger] (x + 0)) == k by {
                    if state_has_key(r, k) {
                        if !state_has_key(st1, k) {
                            let x = choose|x: int|
                                i + 1 <= x < rows && spec_row_key(groups, #[trigger] (x + 0))
                                    == k;
                            assert(i <= x < rows && spec_row_key(groups, x + 0) == k);
                        }
                    }
                    if state_has_key(st, k) {
                        assert(state_has_key(st1, k));
                    }
                    if exists|x: int|
                        i <= x < rows && spec_row_key(groups, #[trigger] (x + 0)) == k {
                        let x = choose|x: int|
                            i <= x < rows && spec_row_key(groups, #[trigger] (x + 0)) == k;
                        if x == i {
                            assert(st[j].key == key);
                            assert(state_has_key(st, k));
                        } else {
                            assert(i + 1 <= x < rows && spec_row_key(groups, x + 0) == k);
                        }
                    }
                }
            },
            None => {
                let accs0 = Seq::new(ops.len() as nat, |m: int| None::<i32>);
                let st1 = st.push(
                    SpecGroup {
                        key,
                        accs: crate::physical_plan::spec_accumulate_row(
                            ops,
                            accs0,
                            inputs,
                            0,
                            i,
                        )->Ok_0,
                    },
                );
                assert(st1[st.len() as int].key == key);
                assert(forall|m: int| 0 <= m < st.len() ==> (#[trigger] st1[m]).key
                    == st[m].key);
                assert(distinct_keys(st1));
                assert forall|k: Seq<SpecScalar>|
                    state_has_key(st1, k) <==> state_has_key(st, k) || k == key by {
                    if state_has_key(st1, k) {
                        let m = choose|m: int| 0 <= m < st1.len() && (#[trigger] st1[m]).key == k;
                        if m < st.len() {
                            assert(st[m].key == k);
                        }
                    }
                    if state_has_key(st, k) {
                        let m = choose|m: int| 0 <= m < st.len() && (#[trigger] st[m]).key == k;
                        assert(st1[m].key == k);
                    }
                }
                lemma_agg_rows_keys(st1, ops, groups, inputs, i + 1, rows);
                assert forall|k: Seq<SpecScalar>|
                    state_has_key(r, k) <==> state_has_key(st, k) || exists|x: int|
                        i <= x < rows && spec_row_key(groups, #[trigger] (x + 0)) == k by {
                    if state_has_key(r, k) {
                        if !state_has_key(st1, k) {
                            let x = choose|x: int|
                                i + 1 <= x < rows && spec_row_key(groups, #[trigger] (x + 0))
                                    == k;
                            assert(i <= x < rows && spec_row_key(groups, x + 0) == k);
                        } else {
                            if !state_has_key(st, k) {
                                assert(k == key);
                                assert(i <= i < rows && spec_row_key(groups, i + 0) == k);
                            }
                        }
                    }
                    if state_has_key(st, k) {
                        assert(state_has_key(st1, k));
                    }
                    if exists|x: int|
                        i <= x < rows && spec_row_key(groups, #[trigger] (x + 0)) == k {
                        let x = choose|x: int|
                            i <= x < rows && spec_row_key(groups, #[trigger] (x + 0)) == k;
                        if x == i {
                            assert(state_has_key(st1, k));
                        } else {
                            assert(i + 1 <= x < rows && spec_row_key(groups, x + 0) == k);
                        }
                    }
                }
            },
        }
    }
}

/// Folding a stream of batches keeps the state's keys distinct, and the
/// final state holds exactly the old keys and every row key of the stream.
proof fn lemma_agg_stream_keys(
    st: Seq<SpecGroup>,
    ges: Seq<SpecPExpr>,
    aes: Seq<SpecPExpr>,
    ops: Seq<AggregateOp>,
    batches: Seq<Seq<SpecArray>>,
)
    requires
        spec_agg_stream(st, ges, aes, ops, batches) is Ok,
        distinct_keys(st),
    ensures
        distinct_keys(spec_agg_stream(st, ges, aes, ops, batches)->Ok_0),
        forall|k: Seq<SpecScalar>|
            state_has_key(spec_agg_stream(st, ges, aes, ops, batches)->Ok_0, k)
                <==> state_has_key(st, k) || spec_stream_has_key(ges, batches, k),
    decreases batches.len(),
{
    let r = spec_agg_stream(st, ges, aes, ops, batches)->Ok_0;
    if batches.len() == 0 {
        assert forall|k: Seq<SpecScalar>|
            state_has_key(r, k) <==> state_has_key(st, k) || spec_stream_has_key(
                ges,
                batches,
                k,
            ) by {
            assert(!spec_stream_has_key(ges, batches, k));
        }
    } else {
        let b0 = batches[0];
        let st1 = spec_agg_batch(st, ges, aes, ops, b0)->Ok_0;
        let groups = spec_project_batch(ges, b0)->Ok_0;
        let rows = spec_num_rows(b0) as int;
        lemma_agg_rows_keys(st, ops, groups, spec_project_batch(aes, b0)->Ok_0, 0, rows);
        lemma_agg_stream_keys(st1, ges, aes, ops, batches.drop_first());
        assert forall|k: Seq<SpecScalar>|
            state_has_key(r, k) <==> state_has_key(st, k) || spec_stream_has_key(
                ges,
                batches,
                k,
            ) by {
            if state_has_key(r, k) {
                if !state_has_key(st1, k) {
                    let (bi, x): (int, int) = choose|bi: int, x: int|
                        0 <= bi < batches.drop_first().len() && spec_project_batch(
                            ges,
                            #[trigger] batches.drop_first()[bi],
                        ) is Ok && 0 <= x < spec_num_rows(batches.drop_first()[bi])
                            && spec_row_key(
                            spec_project_batch(ges, batches.drop_first()[bi])->Ok_0,
                            #[trigger] (x + 0),
                        ) == k;
                    assert(batches.drop_first()[bi] == batches[bi + 1]);
                    assert(spec_project_batch(ges, batches[bi + 1]) is Ok && 0 <= x
                        < spec_num_rows(batches[bi + 1]) && spec_row_key(
                        spec_project_batch(ges, batches[bi + 1])->Ok_0,
                        x + 0,
                    ) == k);
                    assert(spec_stream_has_key(ges, batches, k));
                } else {
                    if !state_has_key(st, k) {
                        let x = choose|x: int|
                            0 <= x < rows && spec_row_key(groups, #[trigger] (x + 0)) == k;
                        assert(spec_project_batch(ges, batches[0]) is Ok && 0 <= x
                            < spec_num_rows(batches[0]) && spec_row_key(
                            spec_project_batch(ges, batches[0])->Ok_0,
                            x + 0,
                        ) == k);
                        assert(spec_stream_has_key(ges, batches, k));
                    }
                }
            }
            if state_has_key(st, k) {
                assert(state_has_key(st1, k));
                assert(state_has_key(r, k));
            }
            if spec_stream_has_key(ges, batches, k) {
                let (bi, x): (int, int) = choose|bi: int, x: int|
                    0 <= bi < batches.len() && spec_project_batch(
                        ges,
                        #[trigger] batches[bi],
                    ) is Ok && 0 <= x < spec_num_rows(batches[bi]) && spec_row_key(
                        spec_project_batch(ges, batches[bi])->Ok_0,
                        #[trigger] (x + 0),
                    ) == k;
                if bi == 0 {
                    assert(state_has_key(st1, k));
                    assert(state_has_key(r, k));
                } else {
                    assert(batches.drop_first()[bi - 1] == batches[bi]);
                    assert(spec_project_batch(ges, batches.drop_first()[bi - 1]) is Ok && 0 <= x
                        < spec_num_rows(batches.drop_first()[bi - 1]) && spec_row_key(
                        spec_project_batch(ges, batches.drop_first()[bi - 1])->Ok_0,
                        x + 0,
                    ) == k);
                    assert(spec_stream_has_key(ges, batches.drop_first(), k));
                    assert(state_has_key(r, k));
                }
            }
        }
    }
}

/// A cleanly stacked key column has one row per group.
proof fn lemma_push_keys_len(col: SpecArray, st: Seq<SpecGroup>, k: int)
    requires
        spec_push_keys(col, st, k) is Ok,
    ensures
        spec_push_keys(col, st, k)->Ok_0.len() == col.len() + st.len(),
    decreases st.len(),
{
    if st.len() > 0 {
        let s = st[0].key[k];
        assert(col.push_value(s).len() == col.len() + 1) by {
            match col {
                SpecArray::Bool(_) => {},
                SpecArray::Int32(_) => {},
                SpecArray::Float64(_) => {},
                SpecArray::Utf8(_) => {},
                SpecArray::Timestamp(_) => {},
            }
        }
        lemma_push_keys_len(col.push_value(s), st.drop_first(), k);
    }
}

/// A cleanly finalized accumulator column has one value per group.
proof fn lemma_push_accs_len(vals: Seq<Option<i32>>, st: Seq<SpecGroup>, j: int)
    requires
        spec_push_accs(vals, st, j) is Ok,
    ensures
        spec_push_accs(vals, st, j)->Ok_0.len() == vals.len() + st.len(),
    decreases st.len(),
{
    if st.len() > 0 {
        match st[0].accs[j] {
            Some(v) => {
                lemma_push_accs_len(vals.push(Some(v)), st.drop_first(), j);
            },
            None => {},
        }
    }
}

/// Aggregate row count: the single output batch holds exactly one row per
/// group, the groups bear pairwise distinct keys, and the group keys are
/// exactly the distinct group-key tuples of the input stream. Together
/// these say the output has one row per distinct key.
pub proof fn lemma_aggregate_row_count(
    ges: Seq<SpecPExpr>,
    aes: Seq<SpecPExpr>,
    batches: Seq<Seq<SpecArray>>,
)
    requires
        spec_aggregate_batches(ges, aes, batches) is Ok,
        ges.len() + aes.len() > 0,
    ensures
        spec_aggregate_batches(ges, aes, batches)->Ok_0.len() == 1,
        ({
            let ops = spec_agg_ops(aes)->Ok_0;
            let st = spec_agg_stream(Seq::empty(), ges, aes, ops, batches)->Ok_0;
            &&& spec_num_rows(spec_aggregate_batches(ges, aes, batches)->Ok_0[0]) == st.len()
            &&& distinct_keys(st)
            &&& forall|k: Seq<SpecScalar>|
                state_has_key(st, k) <==> spec_stream_has_key(ges, batches, k)
        }),
{
    let ops = spec_agg_ops(aes)->Ok_0;
    let st = spec_agg_stream(Seq::empty(), ges, aes, ops, batches)->Ok_0;
    let out = spec_aggregate_batches(ges, aes, batches)->Ok_0;
    assert(distinct_keys(Seq::<SpecGroup>::empty()));
    lemma_agg_stream_keys(Seq::empty(), ges, aes, ops, batches);
    assert forall|k: Seq<SpecScalar>|
        state_has_key(st, k) <==> spec_stream_has_key(ges, batches, k) by {
        assert(!state_has_key(Seq::<SpecGroup>::empty(), k));
    }
    let g = ges.len() as int;
    let a = aes.len() as int;
    assert(out[0] == spec_finalize(st, g, a)->Ok_0);
    if g > 0 {
        let c = spec_push_keys(SpecArray::empty(st[0].key[0].data_type()), st, 0);
        assert(spec_key_columns(st, 0, g) is Ok);
        assert(c is Ok);
        lemma_push_keys_len(SpecArray::empty(st[0].key[0].data_type()), st, 0);
        assert(SpecArray::empty(st[0].key[0].data_type()).len() == 0) by {
            match st[0].key[0].data_type() {
                crate::schema::DataType::Bool => {},
                crate::schema::DataType::Int32 => {},
                crate::schema::DataType::Float64 => {},
                crate::schema::DataType::Utf8 => {},
                crate::schema::DataType::Timestamp => {},
            }
        }
        assert(spec_key_columns(st, 0, g)->Ok_0[0] == c->Ok_0);
        assert(out[0][0] == c->Ok_0);
        assert(spec_num_rows(out[0]) == st.len());
    } else {
        let vals = spec_push_accs(Seq::empty(), st, 0);
        assert(spec_acc_columns(st, 0, a) is Ok);
        assert(vals is Ok);
        lemma_push_accs_len(Seq::empty(), st, 0);
        assert(spec_acc_columns(st, 0, a)->Ok_0[0] == SpecArray::Int32(vals->Ok_0));
        assert(spec_key_columns(st, 0, 0) == Ok::<Seq<SpecArray>, SpecError>(Seq::empty()));
        assert(out[0] =~= Seq::<SpecArray>::empty() + spec_acc_columns(st, 0, a)->Ok_0);
        assert(out[0][0] == SpecArray::Int32(vals->Ok_0));
        assert(spec_num_rows(out[0]) == st.len());
    }
}



// ---------------------------------------------------------------------------
// Schema fidelity: executed batches have one equally long array per field.
// ---------------------------------------------------------------------------
/// Evaluation over a well-formed batch yields arrays of the batch's row
/// count.
proof fn lemma_evaluate_len(e: SpecPExpr, b: Seq<SpecArray>)
    requires
        batch_wf(b),
    ensures
        ({
            let r = spec_evaluate(e, b);
            r is Ok && r->Ok_0 is Array ==> r->Ok_0->Array_0.len() == spec_num_rows(b)
        }),
    decreases e,
{
    match e {
        SpecPExpr::Column(i) => {},
        SpecPExpr::Binary(op, l, r) => {
            lemma_evaluate_len(*l, b);
            lemma_evaluate_len(*r, b);
            if spec_evaluate(*l, b) is Ok && spec_evaluate(*r, b) is Ok {
                let lv = spec_evaluate(*l, b)->Ok_0;
                let rv = spec_evaluate(*r, b)->Ok_0;
                if is_comparison(op) || is_arithmetic(op) {
                    match (lv, rv) {
                        (SpecColumnar::Array(a), SpecColumnar::Array(c)) => {},
                        (SpecColumnar::Array(a), SpecColumnar::Scalar(sc)) => {
                            lemma_broadcast(sc, a.len());
                        },
                        (SpecColumnar::Scalar(sc), SpecColumnar::Array(c)) => {
                            lemma_broadcast(sc, c.len());
                        },
                        (SpecColumnar::Scalar(_), SpecColumnar::Scalar(_)) => {},
                    }
                }
            }
        },
        SpecPExpr::Aggregate(_, x) => {
            lemma_evaluate_len(*x, b);
        },
        _ => {},
    }
}

/// Inflating an evaluation result to the batch's row count yields an array
/// of exactly that many rows.
proof fn lemma_eval_to_array_len(e: SpecPExpr, b: Seq<SpecArray>)
    requires
        batch_wf(b),
        spec_evaluate(e, b) is Ok,
        spec_to_array(spec_evaluate(e, b)->Ok_0, spec_num_rows(b)) is Ok,
    ensures
        spec_to_array(spec_evaluate(e, b)->Ok_0, spec_num_rows(b))->Ok_0.len() == spec_num_rows(
            b,
        ),
{
    lemma_evaluate_len(e, b);
    let cv = spec_evaluate(e, b)->Ok_0;
    match cv {
        SpecColumnar::Array(_) => {},
        SpecColumnar::Scalar(sc) => {
            match sc {
                SpecScalar::Bool(Some(_)) => {},
                SpecScalar::Int32(Some(_)) => {},
                SpecScalar::Float64(Some(_)) => {},
                SpecScalar::Utf8(Some(_)) => {},
                _ => {},
            }
        },
    }
}

/// A clean projection of a well-formed batch yields columns of the batch's
/// row count.
proof fn lemma_project_batch_wf(es: Seq<SpecPExpr>, b: Seq<SpecArray>)
    requires
        batch_wf(b),
        crate::physical_plan::spec_project_batch(es, b) is Ok,
    ensures
        crate::physical_plan::spec_project_batch(es, b)->Ok_0.len() == es.len(),
        forall|j: int|
            0 <= j < es.len() ==> (#[trigger] crate::physical_plan::spec_project_batch(
                es,
                b,
            )->Ok_0[j]).len() == spec_num_rows(b),
    decreases es.len(),
{
    if es.len() > 0 {
        lemma_eval_to_array_len(es[0], b);
        lemma_project_batch_wf(es.drop_first(), b);
        let a = spec_to_array(spec_evaluate(es[0], b)->Ok_0, spec_num_rows(b))->Ok_0;
        let rest = crate::physical_plan::spec_project_batch(es.drop_first(), b)->Ok_0;
        assert(crate::physical_plan::spec_project_batch(es, b)->Ok_0 == seq![a] + rest);
        assert forall|j: int|
            0 <= j < es.len() implies (#[trigger] crate::physical_plan::spec_project_batch(
            es,
            b,
        )->Ok_0[j]).len() == spec_num_rows(b) by {
            if j == 0 {
                assert((seq![a] + rest)[0] == a);
            } else {
                assert((seq![a] + rest)[j] == rest[j - 1]);
            }
        }
    }
}

/// A projected batch of a well-formed batch is well formed.
proof fn lemma_project_batch_is_wf(es: Seq<SpecPExpr>, b: Seq<SpecArray>)
    requires
        batch_wf(b),
        crate::physical_plan::spec_project_batch(es, b) is Ok,
    ensures
        batch_wf(crate::physical_plan::spec_project_batch(es, b)->Ok_0),
{
    lemma_project_batch_wf(es, b);
}

/// A filtered well-formed batch is well formed and keeps its column count.
proof fn lemma_select_batch_wf(pred: SpecPExpr, b: Seq<SpecArray>)
    requires
        batch_wf(b),
        spec_select_batch(pred, b) is Ok,
    ensures
        spec_select_batch(pred, b)->Ok_0.len() == b.len(),
        batch_wf(spec_select_batch(pred, b)->Ok_0),
{
    let out = spec_select_batch(pred, b)->Ok_0;
    let cv = spec_evaluate(pred, b)->Ok_0;
    let a = spec_to_array(cv, spec_num_rows(b))->Ok_0;
    match a {
        SpecArray::Bool(mask) => {
            assert forall|k: int| 0 <= k < out.len() implies (#[trigger] out[k]).len()
                == spec_keep_count(spec_num_rows(b) as int, mask) by {
                assert(out[k] == spec_filter_array(b[k], mask));
                assert(b[k].len() == spec_num_rows(b));
                lemma_filter_array_len(b[k], mask);
            }
            if out.len() > 0 {
                assert(out[0].len() == spec_keep_count(spec_num_rows(b) as int, mask));
            }
        },
        _ => {},
    }
}

/// The number of arrays per emitted batch: the scan's schema width, one per
/// projected expression, the child's width through a selection, and one
/// per group and aggregate expression out of an aggregation.
pub open spec fn runtime_width(q: crate::physical_plan::SpecPPlan) -> nat
    decreases q,
{
    match q {
        crate::physical_plan::SpecPPlan::Scan { source, projection, .. } => crate::logical_plan::spec_scan_schema(
            source.schema,
            projection,
        ).len(),
        crate::physical_plan::SpecPPlan::Projection { exprs, .. } => exprs.len(),
        crate::physical_plan::SpecPPlan::Selection { input, .. } => runtime_width(*input),
        crate::physical_plan::SpecPPlan::Aggregate { group_exprs, agg_exprs, .. } => (
        group_exprs.len() + agg_exprs.len()) as nat,
    }
}

/// Every batch of the stream is well formed and `w` arrays wide.
pub open spec fn batches_all_wf(bs: Seq<Seq<SpecArray>>, w: nat) -> bool {
    forall|i: int| 0 <= i < bs.len() ==> batch_wf(#[trigger] bs[i]) && bs[i].len() == w
}

proof fn lemma_project_batches_wf(es: Seq<SpecPExpr>, bs: Seq<Seq<SpecArray>>, w: nat)
    requires
        batches_all_wf(bs, w),
        crate::physical_plan::spec_project_batches(es, bs) is Ok,
    ensures
        batches_all_wf(crate::physical_plan::spec_project_batches(es, bs)->Ok_0, es.len()),
    decreases bs.len(),
{
    let out = crate::physical_plan::spec_project_batches(es, bs)->Ok_0;
    if bs.len() > 0 {
        lemma_project_batch_wf(es, bs[0]);
        assert(forall|i: int|
            0 <= i < bs.drop_first().len() ==> #[trigger] bs.drop_first()[i] == bs[i + 1]);
        lemma_project_batches_wf(es, bs.drop_first(), w);
        let b0 = crate::physical_plan::spec_project_batch(es, bs[0])->Ok_0;
        let rest = crate::physical_plan::spec_project_batches(es, bs.drop_first())->Ok_0;
        assert(out == seq![b0] + rest);
        assert forall|i: int| 0 <= i < out.len() implies batch_wf(#[trigger] out[i]) && out[i].len()
            == es.len() by {
            if i == 0 {
                assert(out[0] == b0);
            } else {
                assert(out[i] == rest[i - 1]);
            }
        }
    }
}

proof fn lemma_select_batches_wf(pred: SpecPExpr, bs: Seq<Seq<SpecArray>>, w: nat)
    requires
        batches_all_wf(bs, w),
        spec_select_batches(pred, bs) is Ok,
    ensures
        batches_all_wf(spec_select_batches(pred, bs)->Ok_0, w),
    decreases bs.len(),
{
    let out = spec_select_batches(pred, bs)->Ok_0;
    if bs.len() > 0 {
        lemma_select_batch_wf(pred, bs[0]);
        assert(forall|i: int|
            0 <= i < bs.drop_first().len() ==> #[trigger] bs.drop_first()[i] == bs[i + 1]);
        lemma_select_batches_wf(pred, bs.drop_first(), w);
        let b0 = spec_select_batch(pred, bs[0])->Ok_0;
        let rest = spec_select_batches(pred, bs.drop_first())->Ok_0;
        assert(out == seq![b0] + rest);
        assert forall|i: int| 0 <= i < out.len() implies batch_wf(#[trigger] out[i]) && out[i].len()
            == w by {
            if i == 0 {
                assert(out[0] == b0);
            } else {
                assert(out[i] == rest[i - 1]);
            }
        }
    }
}

proof fn lemma_key_columns_wf(st: Seq<SpecGroup>, lo: int, g: int)
    requires
        0 <= lo,
        st.len() > 0,
        spec_key_columns(st, lo, g) is Ok,
    ensures
        spec_key_columns(st, lo, g)->Ok_0.len() == if lo < g {
            g - lo
        } else {
            0
        },
        forall|m: int|
            0 <= m < spec_key_columns(st, lo, g)->Ok_0.len()
                ==> (#[trigger] spec_key_columns(st, lo, g)->Ok_0[m]).len() == st.len(),
    decreases g - lo,
{
    if lo < g {
        let empty0 = SpecArray::empty(st[0].key[lo].data_type());
        assert(empty0.len() == 0) by {
            match st[0].key[lo].data_type() {
                crate::schema::DataType::Bool => {},
                crate::schema::DataType::Int32 => {},
                crate::schema::DataType::Float64 => {},
                crate::schema::DataType::Utf8 => {},
                crate::schema::DataType::Timestamp => {},
            }
        }
        lemma_push_keys_len(empty0, st, lo);
        lemma_key_columns_wf(st, lo + 1, g);
        let c = spec_push_keys(empty0, st, lo)->Ok_0;
        let rest = spec_key_columns(st, lo + 1, g)->Ok_0;
        assert(spec_key_columns(st, lo, g)->Ok_0 == seq![c] + rest);
        assert forall|m: int|
            0 <= m < spec_key_columns(st, lo, g)->Ok_0.len() implies (
        #[trigger] spec_key_columns(st, lo, g)->Ok_0[m]).len() == st.len() by {
            if m == 0 {
                assert((seq![c] + rest)[0] == c);
            } else {
                assert((seq![c] + rest)[m] == rest[m - 1]);
            }
        }
    }
}

proof fn lemma_acc_columns_wf(st: Seq<SpecGroup>, lo: int, a: int)
    requires
        0 <= lo,
        spec_acc_columns(st, lo, a) is Ok,
    ensures
        spec_acc_columns(st, lo, a)->Ok_0.len() == if lo < a {
            a - lo
        } else {
            0
        },
        forall|m: int|
            0 <= m < spec_acc_columns(st, lo, a)->Ok_0.len()
                ==> (#[trigger] spec_acc_columns(st, lo, a)->Ok_0[m]).len() == st.len(),
    decreases a - lo,
{
    if lo < a {
        lemma_push_accs_len(Seq::empty(), st, lo);
        lemma_acc_columns_wf(st, lo + 1, a);
        let c = SpecArray::Int32(spec_push_accs(Seq::empty(), st, lo)->Ok_0);
        let rest = spec_acc_columns(st, lo + 1, a)->Ok_0;
        assert(spec_acc_columns(st, lo, a)->Ok_0 == seq![c] + rest);
        assert forall|m: int|
            0 <= m < spec_acc_columns(st, lo, a)->Ok_0.len() implies (
        #[trigger] spec_acc_columns(st, lo, a)->Ok_0[m]).len() == st.len() by {
            if m == 0 {
                assert((seq![c] + rest)[0] == c);
            } else {
                assert((seq![c] + rest)[m] == rest[m - 1]);
            }
        }
    }
}

proof fn lemma_aggregate_batches_wf(
    ges: Seq<SpecPExpr>,
    aes: Seq<SpecPExpr>,
    bs: Seq<Seq<SpecArray>>,
)
    requires
        spec_aggregate_batches(ges, aes, bs) is Ok,
    ensures
        batches_all_wf(
            spec_aggregate_batches(ges, aes, bs)->Ok_0,
            (ges.len() + aes.len()) as nat,
        ),
{
    let ops = spec_agg_ops(aes)->Ok_0;
    let st = spec_agg_stream(Seq::empty(), ges, aes, ops, bs)->Ok_0;
    let out = spec_aggregate_batches(ges, aes, bs)->Ok_0;
    let g = ges.len() as int;
    let a = aes.len() as int;
    assert(st.len() > 0);
    lemma_key_columns_wf(st, 0, g);
    lemma_acc_columns_wf(st, 0, a);
    let kc = spec_key_columns(st, 0, g)->Ok_0;
    let ac = spec_acc_columns(st, 0, a)->Ok_0;
    assert(out[0] == kc + ac);
    assert(out[0].len() == g + a);
    assert forall|k: int| 0 <= k < out[0].len() implies (#[trigger] out[0][k]).len()
        == st.len() by {
        if k < kc.len() {
            assert((kc + ac)[k] == kc[k]);
        } else {
            assert((kc + ac)[k] == ac[k - kc.len()]);
        }
    }
    if g + a > 0 {
        assert(spec_num_rows(out[0]) == st.len());
    }
    assert forall|i: int| 0 <= i < out.len() implies batch_wf(#[trigger] out[i]) && out[i].len()
        == (ges.len() + aes.len()) as nat by {
        assert(out[i] == out[0]);
    }
}

/// The scan's batches conform to its derived schema.
proof fn lemma_scan_batches_wf(
    source: crate::data_source::SpecSource,
    projection: Option<Seq<Seq<char>>>,
)
    requires
        crate::data_source::source_wf(source),
    ensures
        batches_all_wf(
            crate::data_source::spec_scan(source, projection),
            crate::logical_plan::spec_scan_schema(source.schema, projection).len(),
        ),
{
    let out = crate::data_source::spec_scan(source, projection);
    match projection {
        None => {
            assert forall|i: int|
                0 <= i < out.len() implies batch_wf(#[trigger] out[i]) && out[i].len()
                == source.schema.len() by {
                assert(crate::record_batch::batch_matches(source.batches[i], source.schema));
            }
        },
        Some(names) => {
            assert forall|i: int|
                0 <= i < out.len() implies batch_wf(#[trigger] out[i]) && out[i].len()
                == crate::schema::spec_project_fields(source.schema, names).len() by {
                assert(crate::record_batch::batch_matches(source.batches[i], source.schema));
                crate::data_source::lemma_project_columns_matches(
                    source.schema,
                    source.batches[i],
                    names,
                    spec_num_rows(source.batches[i]),
                );
                assert(out[i] == crate::data_source::spec_project_columns(
                    source.schema,
                    source.batches[i],
                    names,
                ));
                if out[i].len() > 0 {
                    assert(out[i][0].len() == spec_num_rows(source.batches[i]));
                }
            }
        },
    }
}

/// Schema fidelity of execution: every batch an operator tree emits is well
/// formed (all arrays share one length) and carries one array per output
/// field of the operator.
pub proof fn lemma_execute_batches_wf(q: crate::physical_plan::SpecPPlan)
    requires
        crate::physical_plan::pplan_sources_wf(q),
        crate::physical_plan::spec_execute(q) is Ok,
    ensures
        batches_all_wf(crate::physical_plan::spec_execute(q)->Ok_0, runtime_width(q)),
    decreases q,
{
    match q {
        crate::physical_plan::SpecPPlan::Scan { source, projection, schema } => {
            lemma_scan_batches_wf(source, projection);
        },
        crate::physical_plan::SpecPPlan::Projection { input, exprs, schema } => {
            lemma_execute_batches_wf(*input);
            lemma_project_batches_wf(
                exprs,
                crate::physical_plan::spec_execute(*input)->Ok_0,
                runtime_width(*input),
            );
        },
        crate::physical_plan::SpecPPlan::Selection { input, expr, schema } => {
            lemma_execute_batches_wf(*input);
            lemma_select_batches_wf(
                expr,
                crate::physical_plan::spec_execute(*input)->Ok_0,
                runtime_width(*input),
            );
        },
        crate::physical_plan::SpecPPlan::Aggregate { input, group_exprs, agg_exprs, schema } => {
            lemma_execute_batches_wf(*input);
            lemma_aggregate_batches_wf(
                group_exprs,
                agg_exprs,
                crate::physical_plan::spec_execute(*input)->Ok_0,
            );
        },
    }
}



/// A clean inference yields one field per expression.
proof fn lemma_to_fields_len(es: Seq<crate::logical_expression::SpecExpr>, s: Seq<crate::schema::SpecField>)
    ensures
        crate::logical_expression::spec_to_fields(es, s) is Ok
            ==> crate::logical_expression::spec_to_fields(es, s)->Ok_0.len() == es.len(),
    decreases es.len(),
{
    if es.len() > 0 {
        lemma_to_fields_len(es.drop_first(), s);
    }
}

/// A clean lowering yields one physical expression per logical one.
proof fn lemma_lower_exprs_len(
    es: Seq<crate::logical_expression::SpecExpr>,
    s: Seq<crate::schema::SpecField>,
)
    ensures
        crate::query_planner::spec_lower_exprs(es, s) is Ok
            ==> crate::query_planner::spec_lower_exprs(es, s)->Ok_0.len() == es.len(),
    decreases es.len(),
{
    if es.len() > 0 {
        lemma_lower_exprs_len(es.drop_first(), s);
    }
}

proof fn lemma_lower_agg_exprs_len(
    es: Seq<crate::logical_expression::SpecExpr>,
    s: Seq<crate::schema::SpecField>,
)
    ensures
        crate::query_planner::spec_lower_agg_exprs(es, s) is Ok
            ==> crate::query_planner::spec_lower_agg_exprs(es, s)->Ok_0.len() == es.len(),
    decreases es.len(),
{
    if es.len() > 0 {
        lemma_lower_agg_exprs_len(es.drop_first(), s);
    }
}

/// Schema fidelity: executing the lowered form of a well-formed scan,
/// projection or aggregate yields batches with exactly one array per field
/// of the plan's derived schema, all sharing one length. A selection's
/// derived schema is the single field of its predicate while its batches
/// keep the child's columns, so for a selection at the root the statement
/// holds with the child's width instead.
pub proof fn lemma_schema_fidelity(p: crate::logical_plan::SpecPlan)
    requires
        crate::logical_plan::plan_wf(p),
        crate::query_planner::spec_lower_plan(p) is Ok,
        crate::physical_plan::spec_execute(crate::query_planner::spec_lower_plan(p)->Ok_0) is Ok,
        !(p is Selection),
    ensures
        batches_all_wf(
            crate::physical_plan::spec_execute(
                crate::query_planner::spec_lower_plan(p)->Ok_0,
            )->Ok_0,
            p.schema().len(),
        ),
{
    let q = crate::query_planner::spec_lower_plan(p)->Ok_0;
    crate::query_planner::lemma_lower_preserves(p);
    lemma_execute_batches_wf(q);
    match p {
        crate::logical_plan::SpecPlan::Scan { .. } => {},
        crate::logical_plan::SpecPlan::Projection { exprs, child, schema } => {
            lemma_lower_exprs_len(exprs, child.schema());
            lemma_to_fields_len(exprs, child.schema());
        },
        crate::logical_plan::SpecPlan::Selection { .. } => {},
        crate::logical_plan::SpecPlan::Aggregate { group_exprs, aggregate_exprs, child, schema } => {
            lemma_lower_exprs_len(group_exprs, child.schema());
            lemma_lower_agg_exprs_len(aggregate_exprs, child.schema());
            lemma_to_fields_len(group_exprs + aggregate_exprs, child.schema());
        },
    }
}



// ---------------------------------------------------------------------------
// Filter soundness: every surviving row satisfies the predicate.
// ---------------------------------------------------------------------------
/// The value a columnar result contributes at row `i`: the array element,
/// or the scalar itself.
pub open spec fn spec_columnar_at(cv: SpecColumnar, i: int) -> SpecScalar {
    match cv {
        SpecColumnar::Array(a) => a.index_value(i),
        SpecColumnar::Scalar(s) => s,
    }
}

/// The storage class of a columnar result.
pub open spec fn spec_columnar_type(cv: SpecColumnar) -> crate::schema::DataType {
    match cv {
        SpecColumnar::Array(a) => a.data_type(),
        SpecColumnar::Scalar(s) => s.data_type(),
    }
}

/// Evaluation is pointwise: over two well-formed batches with the same
/// column types, rows that agree columnwise evaluate to the same value, and
/// success carries over.
proof fn lemma_evaluate_pointwise(
    e: SpecPExpr,
    b1: Seq<SpecArray>,
    b2: Seq<SpecArray>,
    i1: int,
    i2: int,
)
    requires
        batch_wf(b1),
        batch_wf(b2),
        b1.len() == b2.len(),
        forall|k: int| 0 <= k < b1.len() ==> (#[trigger] b1[k]).data_type() == b2[k].data_type(),
        spec_evaluate(e, b1) is Ok,
        0 <= i1 < spec_num_rows(b1),
        0 <= i2 < spec_num_rows(b2),
        forall|k: int|
            0 <= k < b1.len() ==> (#[trigger] b1[k]).index_value(i1) == b2[k].index_value(i2),
    ensures
        spec_evaluate(e, b2) is Ok,
        spec_evaluate(e, b1)->Ok_0 is Array <==> spec_evaluate(e, b2)->Ok_0 is Array,
        spec_columnar_type(spec_evaluate(e, b1)->Ok_0) == spec_columnar_type(
            spec_evaluate(e, b2)->Ok_0,
        ),
        spec_columnar_at(spec_evaluate(e, b1)->Ok_0, i1) == spec_columnar_at(
            spec_evaluate(e, b2)->Ok_0,
            i2,
        ),
    decreases e,
{
    lemma_evaluate_len(e, b1);
    lemma_evaluate_len(e, b2);
    match e {
        SpecPExpr::Column(i) => {},
        SpecPExpr::LiteralBool(_) => {},
        SpecPExpr::LiteralString(_) => {},
        SpecPExpr::LiteralInteger(_) => {},
        SpecPExpr::Binary(op, l, r) => {
            lemma_evaluate_pointwise(*l, b1, b2, i1, i2);
            lemma_evaluate_pointwise(*r, b1, b2, i1, i2);
            lemma_evaluate_len(*l, b1);
            lemma_evaluate_len(*r, b1);
            lemma_evaluate_len(*l, b2);
            lemma_evaluate_len(*r, b2);
            let lv1 = spec_evaluate(*l, b1)->Ok_0;
            let rv1 = spec_evaluate(*r, b1)->Ok_0;
            let lv2 = spec_evaluate(*l, b2)->Ok_0;
            let rv2 = spec_evaluate(*r, b2)->Ok_0;
            if is_comparison(op) || is_arithmetic(op) {
                match (lv1, rv1) {
                    (SpecColumnar::Array(a1), SpecColumnar::Array(c1)) => {
                        let a2 = lv2->Array_0;
                        let c2 = rv2->Array_0;
                        lemma_index_value_type(a1, i1);
                        lemma_index_value_type(c1, i1);
                        lemma_index_value_type(a2, i2);
                        lemma_index_value_type(c2, i2);
                    },
                    (SpecColumnar::Array(a1), SpecColumnar::Scalar(s1)) => {
                        let a2 = lv2->Array_0;
                        lemma_broadcast(s1, a1.len());
                        lemma_broadcast(rv2->Scalar_0, a2.len());
                        lemma_index_value_type(a1, i1);
                        lemma_index_value_type(a2, i2);
                    },
                    (SpecColumnar::Scalar(s1), SpecColumnar::Array(c1)) => {
                        let c2 = rv2->Array_0;
                        lemma_broadcast(s1, c1.len());
                        lemma_broadcast(lv2->Scalar_0, c2.len());
                        lemma_index_value_type(c1, i1);
                        lemma_index_value_type(c2, i2);
                    },
                    (SpecColumnar::Scalar(_), SpecColumnar::Scalar(_)) => {},
                }
            }
        },
        SpecPExpr::Aggregate(_, x) => {
            lemma_evaluate_pointwise(*x, b1, b2, i1, i2);
        },
    }
}

/// The row indices the mask keeps among the first `n`, in order.
pub open spec fn spec_kept(n: int, mask: Seq<Option<bool>>) -> Seq<int>
    decreases n,
{
    if n <= 0 {
        Seq::empty()
    } else {
        let rest = spec_kept(n - 1, mask);
        if n <= mask.len() && mask[n - 1] == Some(true) {
            rest.push(n - 1)
        } else {
            rest
        }
    }
}

/// The kept indices are exactly the positions of the filtered elements.
proof fn lemma_kept_indices<T>(xs: Seq<T>, mask: Seq<Option<bool>>)
    ensures
        spec_kept(xs.len() as int, mask).len() == spec_filter_seq(xs, mask).len(),
        forall|j: int|
            0 <= j < spec_kept(xs.len() as int, mask).len() ==> 0 <= #[trigger] spec_kept(
                xs.len() as int,
                mask,
            )[j] < xs.len(),
        forall|j: int|
            0 <= j < spec_kept(xs.len() as int, mask).len() ==> #[trigger] spec_kept(
                xs.len() as int,
                mask,
            )[j] < mask.len() && mask[spec_kept(xs.len() as int, mask)[j]] == Some(true),
        forall|j: int|
            0 <= j < spec_filter_seq(xs, mask).len() ==> #[trigger] spec_filter_seq(xs, mask)[j]
                == xs[spec_kept(xs.len() as int, mask)[j]],
    decreases xs.len(),
{
    if xs.len() > 0 {
        lemma_kept_indices(xs.drop_last(), mask);
        let n = xs.len() as int;
        let kept = spec_kept(n, mask);
        let keptr = spec_kept(n - 1, mask);
        let fr = spec_filter_seq(xs.drop_last(), mask);
        assert(keptr.len() == fr.len());
        assert forall|j: int| 0 <= j < kept.len() implies 0 <= #[trigger] kept[j] < xs.len()
            && kept[j] < mask.len() && mask[kept[j]] == Some(true) by {
            if n <= mask.len() && mask[n - 1] == Some(true) {
                if j < keptr.len() {
                    assert(kept[j] == keptr[j]);
                } else {
                    assert(kept[j] == n - 1);
                }
            } else {
                assert(kept[j] == keptr[j]);
            }
        }
        assert forall|j: int|
            0 <= j < spec_filter_seq(xs, mask).len() implies #[trigger] spec_filter_seq(
            xs,
            mask,
        )[j] == xs[kept[j]] by {
            if n <= mask.len() && mask[n - 1] == Some(true) {
                if j < fr.len() {
                    assert(kept[j] == keptr[j]);
                    assert(spec_filter_seq(xs, mask)[j] == fr[j]);
                    assert(fr[j] == xs.drop_last()[keptr[j]]);
                    assert(0 <= keptr[j] < xs.drop_last().len());
                    assert(xs.drop_last()[keptr[j]] == xs[keptr[j]]);
                } else {
                    assert(kept[j] == n - 1);
                    assert(spec_filter_seq(xs, mask)[j] == xs.last());
                }
            } else {
                assert(kept[j] == keptr[j]);
                assert(spec_filter_seq(xs, mask)[j] == fr[j]);
                assert(fr[j] == xs.drop_last()[keptr[j]]);
                assert(0 <= keptr[j] < xs.drop_last().len());
                assert(xs.drop_last()[keptr[j]] == xs[keptr[j]]);
            }
        }
    }
}

/// Filtering keeps an array's storage class, and its rows are the kept rows
/// of the input, in order.
proof fn lemma_filter_array_rows(a: SpecArray, mask: Seq<Option<bool>>)
    ensures
        spec_filter_array(a, mask).data_type() == a.data_type(),
        spec_filter_array(a, mask).len() == spec_kept(a.len() as int, mask).len(),
        forall|j: int|
            0 <= j < spec_filter_array(a, mask).len()
                ==> #[trigger] spec_filter_array(a, mask).index_value(j) == a.index_value(
                spec_kept(a.len() as int, mask)[j],
            ),
{
    match a {
        SpecArray::Bool(v) => lemma_kept_indices(v, mask),
        SpecArray::Int32(v) => lemma_kept_indices(v, mask),
        SpecArray::Float64(v) => lemma_kept_indices(v, mask),
        SpecArray::Utf8(v) => lemma_kept_indices(v, mask),
        SpecArray::Timestamp(v) => lemma_kept_indices(v, mask),
    }
}

/// Filter soundness: re-evaluating the predicate over the filtered batch
/// yields `true` on every surviving row.
pub proof fn lemma_filter_soundness(pred: SpecPExpr, b: Seq<SpecArray>)
    requires
        batch_wf(b),
        spec_select_batch(pred, b) is Ok,
    ensures
        ({
            let out = spec_select_batch(pred, b)->Ok_0;
            &&& spec_evaluate(pred, out) is Ok
            &&& forall|j: int|
                0 <= j < spec_num_rows(out) ==> spec_columnar_at(
                    spec_evaluate(pred, out)->Ok_0,
                    #[trigger] (j + 0),
                ) == SpecScalar::Bool(Some(true))
        }),
{
    let out = spec_select_batch(pred, b)->Ok_0;
    let cv = spec_evaluate(pred, b)->Ok_0;
    let arr = spec_to_array(cv, spec_num_rows(b))->Ok_0;
    let mask = arr->Bool_0;
    let kept = spec_kept(spec_num_rows(b) as int, mask);
    lemma_select_batch_wf(pred, b);
    assert forall|k: int|
        0 <= k < b.len() implies (#[trigger] out[k]).data_type() == b[k].data_type() by {
        assert(out[k] == spec_filter_array(b[k], mask));
        lemma_filter_array_rows(b[k], mask);
    }
    if spec_num_rows(out) > 0 {
        assert(out.len() == b.len());
        assert(b.len() > 0);
        assert(out[0] == spec_filter_array(b[0], mask));
        lemma_filter_array_rows(b[0], mask);
        assert(b[0].len() == spec_num_rows(b));
        assert(spec_num_rows(out) == kept.len());
        assert forall|j: int|
            0 <= j < spec_num_rows(out) implies {
            &&& 0 <= kept[j] < spec_num_rows(b)
            &&& kept[j] < mask.len()
            &&& mask[#[trigger] kept[j]] == Some(true)
        } by {
            lemma_kept_bounds(b[0], mask, j);
        }
        assert(spec_evaluate(pred, out) is Ok) by {
            let i0 = kept[0];
            lemma_kept_bounds(b[0], mask, 0);
            assert forall|k: int|
                0 <= k < out.len() implies (#[trigger] out[k]).index_value(0) == b[k].index_value(
                i0,
            ) by {
                assert(out[k] == spec_filter_array(b[k], mask));
                lemma_filter_array_rows(b[k], mask);
                assert(b[k].len() == spec_num_rows(b));
                assert(out[k].index_value(0) == b[k].index_value(
                    spec_kept(b[k].len() as int, mask)[0],
                ));
            }
            assert forall|k: int|
                0 <= k < b.len() implies (#[trigger] b[k]).index_value(i0) == out[k].index_value(
                0,
            ) by {
                assert(out[k].index_value(0) == b[k].index_value(i0));
            }
            lemma_evaluate_pointwise(pred, b, out, i0, 0);
        }
        assert forall|j: int|
            0 <= j < spec_num_rows(out) implies spec_evaluate(pred, out) is Ok
            && spec_columnar_at(spec_evaluate(pred, out)->Ok_0, #[trigger] (j + 0))
            == SpecScalar::Bool(Some(true)) by {
            let i = kept[j];
            assert forall|k: int|
                0 <= k < b.len() implies (#[trigger] b[k]).index_value(i) == out[k].index_value(
                j,
            ) by {
                assert(out[k] == spec_filter_array(b[k], mask));
                lemma_filter_array_rows(b[k], mask);
                assert(b[k].len() == spec_num_rows(b));
                assert(out[k].index_value(j) == b[k].index_value(
                    spec_kept(b[k].len() as int, mask)[j],
                ));
            }
            assert forall|k: int|
                0 <= k < out.len() implies (#[trigger] out[k]).index_value(j) == b[k].index_value(
                i,
            ) by {
                assert(b[k].index_value(i) == out[k].index_value(j));
            }
            lemma_evaluate_pointwise(pred, b, out, i, j);
            let v2 = spec_evaluate(pred, out)->Ok_0;
            match cv {
                SpecColumnar::Array(a) => {
                    assert(a is Bool);
                    assert(spec_columnar_at(cv, i) == SpecScalar::Bool(mask[i]));
                    assert(mask[i] == Some(true));
                },
                SpecColumnar::Scalar(s) => {
                    match s {
                        SpecScalar::Bool(Some(v)) => {
                            assert(mask == Seq::new(spec_num_rows(b), |x: int| Some(v)));
                            assert(mask[i] == Some(v));
                            assert(v == true);
                            assert(spec_columnar_at(cv, i) == SpecScalar::Bool(Some(true)));
                        },
                        _ => {
                            assert(false);
                        },
                    }
                },
            }
        }
    } else {
        if out.len() == 0 {
            assert(b.len() == 0);
            assert(spec_evaluate(pred, out) == spec_evaluate(pred, b)) by {
                assert(out =~= b);
            }
        } else {
            assert(out[0].len() == 0);
            lemma_empty_rows_eval(pred, b, out, mask);
        }
    }
}

/// Helper: bounds of a kept index.
proof fn lemma_kept_bounds(a: SpecArray, mask: Seq<Option<bool>>, j: int)
    requires
        0 <= j < spec_kept(a.len() as int, mask).len(),
    ensures
        0 <= spec_kept(a.len() as int, mask)[j] < a.len(),
        spec_kept(a.len() as int, mask)[j] < mask.len(),
        mask[spec_kept(a.len() as int, mask)[j]] == Some(true),
{
    lemma_filter_array_rows(a, mask);
    match a {
        SpecArray::Bool(v) => lemma_kept_indices(v, mask),
        SpecArray::Int32(v) => lemma_kept_indices(v, mask),
        SpecArray::Float64(v) => lemma_kept_indices(v, mask),
        SpecArray::Utf8(v) => lemma_kept_indices(v, mask),
        SpecArray::Timestamp(v) => lemma_kept_indices(v, mask),
    }
}

/// Helper: with zero surviving rows the re-evaluation claim is vacuous,
/// but success still must hold; an empty filtered batch evaluates like any
/// batch of its shape.
proof fn lemma_empty_rows_eval(
    pred: SpecPExpr,
    b: Seq<SpecArray>,
    out: Seq<SpecArray>,
    mask: Seq<Option<bool>>,
)
    requires
        batch_wf(b),
        batch_wf(out),
        out.len() == b.len(),
        forall|k: int| 0 <= k < b.len() ==> (#[trigger] out[k]).data_type() == b[k].data_type(),
        spec_evaluate(pred, b) is Ok,
    ensures
        spec_evaluate(pred, out) is Ok,
    decreases pred,
{
    lemma_evaluate_len(pred, b);
    lemma_evaluate_len(pred, out);
    match pred {
        SpecPExpr::Column(i) => {},
        SpecPExpr::LiteralBool(_) => {},
        SpecPExpr::LiteralString(_) => {},
        SpecPExpr::LiteralInteger(_) => {},
        SpecPExpr::Binary(op, l, r) => {
            lemma_empty_rows_eval(*l, b, out, mask);
            lemma_empty_rows_eval(*r, b, out, mask);
            lemma_evaluate_len(*l, b);
            lemma_evaluate_len(*r, b);
            lemma_evaluate_len(*l, out);
            lemma_evaluate_len(*r, out);
            lemma_evaluate_type_stable(*l, b, out);
            lemma_evaluate_type_stable(*r, b, out);
            let lv1 = spec_evaluate(*l, b)->Ok_0;
            let rv1 = spec_evaluate(*r, b)->Ok_0;
            let lv2 = spec_evaluate(*l, out)->Ok_0;
            let rv2 = spec_evaluate(*r, out)->Ok_0;
            if is_comparison(op) || is_arithmetic(op) {
                match (lv1, rv1) {
                    (SpecColumnar::Array(_), SpecColumnar::Array(_)) => {},
                    (SpecColumnar::Array(a1), SpecColumnar::Scalar(s1)) => {
                        lemma_broadcast(s1, a1.len());
                        lemma_broadcast(rv2->Scalar_0, lv2->Array_0.len());
                    },
                    (SpecColumnar::Scalar(s1), SpecColumnar::Array(c1)) => {
                        lemma_broadcast(s1, c1.len());
                        lemma_broadcast(lv2->Scalar_0, rv2->Array_0.len());
                    },
                    (SpecColumnar::Scalar(_), SpecColumnar::Scalar(_)) => {},
                }
            }
        },
        SpecPExpr::Aggregate(_, x) => {
            lemma_empty_rows_eval(*x, b, out, mask);
        },
    }
}

/// Helper: over batches of the same column types, evaluation succeeds with
/// the same result shape and storage class.
proof fn lemma_evaluate_type_stable(e: SpecPExpr, b1: Seq<SpecArray>, b2: Seq<SpecArray>)
    requires
        batch_wf(b1),
        batch_wf(b2),
        b1.len() == b2.len(),
        forall|k: int| 0 <= k < b1.len() ==> (#[trigger] b1[k]).data_type() == b2[k].data_type(),
        spec_evaluate(e, b1) is Ok,
        spec_evaluate(e, b2) is Ok,
    ensures
        spec_evaluate(e, b1)->Ok_0 is Array <==> spec_evaluate(e, b2)->Ok_0 is Array,
        spec_columnar_type(spec_evaluate(e, b1)->Ok_0) == spec_columnar_type(
            spec_evaluate(e, b2)->Ok_0,
        ),
        spec_evaluate(e, b1)->Ok_0 is Scalar ==> spec_evaluate(e, b1)->Ok_0 == spec_evaluate(
            e,
            b2,
        )->Ok_0,
    decreases e,
{
    match e {
        SpecPExpr::Column(i) => {},
        SpecPExpr::LiteralBool(_) => {},
        SpecPExpr::LiteralString(_) => {},
        SpecPExpr::LiteralInteger(_) => {},
        SpecPExpr::Binary(op, l, r) => {
            lemma_evaluate_type_stable(*l, b1, b2);
            lemma_evaluate_type_stable(*r, b1, b2);
            let lv1 = spec_evaluate(*l, b1)->Ok_0;
            let rv1 = spec_evaluate(*r, b1)->Ok_0;
            if is_comparison(op) || is_arithmetic(op) {
                match (lv1, rv1) {
                    (SpecColumnar::Array(a1), SpecColumnar::Scalar(s1)) => {
                        lemma_broadcast(s1, a1.len());
                        lemma_broadcast(
                            spec_evaluate(*r, b2)->Ok_0->Scalar_0,
                            spec_evaluate(*l, b2)->Ok_0->Array_0.len(),
                        );
                    },
                    (SpecColumnar::Scalar(s1), SpecColumnar::Array(c1)) => {
                        lemma_broadcast(s1, c1.len());
                        lemma_broadcast(
                            spec_evaluate(*l, b2)->Ok_0->Scalar_0,
                            spec_evaluate(*r, b2)->Ok_0->Array_0.len(),
                        );
                    },
                    _ => {},
                }
            }
        },
        SpecPExpr::Aggregate(_, x) => {
            lemma_evaluate_type_stable(*x, b1, b2);
        },
    }
}

} // verus!
