//! Data sources: in-memory columnar tables with a schema and a projecting
//! scan.
//!
//! File readers live outside the engine; they hand their inferred schema and
//! decoded batches in as plain values through [`MemoryDataSource`].

use vstd::prelude::*;

use crate::columnar_value::SpecArray;
use crate::error::{Error, SpecError};
use crate::record_batch::{batch_matches, batches_view, cols_view, spec_num_rows, RecordBatch};
use crate::schema::{
    contains_string, fields_view, names_view, spec_project_fields, Schema, SpecField,
};

verus! {

/// An in-memory table: a schema and the batches that conform to it.
#[derive(Debug, PartialEq)]
pub struct MemoryDataSource {
    pub schema: Schema,
    pub batches: Vec<RecordBatch>,
}

/// A source of batches. One variant is implemented: the in-memory table fed
/// by an outside file reader.
#[derive(Debug, PartialEq)]
pub enum DataSource {
    Memory(MemoryDataSource),
}

/// Mathematical image of a [`DataSource`].
#[verifier::ext_equal]
pub struct SpecSource {
    pub schema: Seq<SpecField>,
    pub batches: Seq<Seq<SpecArray>>,
}

impl View for DataSource {
    type V = SpecSource;

    open spec fn view(&self) -> SpecSource {
        match self {
            DataSource::Memory(m) => SpecSource {
                schema: m.schema@,
                batches: batches_view(m.batches@),
            },
        }
    }
}

/// Every batch of the source conforms to its schema.
pub open spec fn source_wf(s: SpecSource) -> bool {
    forall|i: int| 0 <= i < s.batches.len() ==> batch_matches(#[trigger] s.batches[i], s.schema)
}

impl DataSource {
    /// Every batch of the source conforms to its schema.
    pub open spec fn wf(&self) -> bool {
        source_wf(self@)
    }
}

/// The columns of `cols` whose positionally matching field in `fields` bears
/// a name in `names`, kept in schema order.
pub open spec fn spec_project_columns(
    fields: Seq<SpecField>,
    cols: Seq<SpecArray>,
    names: Seq<Seq<char>>,
) -> Seq<SpecArray>
    decreases fields.len(),
{
    if fields.len() == 0 || cols.len() == 0 {
        Seq::empty()
    } else {
        let rest = spec_project_columns(fields.drop_last(), cols.drop_last(), names);
        if names.contains(fields.last().name) {
            rest.push(cols.last())
        } else {
            rest
        }
    }
}

/// The batches a scan with projection `proj` yields: the source's batches,
/// each restricted to the projected columns when a projection is given.
pub open spec fn spec_scan(src: SpecSource, proj: Option<Seq<Seq<char>>>) -> Seq<Seq<SpecArray>> {
    match proj {
        None => src.batches,
        Some(names) => Seq::new(
            src.batches.len(),
            |i: int| spec_project_columns(src.schema, src.batches[i], names),
        ),
    }
}

/// Projecting a conforming batch yields a batch that conforms to the
/// projected schema and keeps the row count.
pub proof fn lemma_project_columns_matches(
    fields: Seq<SpecField>,
    cols: Seq<SpecArray>,
    names: Seq<Seq<char>>,
    rows: nat,
)
    requires
        cols.len() == fields.len(),
        forall|i: int|
            0 <= i < cols.len() ==> (#[trigger] cols[i]).data_type() == fields[i].data_type,
        forall|i: int| 0 <= i < cols.len() ==> (#[trigger] cols[i]).len() == rows,
    ensures
        spec_project_columns(fields, cols, names).len() == spec_project_fields(
            fields,
            names,
        ).len(),
        forall|k: int|
            0 <= k < spec_project_columns(fields, cols, names).len() ==> (
            #[trigger] spec_project_columns(fields, cols, names)[k]).data_type()
                == spec_project_fields(fields, names)[k].data_type,
        forall|k: int|
            0 <= k < spec_project_columns(fields, cols, names).len() ==> (
            #[trigger] spec_project_columns(fields, cols, names)[k]).len() == rows,
    decreases fields.len(),
{
    if fields.len() > 0 {
        assert(cols.last() == cols[cols.len() - 1]);
        lemma_project_columns_matches(fields.drop_last(), cols.drop_last(), names, rows);
    }
}

impl DataSource {
    /// Builds a source after checking that every batch conforms to the
    /// schema: column count, column types, and one shared length per batch.
    pub fn new(schema: Schema, batches: Vec<RecordBatch>) -> (r: Result<DataSource, Error>)
        ensures
            match r {
                Ok(ds) => ds@ == (SpecSource {
                    schema: schema@,
                    batches: batches_view(batches@),
                }) && ds.wf(),
                Err(e) => e@ == SpecError::DataSourceError(
                    "batch does not conform to the data source schema"@,
                ),
            },
    {
        let n = batches.len();
        let mut i: usize = 0;
        while i < n
            invariant
                i <= n,
                n == batches@.len(),
                forall|j: int| 0 <= j < i ==> batch_matches(batches_view(batches@)[j], schema@),
        decreases n - i,
        {
            if !batch_conforms(&schema, &batches[i]) {
                return Err(
                    Error::DataSourceError(
                        "batch does not conform to the data source schema".to_owned(),
                    ),
                );
            }
            assert(batches_view(batches@)[i as int] == batches@[i as int]@);
            i = i + 1;
        }
        let ds = DataSource::Memory(MemoryDataSource { schema, batches });
        Ok(ds)
    }

    /// The source's schema, cloned.
    pub fn schema(&self) -> (r: Schema)
        ensures
            r@ == self@.schema,
    {
        match self {
            DataSource::Memory(m) => m.schema.clone(),
        }
    }

    /// Consumes the source and yields its batches in order, restricted to
    /// the projected columns when a projection is given.
    pub fn scan(self, projection: Option<Vec<String>>) -> (r: Vec<RecordBatch>)
        requires
            self.wf(),
        ensures
            batches_view(r@) == spec_scan(
                self@,
                match projection {
                    Some(p) => Some(names_view(p@)),
                    None => None,
                },
            ),
    {
        let ghost srcv = self@;
        match self {
            DataSource::Memory(m) => {
                match projection {
                    None => {
                        proof {
                            assert(batches_view(m.batches@) =~= spec_scan(srcv, None));
                        }
                        m.batches
                    },
                    Some(names) => {
                        let ghost namesv = names_view(names@);
                        let mut out: Vec<RecordBatch> = Vec::new();
                        let n = m.batches.len();
                        let mut i: usize = 0;
                        while i < n
                            invariant
                                i <= n,
                                n == m.batches@.len(),
                                namesv == names_view(names@),
                                srcv == (SpecSource {
                                    schema: m.schema@,
                                    batches: batches_view(m.batches@),
                                }),
                                forall|j: int|
                                    0 <= j < srcv.batches.len() ==> batch_matches(
                                        #[trigger] srcv.batches[j],
                                        srcv.schema,
                                    ),
                                out@.len() == i,
                                forall|j: int|
                                    0 <= j < i ==> #[trigger] out@[j]@ == spec_project_columns(
                                        srcv.schema,
                                        srcv.batches[j],
                                        namesv,
                                    ),
                            decreases n - i,
                        {
                            assert(batches_view(m.batches@)[i as int] == m.batches@[i as int]@);
                            assert(srcv.batches[i as int] == m.batches@[i as int]@);
                            assert(batch_matches(srcv.batches[i as int], srcv.schema));
                            assert(m.batches@[i as int]@.len() == m.schema@.len());
                            let b = project_batch(&m.schema, &m.batches[i], &names);
                            out.push(b);
                            i = i + 1;
                        }
                        proof {
                            assert(batches_view(out@) =~= spec_scan(srcv, Some(namesv)));
                        }
                        out
                    },
                }
            },
        }
    }
}

/// Whether the batch conforms to the schema: as many columns as fields, each
/// column of its field's storage class, all columns sharing one length.
pub fn batch_conforms(schema: &Schema, b: &RecordBatch) -> (r: bool)
    ensures
        r == batch_matches(b@, schema@),
{
    let ncols = b.columns.len();
    if ncols != schema.fields.len() {
        assert(!batch_matches(b@, schema@));
        return false;
    }
    let rows = b.row_count();
    let mut i: usize = 0;
    while i < ncols
        invariant
            i <= ncols,
            ncols == b.columns@.len(),
            ncols == schema.fields@.len(),
            rows == spec_num_rows(b@),
            forall|j: int|
                0 <= j < i ==> (#[trigger] b@[j]).data_type() == schema@[j].data_type && b@[j].len()
                    == rows,
        decreases ncols - i,
    {
        assert(b@[i as int] == b.columns@[i as int]@);
        assert(schema@[i as int] == schema.fields@[i as int]@);
        if !(b.columns[i].data_type() == schema.fields[i].data_type) {
            assert(!batch_matches(b@, schema@));
            return false;
        }
        if b.columns[i].len() != rows {
            assert(!batch_matches(b@, schema@));
            return false;
        }
        i = i + 1;
    }
    true
}

/// The columns of `b` whose field name occurs in `names`, in schema order.
fn project_batch(schema: &Schema, b: &RecordBatch, names: &Vec<String>) -> (r: RecordBatch)
    requires
        b@.len() == schema@.len(),
    ensures
        r@ == spec_project_columns(schema@, b@, names_view(names@)),
{
    let n = schema.fields.len();
    let mut cols: Vec<crate::columnar_value::ArrayData> = Vec::new();
    let mut i: usize = 0;
    while i < n
        invariant
            i <= n,
            n == schema.fields@.len(),
            n == b.columns@.len(),
            b@.len() == schema@.len(),
            cols_view(cols@) == spec_project_columns(
                schema@.take(i as int),
                b@.take(i as int),
                names_view(names@),
            ),
        decreases n - i,
    {
        let ghost fpre = schema@.take(i as int);
        let ghost fpost = schema@.take(i + 1);
        let ghost cpre = b@.take(i as int);
        let ghost cpost = b@.take(i + 1);
        proof {
            assert(fpost.drop_last() =~= fpre);
            assert(cpost.drop_last() =~= cpre);
            assert(fpost.last() == schema.fields@[i as int]@);
            assert(cpost.last() == b.columns@[i as int]@);
        }
        if contains_string(names, &schema.fields[i].name) {
            let ghost oldcols = cols@;
            cols.push(b.columns[i].clone());
            proof {
                assert(cols_view(cols@) =~= cols_view(oldcols).push(b.columns@[i as int]@));
                assert(cols_view(cols@) =~= spec_project_columns(
                    fpost,
                    cpost,
                    names_view(names@),
                ));
            }
        } else {
            proof {
                assert(cols_view(cols@) =~= spec_project_columns(
                    fpost,
                    cpost,
                    names_view(names@),
                ));
            }
        }
        i = i + 1;
    }
    proof {
        assert(schema@.take(n as int) =~= schema@);
        assert(b@.take(n as int) =~= b@);
    }
    RecordBatch::new(cols)
}

} // verus!
