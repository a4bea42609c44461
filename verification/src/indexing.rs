use vstd::prelude::*;

use crate::errors::PipelineError;
use crate::models::{
    organized_data, organized_prefix, table_wf, vals_view, QueryTable, TroutStocking,
};

verus! {

/// The designated column whose populated entries the index counts.
pub open spec fn species_label() -> Seq<char> {
    "Species"@
}

/// The number of present values in a sequence of optional values.
pub open spec fn count_populated(vs: Seq<Option<Seq<char>>>) -> nat
    decreases vs.len(),
{
    if vs.len() == 0 {
        0
    } else {
        count_populated(vs.drop_last()) + (if vs.last() is Some {
            1nat
        } else {
            0nat
        })
    }
}

/// The compact index record derived from a raw record: its identity, its
/// capture instant, and how many entries of the designated column are
/// populated.
#[derive(Debug)]
pub struct TroutStockingDataMetadata {
    pub key: String,
    pub timestamp: i64,
    pub num_stocked_locations: u32,
}

/// Every entry of the organized mapping has one value per table row.
pub proof fn lemma_organized_len(t: QueryTable, n: int, k: Seq<char>)
    requires
        0 <= n <= t.cols@.len(),
        organized_prefix(t, n).dom().contains(k),
    ensures
        organized_prefix(t, n)[k].len() == t.rows@.len(),
    decreases n,
{
    if n > 0 {
        if t.cols@[n - 1].label@.len() != 0 && k == t.cols@[n - 1].label@ {
        } else {
            lemma_organized_len(t, n - 1, k);
        }
    }
}

/// Whether the raw record's organized view carries the designated column.
pub open spec fn index_ok(rec: TroutStocking) -> bool {
    organized_data(rec.table).dom().contains(species_label())
}

/// The populated count the index reports for the record.
pub open spec fn index_count(rec: TroutStocking) -> nat {
    count_populated(organized_data(rec.table)[species_label()])
}

/// Derives the index record: the record's key and capture instant, and the
/// count of populated entries in the designated column of the organized
/// view. Fails with `ColumnMissing` when that column's label is absent.
pub fn index_trout_data(trout_data: &TroutStocking) -> (r: Result<
    TroutStockingDataMetadata,
    PipelineError,
>)
    requires
        table_wf(trout_data.table),
        trout_data.table.rows@.len() <= u32::MAX,
    ensures
        match r {
            Ok(m) => {
                &&& index_ok(*trout_data)
                &&& m.key == trout_data.key
                &&& m.timestamp == trout_data.timestamp.timestamp
                &&& m.num_stocked_locations == index_count(*trout_data)
            },
            Err(e) => e == PipelineError::ColumnMissing && !index_ok(*trout_data),
        },
{
    let organized = trout_data.organize();
    match organized.get_column(&"Species".to_owned()) {
        None => Err(PipelineError::ColumnMissing),
        Some(vals) => {
            let ghost col = organized_data(trout_data.table)[species_label()];
            proof {
                lemma_organized_len(
                    trout_data.table,
                    trout_data.table.cols@.len() as int,
                    species_label(),
                );
                assert(vals_view(vals@) == col);
            }
            let n = vals.len();
            let mut count: u32 = 0;
            for i in 0..n
                invariant
                    n == vals@.len(),
                    n <= u32::MAX,
                    col == vals_view(vals@),
                    col.len() == n,
                    count == count_populated(col.subrange(0, i as int)),
                    count <= i,
            {
                let ghost prefix = col.subrange(0, i as int);
                let present = match &vals[i] {
                    Some(_) => true,
                    None => false,
                };
                if present {
                    count = count + 1;
                }
                proof {
                    assert(col.subrange(0, i + 1).drop_last() =~= prefix);
                    assert(col.subrange(0, i + 1).last() == col[i as int]);
                    assert(col[i as int] is Some <==> present);
                }
            }
            proof {
                assert(col.subrange(0, n as int) =~= col);
            }
            Ok(
                TroutStockingDataMetadata {
                    key: organized.key,
                    timestamp: trout_data.timestamp.timestamp,
                    num_stocked_locations: count,
                },
            )
        },
    }
}

/// The largest number of records one store query may return; reaching it
/// means the result may have been cut short, which callers must report.
pub const MAX_QUERY_LIMIT: u32 = 65535;

/// Whether a queried batch filled the query bound, so that records may
/// have been left out.
pub fn batch_at_query_limit(n: usize) -> (r: bool)
    ensures
        r == (n as int == MAX_QUERY_LIMIT as int),
{
    n == MAX_QUERY_LIMIT as usize
}

/// Indexes every record of a batch independently: one record's missing
/// column yields `ColumnMissing` for that record alone, and every other
/// record still gets its index entry.
pub fn reindex_records(records: &Vec<TroutStocking>) -> (r: Vec<
    Result<TroutStockingDataMetadata, PipelineError>,
>)
    requires
        forall|i: int|
            0 <= i < records@.len() ==> table_wf((#[trigger] records@[i]).table)
                && records@[i].table.rows@.len() <= u32::MAX,
    ensures
        r@.len() == records@.len(),
        forall|i: int|
            0 <= i < records@.len() ==> match #[trigger] r@[i] {
                Ok(m) => {
                    &&& index_ok(records@[i])
                    &&& m.key == records@[i].key
                    &&& m.timestamp == records@[i].timestamp.timestamp
                    &&& m.num_stocked_locations == index_count(records@[i])
                },
                Err(e) => e == PipelineError::ColumnMissing && !index_ok(records@[i]),
            },
{
    let mut out: Vec<Result<TroutStockingDataMetadata, PipelineError>> = Vec::new();
    let n = records.len();
    for i in 0..n
        invariant
            n == records@.len(),
            out@.len() == i,
            forall|t: int|
                0 <= t < n ==> table_wf((#[trigger] records@[t]).table)
                    && records@[t].table.rows@.len() <= u32::MAX,
            forall|t: int|
                0 <= t < i ==> match #[trigger] out@[t] {
                    Ok(m) => {
                        &&& index_ok(records@[t])
                        &&& m.key == records@[t].key
                        &&& m.timestamp == records@[t].timestamp.timestamp
                        &&& m.num_stocked_locations == index_count(records@[t])
                    },
                    Err(e) => e == PipelineError::ColumnMissing && !index_ok(records@[t]),
                },
    {
        out.push(index_trout_data(&records[i]));
    }
    out
}

} // verus!
