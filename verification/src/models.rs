use vstd::prelude::*;

use chrono::{Datelike, Timelike};

verus! {

/// A single optionally-present cell value.
#[derive(Debug)]
pub struct DataValue {
    pub v: Option<String>,
}

/// One row of the table: one optional cell per declared column.
#[derive(Debug)]
pub struct Row {
    pub c: Vec<Option<DataValue>>,
}

/// One column declaration. An empty `label` marks a column that the
/// organized view leaves out.
#[derive(Debug)]
pub struct Column {
    pub id: String,
    pub label: String,
    pub data_type: String,
}

/// The structural form of the fetched spreadsheet response.
#[derive(Debug)]
pub struct QueryTable {
    pub cols: Vec<Column>,
    pub rows: Vec<Row>,
    pub parsed_num_headers: u32,
}

/// Point-in-time value with decomposed calendar fields.
#[derive(Debug)]
pub struct Timestamp {
    pub datetime: String,
    pub timestamp: i64,
    pub year: i32,
    pub month: u32,
    pub day: u32,
    pub hour: u32,
    pub min: u32,
    pub sec: u32,
}

impl Clone for Timestamp {
    fn clone(&self) -> (res: Timestamp)
        ensures
            res == *self,
    {
        Timestamp {
            datetime: self.datetime.clone(),
            timestamp: self.timestamp,
            year: self.year,
            month: self.month,
            day: self.day,
            hour: self.hour,
            min: self.min,
            sec: self.sec,
        }
    }
}

/// The raw persisted record: one successful fetch-and-parse capture.
#[derive(Debug)]
pub struct TroutStocking {
    pub key: String,
    pub version: String,
    pub req_id: String,
    pub status: String,
    pub sig: String,
    pub table: QueryTable,
    pub timestamp: Timestamp,
}

/// The column-label-keyed reshaping of a raw record. `data` holds one entry
/// per non-empty column label, each an ordered sequence of optional values,
/// one per row.
#[derive(Debug)]
pub struct TroutStockingOrganized {
    pub key: String,
    pub version: String,
    pub req_id: String,
    pub status: String,
    pub sig: String,
    pub data: Vec<(String, Vec<Option<String>>)>,
    pub timestamp: Timestamp,
}

/// The value a cell contributes to the organized view: absent if the cell
/// itself is absent or carries no value.
pub open spec fn cell_view(c: Option<DataValue>) -> Option<Seq<char>> {
    match c {
        Some(dv) => match dv.v {
            Some(s) => Some(s@),
            None => None,
        },
        None => None,
    }
}

/// Structural invariant of a table: every row has one cell per column.
pub open spec fn table_wf(t: QueryTable) -> bool {
    forall|i: int| 0 <= i < t.rows@.len() ==> (#[trigger] t.rows@[i]).c@.len() == t.cols@.len()
}

/// The ordered value sequence of column `c`: row by row, the cell at `c`.
pub open spec fn col_values(t: QueryTable, c: int) -> Seq<Option<Seq<char>>> {
    Seq::new(t.rows@.len(), |i: int| cell_view(t.rows@[i].c@[c]))
}

/// The organized mapping restricted to the first `n` columns, built in
/// declared order: empty labels are skipped, a later column with the same
/// label overwrites an earlier one.
pub open spec fn organized_prefix(t: QueryTable, n: int) -> Map<Seq<char>, Seq<Option<Seq<char>>>>
    decreases n,
{
    if n <= 0 {
        Map::empty()
    } else {
        let m = organized_prefix(t, n - 1);
        if t.cols@[n - 1].label@.len() == 0 {
            m
        } else {
            m.insert(t.cols@[n - 1].label@, col_values(t, n - 1))
        }
    }
}

/// The organized mapping of the whole table.
pub open spec fn organized_data(t: QueryTable) -> Map<Seq<char>, Seq<Option<Seq<char>>>> {
    organized_prefix(t, t.cols@.len() as int)
}

/// The model of one stored value sequence.
pub open spec fn vals_view(v: Seq<Option<String>>) -> Seq<Option<Seq<char>>> {
    Seq::new(
        v.len(),
        |i: int|
            match v[i] {
                Some(s) => Some(s@),
                None => None,
            },
    )
}

/// The mapping that a label/values list represents; a later entry with the
/// same label wins.
pub open spec fn pairs_to_map(ps: Seq<(String, Vec<Option<String>>)>) -> Map<
    Seq<char>,
    Seq<Option<Seq<char>>>,
>
    decreases ps.len(),
{
    if ps.len() == 0 {
        Map::empty()
    } else {
        pairs_to_map(ps.drop_last()).insert(ps.last().0@, vals_view(ps.last().1@))
    }
}

/// No two entries carry the same label.
pub open spec fn unique_labels(ps: Seq<(String, Vec<Option<String>>)>) -> bool {
    forall|i: int, j: int|
        0 <= i < j < ps.len() ==> (#[trigger] ps[i]).0@ != (#[trigger] ps[j]).0@
}

pub proof fn lemma_pairs_push(ps: Seq<(String, Vec<Option<String>>)>, p: (String, Vec<Option<String>>))
    ensures
        pairs_to_map(ps.push(p)) == pairs_to_map(ps).insert(p.0@, vals_view(p.1@)),
{
    assert(ps.push(p).drop_last() =~= ps);
    assert(ps.push(p).last() == p);
}

pub proof fn lemma_pairs_update(
    ps: Seq<(String, Vec<Option<String>>)>,
    i: int,
    q: (String, Vec<Option<String>>),
)
    requires
        0 <= i < ps.len(),
        q.0@ == ps[i].0@,
        forall|j: int| 0 <= j < ps.len() && j != i ==> (#[trigger] ps[j]).0@ != ps[i].0@,
    ensures
        pairs_to_map(ps.update(i, q)) == pairs_to_map(ps).insert(q.0@, vals_view(q.1@)),
    decreases ps.len(),
{
    let qs = ps.update(i, q);
    if i == ps.len() - 1 {
        assert(qs.drop_last() =~= ps.drop_last());
        assert(qs.last() == q);
        assert(pairs_to_map(ps.drop_last()).insert(q.0@, vals_view(q.1@)) =~= pairs_to_map(
            ps,
        ).insert(q.0@, vals_view(q.1@)));
    } else {
        assert(forall|j: int|
            0 <= j < ps.drop_last().len() && j != i ==> (#[trigger] ps.drop_last()[j]).0@
                != ps.drop_last()[i].0@);
        lemma_pairs_update(ps.drop_last(), i, q);
        assert(qs.drop_last() =~= ps.drop_last().update(i, q));
        assert(ps.drop_last()[i] == ps[i]);
        assert(qs.last() == ps.last());
        assert(ps.last().0@ != ps[i].0@);
        assert(pairs_to_map(ps.drop_last()).insert(q.0@, vals_view(q.1@)).insert(
            ps.last().0@,
            vals_view(ps.last().1@),
        ) =~= pairs_to_map(ps.drop_last()).insert(ps.last().0@, vals_view(ps.last().1@)).insert(
            q.0@,
            vals_view(q.1@),
        ));
    }
}

/// The mapping's domain holds exactly the labels of the list.
pub proof fn lemma_pairs_dom(ps: Seq<(String, Vec<Option<String>>)>, k: Seq<char>)
    ensures
        pairs_to_map(ps).dom().contains(k) <==> exists|i: int|
            0 <= i < ps.len() && (#[trigger] ps[i]).0@ == k,
    decreases ps.len(),
{
    if ps.len() != 0 {
        lemma_pairs_dom(ps.drop_last(), k);
        if pairs_to_map(ps).dom().contains(k) {
            if k == ps.last().0@ {
                assert(ps[ps.len() - 1].0@ == k);
            } else {
                assert(pairs_to_map(ps.drop_last()).dom().contains(k));
                let i = choose|i: int|
                    0 <= i < ps.drop_last().len() && (#[trigger] ps.drop_last()[i]).0@ == k;
                assert(ps.drop_last()[i] == ps[i]);
                assert(ps[i].0@ == k);
            }
        }
        if exists|i: int| 0 <= i < ps.len() && (#[trigger] ps[i]).0@ == k {
            let i = choose|i: int| 0 <= i < ps.len() && (#[trigger] ps[i]).0@ == k;
            if i < ps.len() - 1 {
                assert(ps.drop_last()[i].0@ == k);
                assert(pairs_to_map(ps.drop_last()).dom().contains(k));
            }
        }
    }
}

/// With unique labels, the entry at the label's position gives the
/// mapping's value.
pub proof fn lemma_pairs_at(ps: Seq<(String, Vec<Option<String>>)>, i: int)
    requires
        unique_labels(ps),
        0 <= i < ps.len(),
    ensures
        pairs_to_map(ps)[ps[i].0@] == vals_view(ps[i].1@),
    decreases ps.len(),
{
    if i == ps.len() - 1 {
    } else {
        assert(unique_labels(ps.drop_last()));
        assert(ps.drop_last()[i] == ps[i]);
        lemma_pairs_at(ps.drop_last(), i);
        assert(ps.last().0@ != ps[i].0@);
    }
}

/// Writes a value sequence under a label: replaces the entry with that
/// label, or appends a new one. Labels stay unique.
fn put_label(
    data: &mut Vec<(String, Vec<Option<String>>)>,
    label: String,
    values: Vec<Option<String>>,
)
    requires
        unique_labels(old(data)@),
    ensures
        unique_labels(final(data)@),
        pairs_to_map(final(data)@) == pairs_to_map(old(data)@).insert(label@, vals_view(values@)),
{
    let n = data.len();
    for i in 0..n
        invariant
            n == data.len(),
            data@ == old(data)@,
            unique_labels(data@),
            forall|j: int| 0 <= j < i ==> (#[trigger] data@[j]).0@ != label@,
    {
        if data[i].0 == *&label {
            let ghost before = data@;
            data.set(i, (label, values));
            proof {
                lemma_pairs_update(before, i as int, (label, values));
                assert(unique_labels(data@));
            }
            return ;
        }
    }
    proof {
        lemma_pairs_push(data@, (label, values));
    }
    data.push((label, values));
    proof {
        assert(unique_labels(data@));
    }
}

impl TroutStocking {
    /// Reshapes the table into the label-keyed organized view: columns in
    /// declared order, empty labels skipped, a later duplicate label
    /// overwriting an earlier one; every envelope field copied unchanged.
    pub fn organize(&self) -> (r: TroutStockingOrganized)
        requires
            table_wf(self.table),
        ensures
            r.key == self.key,
            r.version == self.version,
            r.req_id == self.req_id,
            r.status == self.status,
            r.sig == self.sig,
            r.timestamp == self.timestamp,
            unique_labels(r.data@),
            pairs_to_map(r.data@) == organized_data(self.table),
    {
        let mut data: Vec<(String, Vec<Option<String>>)> = Vec::new();
        proof {
            assert(data@ =~= Seq::<(String, Vec<Option<String>>)>::empty());
        }
        let ncols = self.table.cols.len();
        let nrows = self.table.rows.len();
        for c in 0..ncols
            invariant
                ncols == self.table.cols@.len(),
                nrows == self.table.rows@.len(),
                table_wf(self.table),
                unique_labels(data@),
                pairs_to_map(data@) == organized_prefix(self.table, c as int),
        {
            if !self.table.cols[c].label.as_str().is_empty() {
                let mut values: Vec<Option<String>> = Vec::new();
                for i in 0..nrows
                    invariant
                        ncols == self.table.cols@.len(),
                        nrows == self.table.rows@.len(),
                        c < ncols,
                        table_wf(self.table),
                        values@.len() == i,
                        forall|k: int|
                            0 <= k < i ==> vals_view(values@)[k] == cell_view(
                                self.table.rows@[k].c@[c as int],
                            ),
                {
                    let cell: Option<String> = match &self.table.rows[i].c[c] {
                        Some(x) => match &x.v {
                            Some(s) => Some(s.clone()),
                            None => None,
                        },
                        None => None,
                    };
                    let ghost prev = values@;
                    values.push(cell);
                    proof {
                        assert(values@ == prev.push(cell));
                        assert(vals_view(values@)[i as int] == cell_view(
                            self.table.rows@[i as int].c@[c as int],
                        ));
                        assert forall|k: int| 0 <= k < i implies vals_view(values@)[k] == cell_view(
                            self.table.rows@[k].c@[c as int],
                        ) by {
                            assert(vals_view(prev)[k] == cell_view(
                                self.table.rows@[k].c@[c as int],
                            ));
                            assert(values@[k] == prev[k]);
                        }
                    }
                }
                proof {
                    assert(vals_view(values@) =~= col_values(self.table, c as int));
                }
                let label = self.table.cols[c].label.clone();
                put_label(&mut data, label, values);
            }
        }
        TroutStockingOrganized {
            key: self.key.clone(),
            version: self.version.clone(),
            req_id: self.req_id.clone(),
            status: self.status.clone(),
            sig: self.sig.clone(),
            data,
            timestamp: self.timestamp.clone(),
        }
    }
}

/// `c` carries the last occurrence of its label among the first `n` columns.
pub open spec fn label_last_at(t: QueryTable, c: int, n: int) -> bool {
    forall|c2: int| c < c2 < n ==> (#[trigger] t.cols@[c2]).label@ != t.cols@[c].label@
}

pub proof fn lemma_organized_prefix_at(t: QueryTable, c: int, n: int)
    requires
        0 <= c < n <= t.cols@.len(),
        t.cols@[c].label@.len() != 0,
        label_last_at(t, c, n),
    ensures
        organized_prefix(t, n).dom().contains(t.cols@[c].label@),
        organized_prefix(t, n)[t.cols@[c].label@] == col_values(t, c),
    decreases n,
{
    if n - 1 > c {
        lemma_organized_prefix_at(t, c, n - 1);
        assert(t.cols@[n - 1].label@ != t.cols@[c].label@);
    }
}

pub proof fn lemma_organized_prefix_dom(t: QueryTable, n: int, k: Seq<char>)
    requires
        0 <= n <= t.cols@.len(),
    ensures
        organized_prefix(t, n).dom().contains(k) <==> (k.len() != 0 && exists|c: int|
            0 <= c < n && (#[trigger] t.cols@[c]).label@ == k),
    decreases n,
{
    if n > 0 {
        lemma_organized_prefix_dom(t, n - 1, k);
        if organized_prefix(t, n).dom().contains(k) {
            if t.cols@[n - 1].label@.len() != 0 && k == t.cols@[n - 1].label@ {
                assert(t.cols@[n - 1].label@ == k);
            } else {
                let c = choose|c: int| 0 <= c < n - 1 && (#[trigger] t.cols@[c]).label@ == k;
                assert(t.cols@[c].label@ == k);
            }
        }
        if k.len() != 0 && exists|c: int| 0 <= c < n && (#[trigger] t.cols@[c]).label@ == k {
            let c = choose|c: int| 0 <= c < n && (#[trigger] t.cols@[c]).label@ == k;
            if c < n - 1 {
                assert(organized_prefix(t, n - 1).dom().contains(k));
            }
        }
    }
}

/// Round-trip shape, one column: a non-empty label taken from the last
/// column that carries it is a key of the organized mapping, its entry has
/// one value per row, and entry `i` is row `i`'s cell in that column.
pub proof fn lemma_organize_shape(t: QueryTable, c: int)
    requires
        table_wf(t),
        0 <= c < t.cols@.len(),
        t.cols@[c].label@.len() != 0,
        label_last_at(t, c, t.cols@.len() as int),
    ensures
        organized_data(t).dom().contains(t.cols@[c].label@),
        organized_data(t)[t.cols@[c].label@].len() == t.rows@.len(),
        forall|i: int|
            0 <= i < t.rows@.len() ==> organized_data(t)[t.cols@[c].label@][i] == cell_view(
                t.rows@[i].c@[c],
            ),
{
    lemma_organized_prefix_at(t, c, t.cols@.len() as int);
}

/// Round-trip shape, domain: the organized mapping's keys are exactly the
/// non-empty column labels.
pub proof fn lemma_organize_dom(t: QueryTable, k: Seq<char>)
    ensures
        organized_data(t).dom().contains(k) <==> (k.len() != 0 && exists|c: int|
            0 <= c < t.cols@.len() && (#[trigger] t.cols@[c]).label@ == k),
{
    lemma_organized_prefix_dom(t, t.cols@.len() as int, k);
}

impl TroutStockingOrganized {
    /// The value sequence stored under `label`, if any.
    pub fn get_column<'a>(&'a self, label: &String) -> (r: Option<&'a Vec<Option<String>>>)
        requires
            unique_labels(self.data@),
        ensures
            match r {
                Some(v) => pairs_to_map(self.data@).dom().contains(label@) && pairs_to_map(
                    self.data@,
                )[label@] == vals_view(v@),
                None => !pairs_to_map(self.data@).dom().contains(label@),
            },
    {
        let n = self.data.len();
        for i in 0..n
            invariant
                n == self.data@.len(),
                unique_labels(self.data@),
                forall|j: int| 0 <= j < i ==> (#[trigger] self.data@[j]).0@ != label@,
        {
            if self.data[i].0 == *label {
                proof {
                    lemma_pairs_at(self.data@, i as int);
                    lemma_pairs_dom(self.data@, label@);
                    assert(self.data@[i as int].0@ == label@);
                }
                return Some(&self.data[i].1);
            }
        }
        proof {
            lemma_pairs_dom(self.data@, label@);
        }
        None
    }
}

/// Whether two columns that the organized view keeps share a label.
pub open spec fn duplicate_labels(t: QueryTable) -> bool {
    exists|c1: int, c2: int|
        0 <= c1 < c2 < t.cols@.len() && (#[trigger] t.cols@[c1]).label@ == (
        #[trigger] t.cols@[c2]).label@ && t.cols@[c2].label@.len() != 0
}

/// Detects a duplicate non-empty column label, where `organize` silently
/// lets the later column win.
pub fn has_duplicate_labels(t: &QueryTable) -> (r: bool)
    ensures
        r == duplicate_labels(*t),
{
    let n = t.cols.len();
    for c2 in 0..n
        invariant
            n == t.cols@.len(),
            forall|i: int, j: int|
                0 <= i < j < c2 ==> !((#[trigger] t.cols@[i]).label@ == (
                #[trigger] t.cols@[j]).label@ && t.cols@[j].label@.len() != 0),
    {
        if !t.cols[c2].label.as_str().is_empty() {
            for c1 in 0..c2
                invariant
                    n == t.cols@.len(),
                    c2 < n,
                    t.cols@[c2 as int].label@.len() != 0,
                    forall|i: int, j: int|
                        0 <= i < j < c2 ==> !((#[trigger] t.cols@[i]).label@ == (
                        #[trigger] t.cols@[j]).label@ && t.cols@[j].label@.len() != 0),
                    forall|i: int|
                        0 <= i < c1 ==> (#[trigger] t.cols@[i]).label@ != t.cols@[c2 as int].label@,
            {
                if t.cols[c1].label == t.cols[c2].label {
                    return true;
                }
            }
        }
    }
    false
}

impl Timestamp {
    /// The current instant, decomposed into consistent calendar fields.
    /// Relies on chrono's `Utc::now`, `timestamp`, `to_string` and the
    /// `Datelike`/`Timelike` accessors; the result depends on the clock,
    /// so nothing is promised of it.
    #[verifier::external_body]
    pub fn now() -> Timestamp {
        let utc: chrono::DateTime<chrono::Utc> = chrono::Utc::now();
        Timestamp {
            datetime: utc.to_string(),
            timestamp: utc.timestamp(),
            year: utc.year(),
            month: utc.month(),
            day: utc.day(),
            hour: utc.hour(),
            min: utc.minute(),
            sec: utc.second(),
        }
    }
}

/// The epoch seconds that chrono reads from a rendered timestamp, if the
/// text parses as a UTC datetime.
pub uninterp spec fn epoch_of_datetime(s: Seq<char>) -> Option<int>;

/// Relies on chrono: `str::parse::<DateTime<Utc>>` followed by
/// `DateTime::timestamp` is a function of the text alone.
#[verifier::external_body]
pub(crate) fn parse_datetime_epoch(s: &str) -> (r: Option<i64>)
    ensures
        match r {
            Some(e) => epoch_of_datetime(s@) == Some(e as int),
            None => epoch_of_datetime(s@) is None,
        },
{
    s.parse::<chrono::DateTime<chrono::Utc>>().ok().map(|d| d.timestamp())
}

} // verus!
