use vstd::prelude::*;

use crate::errors::PipelineError;
use crate::json::{fields_view, json_view, lemma_arr_view, lemma_obj_view, obj_get, obj_lookup, Json, JsonValue};
use crate::models::{Column, DataValue, QueryTable, Row, Timestamp, TroutStocking};

verus! {

/// The string value of a field, if the field is there and is a string.
pub open spec fn jstr_field(fs: Seq<(Seq<char>, Json)>, k: Seq<char>) -> Option<Seq<char>> {
    match obj_lookup(fs, k) {
        Some(Json::Str(s)) => Some(s),
        _ => None,
    }
}

/// The integer value of a field, if the field is there and is a number.
pub open spec fn jint_field(fs: Seq<(Seq<char>, Json)>, k: Seq<char>) -> Option<int> {
    match obj_lookup(fs, k) {
        Some(Json::Int(i)) => Some(i),
        _ => None,
    }
}

/// The request id, accepted under either spelling, `reqId` first.
pub open spec fn req_id_of(fs: Seq<(Seq<char>, Json)>) -> Option<Seq<char>> {
    match jstr_field(fs, "reqId"@) {
        Some(s) => Some(s),
        None => jstr_field(fs, "req_id"@),
    }
}

/// A column's declared type, accepted under either spelling, `type` first.
pub open spec fn col_type_of(fs: Seq<(Seq<char>, Json)>) -> Option<Seq<char>> {
    match jstr_field(fs, "type"@) {
        Some(s) => Some(s),
        None => jstr_field(fs, "data_type"@),
    }
}

/// The declared header count, accepted under either spelling.
pub open spec fn headers_of(fs: Seq<(Seq<char>, Json)>) -> Option<int> {
    match jint_field(fs, "parsedNumHeaders"@) {
        Some(v) => Some(v),
        None => jint_field(fs, "parsed_num_headers"@),
    }
}

/// A well-shaped cell: absent, or an object whose `v` field, if there, is
/// a string or null.
pub open spec fn cell_shape_ok(j: Json) -> bool {
    match j {
        Json::Null => true,
        Json::Obj(fs) => match obj_lookup(fs, "v"@) {
            None => true,
            Some(Json::Null) => true,
            Some(Json::Str(_)) => true,
            Some(_) => false,
        },
        _ => false,
    }
}

/// The parsed form of a well-shaped cell.
pub open spec fn cell_matches(c: Option<DataValue>, j: Json) -> bool {
    match j {
        Json::Null => c is None,
        Json::Obj(fs) => c matches Some(dv) && (match obj_lookup(fs, "v"@) {
            Some(Json::Str(s)) => dv.v matches Some(t) && t@ == s,
            _ => dv.v is None,
        }),
        _ => false,
    }
}

/// A well-shaped row: an object whose `c` field is an array of `width`
/// well-shaped cells, one per declared column.
pub open spec fn row_shape_ok(j: Json, width: int) -> bool {
    match j {
        Json::Obj(fs) => match obj_lookup(fs, "c"@) {
            Some(Json::Arr(cs)) => cs.len() == width && forall|k: int|
                0 <= k < cs.len() ==> cell_shape_ok(#[trigger] cs[k]),
            _ => false,
        },
        _ => false,
    }
}

/// The parsed form of a well-shaped row.
pub open spec fn row_matches(r: Row, j: Json) -> bool {
    match j {
        Json::Obj(fs) => match obj_lookup(fs, "c"@) {
            Some(Json::Arr(cs)) => r.c@.len() == cs.len() && forall|k: int|
                0 <= k < cs.len() ==> cell_matches(r.c@[k], #[trigger] cs[k]),
            _ => false,
        },
        _ => false,
    }
}

/// A well-shaped column declaration.
pub open spec fn col_shape_ok(j: Json) -> bool {
    match j {
        Json::Obj(fs) => jstr_field(fs, "id"@) is Some && jstr_field(fs, "label"@) is Some
            && col_type_of(fs) is Some,
        _ => false,
    }
}

/// The parsed form of a well-shaped column declaration.
pub open spec fn col_matches(c: Column, j: Json) -> bool {
    match j {
        Json::Obj(fs) => Some(c.id@) == jstr_field(fs, "id"@) && Some(c.label@) == jstr_field(
            fs,
            "label"@,
        ) && Some(c.data_type@) == col_type_of(fs),
        _ => false,
    }
}

/// A well-shaped timestamp object: every calendar field present, numeric
/// and in range for its machine type.
pub open spec fn ts_shape_ok(j: Json) -> bool {
    match j {
        Json::Obj(fs) => {
            &&& jstr_field(fs, "datetime"@) is Some
            &&& (match jint_field(fs, "timestamp"@) {
                Some(v) => i64::MIN <= v <= i64::MAX,
                None => false,
            })
            &&& (match jint_field(fs, "year"@) {
                Some(v) => i32::MIN <= v <= i32::MAX,
                None => false,
            })
            &&& (match jint_field(fs, "month"@) {
                Some(v) => 0 <= v <= u32::MAX,
                None => false,
            })
            &&& (match jint_field(fs, "day"@) {
                Some(v) => 0 <= v <= u32::MAX,
                None => false,
            })
            &&& (match jint_field(fs, "hour"@) {
                Some(v) => 0 <= v <= u32::MAX,
                None => false,
            })
            &&& (match jint_field(fs, "min"@) {
                Some(v) => 0 <= v <= u32::MAX,
                None => false,
            })
            &&& (match jint_field(fs, "sec"@) {
                Some(v) => 0 <= v <= u32::MAX,
                None => false,
            })
        },
        _ => false,
    }
}

/// The parsed form of a well-shaped timestamp object.
pub open spec fn ts_matches(t: Timestamp, j: Json) -> bool {
    match j {
        Json::Obj(fs) => {
            &&& Some(t.datetime@) == jstr_field(fs, "datetime"@)
            &&& Some(t.timestamp as int) == jint_field(fs, "timestamp"@)
            &&& Some(t.year as int) == jint_field(fs, "year"@)
            &&& Some(t.month as int) == jint_field(fs, "month"@)
            &&& Some(t.day as int) == jint_field(fs, "day"@)
            &&& Some(t.hour as int) == jint_field(fs, "hour"@)
            &&& Some(t.min as int) == jint_field(fs, "min"@)
            &&& Some(t.sec as int) == jint_field(fs, "sec"@)
        },
        _ => false,
    }
}

/// A well-shaped table: `cols` an array of well-shaped columns, `rows` an
/// array of rows each as wide as the column list, and a header count in
/// range.
/// Every column declaration in the list is well-shaped.
pub open spec fn cols_all_ok(cjs: Seq<Json>) -> bool {
    forall|k: int| 0 <= k < cjs.len() ==> col_shape_ok(#[trigger] cjs[k])
}

/// Every row in the list is well-shaped at the given width.
pub open spec fn rows_all_ok(rjs: Seq<Json>, width: int) -> bool {
    forall|k: int| 0 <= k < rjs.len() ==> row_shape_ok(#[trigger] rjs[k], width)
}

pub open spec fn table_shape_ok(j: Json) -> bool {
    match j {
        Json::Obj(fs) => {
            &&& (match obj_lookup(fs, "cols"@) {
                Some(Json::Arr(cjs)) => cols_all_ok(cjs),
                _ => false,
            })
            &&& (match (obj_lookup(fs, "cols"@), obj_lookup(fs, "rows"@)) {
                (Some(Json::Arr(cjs)), Some(Json::Arr(rjs))) => rows_all_ok(rjs, cjs.len() as int),
                _ => false,
            })
            &&& (match headers_of(fs) {
                Some(v) => 0 <= v <= u32::MAX,
                None => false,
            })
        },
        _ => false,
    }
}

/// The parsed form of a well-shaped table.
pub open spec fn table_matches(t: QueryTable, j: Json) -> bool {
    match j {
        Json::Obj(fs) => {
            &&& (match obj_lookup(fs, "cols"@) {
                Some(Json::Arr(cjs)) => t.cols@.len() == cjs.len() && forall|k: int|
                    0 <= k < cjs.len() ==> col_matches(t.cols@[k], #[trigger] cjs[k]),
                _ => false,
            })
            &&& (match obj_lookup(fs, "rows"@) {
                Some(Json::Arr(rjs)) => t.rows@.len() == rjs.len() && forall|k: int|
                    0 <= k < rjs.len() ==> row_matches(t.rows@[k], #[trigger] rjs[k]),
                _ => false,
            })
            &&& Some(t.parsed_num_headers as int) == headers_of(fs)
        },
        _ => false,
    }
}

/// A well-shaped record: every envelope field a string (`key` may be
/// absent), a well-shaped table, and a timestamp that is absent or
/// well-shaped.
pub open spec fn record_shape_ok(j: Json) -> bool {
    match j {
        Json::Obj(fs) => {
            &&& (match obj_lookup(fs, "key"@) {
                None => true,
                Some(Json::Str(_)) => true,
                Some(_) => false,
            })
            &&& jstr_field(fs, "version"@) is Some
            &&& req_id_of(fs) is Some
            &&& jstr_field(fs, "status"@) is Some
            &&& jstr_field(fs, "sig"@) is Some
            &&& (match obj_lookup(fs, "table"@) {
                Some(tj) => table_shape_ok(tj),
                None => false,
            })
            &&& (match obj_lookup(fs, "timestamp"@) {
                None => true,
                Some(tj) => ts_shape_ok(tj),
            })
        },
        _ => false,
    }
}

/// The parsed form of a well-shaped record: an absent `key` takes the
/// given default, an absent `timestamp` takes the given default.
pub open spec fn record_matches(rec: TroutStocking, j: Json, dk: Seq<char>, dts: Timestamp) -> bool {
    match j {
        Json::Obj(fs) => {
            &&& rec.key@ == (match obj_lookup(fs, "key"@) {
                Some(Json::Str(s)) => s,
                _ => dk,
            })
            &&& Some(rec.version@) == jstr_field(fs, "version"@)
            &&& Some(rec.req_id@) == req_id_of(fs)
            &&& Some(rec.status@) == jstr_field(fs, "status"@)
            &&& Some(rec.sig@) == jstr_field(fs, "sig"@)
            &&& (match obj_lookup(fs, "table"@) {
                Some(tj) => table_matches(rec.table, tj),
                None => false,
            })
            &&& (match obj_lookup(fs, "timestamp"@) {
                None => rec.timestamp == dts,
                Some(tj) => ts_matches(rec.timestamp, tj),
            })
        },
        _ => false,
    }
}

/// The string under `name`, if that field is there and is a string.
fn get_str_field(fields: &Vec<(String, JsonValue)>, name: &str) -> (r: Option<String>)
    ensures
        match r {
            Some(s) => jstr_field(fields_view(fields@), name@) == Some(s@),
            None => jstr_field(fields_view(fields@), name@) is None,
        },
{
    match obj_get(fields, &name.to_owned()) {
        Some(JsonValue::Str(s)) => Some(s.clone()),
        _ => None,
    }
}

/// The integer under `name`, if that field is there and is a number.
fn get_int_field(fields: &Vec<(String, JsonValue)>, name: &str) -> (r: Option<i64>)
    ensures
        match r {
            Some(v) => jint_field(fields_view(fields@), name@) == Some(v as int),
            None => jint_field(fields_view(fields@), name@) is None,
        },
{
    match obj_get(fields, &name.to_owned()) {
        Some(JsonValue::Int(v)) => Some(*v),
        _ => None,
    }
}

/// Reads one cell of a row.
fn parse_cell(j: &JsonValue) -> (r: Result<Option<DataValue>, PipelineError>)
    ensures
        match r {
            Ok(c) => cell_shape_ok(json_view(*j)) && cell_matches(c, json_view(*j)),
            Err(e) => e == PipelineError::SchemaMismatch && !cell_shape_ok(json_view(*j)),
        },
{
    match j {
        JsonValue::Null => Ok(None),
        JsonValue::Obj(fields) => {
            proof {
                lemma_obj_view(*fields);
            }
            match obj_get(fields, &"v".to_owned()) {
                None => Ok(Some(DataValue { v: None })),
                Some(JsonValue::Null) => Ok(Some(DataValue { v: None })),
                Some(JsonValue::Str(s)) => Ok(Some(DataValue { v: Some(s.clone()) })),
                Some(_) => Err(PipelineError::SchemaMismatch),
            }
        },
        _ => Err(PipelineError::SchemaMismatch),
    }
}

/// Reads one row and checks its arity against the declared column count.
fn parse_row(j: &JsonValue, width: usize) -> (r: Result<Row, PipelineError>)
    ensures
        match r {
            Ok(row) => row_shape_ok(json_view(*j), width as int) && row_matches(row, json_view(*j)),
            Err(e) => e == PipelineError::SchemaMismatch && !row_shape_ok(
                json_view(*j),
                width as int,
            ),
        },
{
    match j {
        JsonValue::Obj(fields) => {
            proof {
                lemma_obj_view(*fields);
            }
            match obj_get(fields, &"c".to_owned()) {
                Some(arr) => match arr {
                    JsonValue::Arr(items) => {
                        let ghost jv = json_view(*j);
                        let ghost cs = Seq::new(items@.len(), |t: int| json_view(items@[t]));
                        proof {
                            lemma_arr_view(*items);
                            assert(json_view(*arr) matches Json::Arr(vs) && vs =~= cs);
                        }
                        if items.len() != width {
                            return Err(PipelineError::SchemaMismatch);
                        }
                        let mut cells: Vec<Option<DataValue>> = Vec::new();
                        let n = items.len();
                        for k in 0..n
                            invariant
                                n == items@.len(),
                                width == n,
                                jv == json_view(*j),
                                jv matches Json::Obj(fs2) && obj_lookup(fs2, "c"@) == Some(
                                    Json::Arr(cs),
                                ),
                                cs.len() == n,
                                forall|t: int| 0 <= t < n ==> cs[t] == json_view(#[trigger] items@[t]),
                                cells@.len() == k,
                                forall|t: int|
                                    0 <= t < k ==> cell_shape_ok(json_view(#[trigger] items@[t]))
                                        && cell_matches(cells@[t], json_view(items@[t])),
                        {
                            match parse_cell(&items[k]) {
                                Ok(c) => cells.push(c),
                                Err(e) => {
                                    proof {
                                        assert(!cell_shape_ok(cs[k as int]));
                                    }
                                    return Err(e);
                                },
                            }
                        }
                        Ok(Row { c: cells })
                    },
                    _ => Err(PipelineError::SchemaMismatch),
                },
                None => Err(PipelineError::SchemaMismatch),
            }
        },
        _ => Err(PipelineError::SchemaMismatch),
    }
}

/// Reads one column declaration.
fn parse_column(j: &JsonValue) -> (r: Result<Column, PipelineError>)
    ensures
        match r {
            Ok(col) => col_shape_ok(json_view(*j)) && col_matches(col, json_view(*j)),
            Err(e) => e == PipelineError::SchemaMismatch && !col_shape_ok(json_view(*j)),
        },
{
    match j {
        JsonValue::Obj(fields) => {
            proof {
                lemma_obj_view(*fields);
            }
            let id = match get_str_field(fields, "id") {
                Some(s) => s,
                None => {
                    return Err(PipelineError::SchemaMismatch);
                },
            };
            let label = match get_str_field(fields, "label") {
                Some(s) => s,
                None => {
                    return Err(PipelineError::SchemaMismatch);
                },
            };
            let data_type = match get_str_field(fields, "type") {
                Some(s) => s,
                None => match get_str_field(fields, "data_type") {
                    Some(s) => s,
                    None => {
                        return Err(PipelineError::SchemaMismatch);
                    },
                },
            };
            Ok(Column { id, label, data_type })
        },
        _ => Err(PipelineError::SchemaMismatch),
    }
}

/// Reads a timestamp object, checking each numeric field's range.
fn parse_timestamp(j: &JsonValue) -> (r: Result<Timestamp, PipelineError>)
    ensures
        match r {
            Ok(t) => ts_shape_ok(json_view(*j)) && ts_matches(t, json_view(*j)),
            Err(e) => e == PipelineError::SchemaMismatch && !ts_shape_ok(json_view(*j)),
        },
{
    match j {
        JsonValue::Obj(fields) => {
            proof {
                lemma_obj_view(*fields);
            }
            let datetime = match get_str_field(fields, "datetime") {
                Some(s) => s,
                None => {
                    return Err(PipelineError::SchemaMismatch);
                },
            };
            let timestamp = match get_int_field(fields, "timestamp") {
                Some(v) => v,
                None => {
                    return Err(PipelineError::SchemaMismatch);
                },
            };
            let year_raw = match get_int_field(fields, "year") {
                Some(v) => v,
                None => {
                    return Err(PipelineError::SchemaMismatch);
                },
            };
            if year_raw < i32::MIN as i64 || year_raw > i32::MAX as i64 {
                return Err(PipelineError::SchemaMismatch);
            }
            let month = match read_u32_field(fields, "month") {
                Ok(v) => v,
                Err(e) => {
                    return Err(e);
                },
            };
            let day = match read_u32_field(fields, "day") {
                Ok(v) => v,
                Err(e) => {
                    return Err(e);
                },
            };
            let hour = match read_u32_field(fields, "hour") {
                Ok(v) => v,
                Err(e) => {
                    return Err(e);
                },
            };
            let min = match read_u32_field(fields, "min") {
                Ok(v) => v,
                Err(e) => {
                    return Err(e);
                },
            };
            let sec = match read_u32_field(fields, "sec") {
                Ok(v) => v,
                Err(e) => {
                    return Err(e);
                },
            };
            Ok(
                Timestamp {
                    datetime,
                    timestamp,
                    year: year_raw as i32,
                    month,
                    day,
                    hour,
                    min,
                    sec,
                },
            )
        },
        _ => Err(PipelineError::SchemaMismatch),
    }
}

/// Reads a whole table, checking every row's arity against the declared
/// column count.
fn parse_table(j: &JsonValue) -> (r: Result<QueryTable, PipelineError>)
    ensures
        match r {
            Ok(t) => table_shape_ok(json_view(*j)) && table_matches(t, json_view(*j))
                && crate::models::table_wf(t),
            Err(e) => e == PipelineError::SchemaMismatch && !table_shape_ok(json_view(*j)),
        },
{
    match j {
        JsonValue::Obj(fields) => {
            let ghost jv = json_view(*j);
            proof {
                lemma_obj_view(*fields);
            }
            let cols_items = match obj_get(fields, &"cols".to_owned()) {
                Some(v) => match v {
                    JsonValue::Arr(items) => items,
                    _ => {
                        return Err(PipelineError::SchemaMismatch);
                    },
                },
                None => {
                    return Err(PipelineError::SchemaMismatch);
                },
            };
            let ghost ccs = Seq::new(cols_items@.len(), |t: int| json_view(cols_items@[t]));
            proof {
                lemma_arr_view(*cols_items);
                assert(json_view(JsonValue::Arr(*cols_items)) matches Json::Arr(vs) && vs =~= ccs);
            }
            let rows_items = match obj_get(fields, &"rows".to_owned()) {
                Some(v) => match v {
                    JsonValue::Arr(items) => items,
                    _ => {
                        return Err(PipelineError::SchemaMismatch);
                    },
                },
                None => {
                    return Err(PipelineError::SchemaMismatch);
                },
            };
            let ghost rcs = Seq::new(rows_items@.len(), |t: int| json_view(rows_items@[t]));
            proof {
                lemma_arr_view(*rows_items);
                assert(json_view(JsonValue::Arr(*rows_items)) matches Json::Arr(vs) && vs =~= rcs);
            }
            let mut cols: Vec<Column> = Vec::new();
            let ncols = cols_items.len();
            for k in 0..ncols
                invariant
                    ncols == cols_items@.len(),
                    jv == json_view(*j),
                    jv matches Json::Obj(fs2) && obj_lookup(fs2, "cols"@) == Some(Json::Arr(ccs)),
                    ccs.len() == ncols,
                    forall|t: int|
                        0 <= t < ncols ==> ccs[t] == json_view(#[trigger] cols_items@[t]),
                    cols@.len() == k,
                    forall|t: int|
                        0 <= t < k ==> col_shape_ok(#[trigger] ccs[t]) && col_matches(
                            cols@[t],
                            ccs[t],
                        ),
            {
                match parse_column(&cols_items[k]) {
                    Ok(c) => cols.push(c),
                    Err(e) => {
                        proof {
                            assert(!col_shape_ok(ccs[k as int]));
                            assert(!cols_all_ok(ccs));
                        }
                        return Err(e);
                    },
                }
            }
            let mut rows: Vec<Row> = Vec::new();
            let nrows = rows_items.len();
            for k in 0..nrows
                invariant
                    nrows == rows_items@.len(),
                    ncols == cols@.len(),
                    ncols == ccs.len(),
                    jv == json_view(*j),
                    jv matches Json::Obj(fs2) && obj_lookup(fs2, "rows"@) == Some(Json::Arr(rcs))
                        && obj_lookup(fs2, "cols"@) == Some(Json::Arr(ccs)),
                    rcs.len() == nrows,
                    forall|t: int|
                        0 <= t < nrows ==> rcs[t] == json_view(#[trigger] rows_items@[t]),
                    rows@.len() == k,
                    forall|t: int|
                        0 <= t < k ==> row_shape_ok(#[trigger] rcs[t], ncols as int) && row_matches(
                            rows@[t],
                            rcs[t],
                        ),
            {
                match parse_row(&rows_items[k], cols.len()) {
                    Ok(row) => rows.push(row),
                    Err(e) => {
                        proof {
                            assert(!row_shape_ok(rcs[k as int], ncols as int));
                            assert(!rows_all_ok(rcs, ncols as int));
                        }
                        return Err(e);
                    },
                }
            }
            let pnh_raw = match get_int_field(fields, "parsedNumHeaders") {
                Some(v) => Some(v),
                None => get_int_field(fields, "parsed_num_headers"),
            };
            let pnh = match pnh_raw {
                Some(v) => v,
                None => {
                    return Err(PipelineError::SchemaMismatch);
                },
            };
            if pnh < 0 || pnh > u32::MAX as i64 {
                return Err(PipelineError::SchemaMismatch);
            }
            let t = QueryTable { cols, rows, parsed_num_headers: pnh as u32 };
            proof {
                assert forall|i: int|
                    0 <= i < t.rows@.len() implies (#[trigger] t.rows@[i]).c@.len()
                    == t.cols@.len() by {
                    assert(row_shape_ok(rcs[i], ncols as int));
                    assert(row_matches(t.rows@[i], rcs[i]));
                }
            }
            Ok(t)
        },
        _ => Err(PipelineError::SchemaMismatch),
    }
}

/// Validates a generic value into the strict record shape: an absent `key`
/// takes `default_key`, an absent `timestamp` takes `default_ts`; anything
/// else out of shape is a schema mismatch.
pub fn record_of_json(j: &JsonValue, default_key: String, default_ts: Timestamp) -> (r: Result<
    TroutStocking,
    PipelineError,
>)
    ensures
        match r {
            Ok(rec) => record_shape_ok(json_view(*j)) && record_matches(
                rec,
                json_view(*j),
                default_key@,
                default_ts,
            ) && crate::models::table_wf(rec.table),
            Err(e) => e == PipelineError::SchemaMismatch && !record_shape_ok(json_view(*j)),
        },
{
    match j {
        JsonValue::Obj(fields) => {
            proof {
                lemma_obj_view(*fields);
            }
            let key = match obj_get(fields, &"key".to_owned()) {
                None => default_key,
                Some(v) => match v {
                    JsonValue::Str(s) => s.clone(),
                    _ => {
                        return Err(PipelineError::SchemaMismatch);
                    },
                },
            };
            let version = match get_str_field(fields, "version") {
                Some(s) => s,
                None => {
                    return Err(PipelineError::SchemaMismatch);
                },
            };
            let req_id = match get_str_field(fields, "reqId") {
                Some(s) => s,
                None => match get_str_field(fields, "req_id") {
                    Some(s) => s,
                    None => {
                        return Err(PipelineError::SchemaMismatch);
                    },
                },
            };
            let status = match get_str_field(fields, "status") {
                Some(s) => s,
                None => {
                    return Err(PipelineError::SchemaMismatch);
                },
            };
            let sig = match get_str_field(fields, "sig") {
                Some(s) => s,
                None => {
                    return Err(PipelineError::SchemaMismatch);
                },
            };
            let table = match obj_get(fields, &"table".to_owned()) {
                Some(tj) => match parse_table(tj) {
                    Ok(t) => t,
                    Err(e) => {
                        return Err(e);
                    },
                },
                None => {
                    return Err(PipelineError::SchemaMismatch);
                },
            };
            let timestamp = match obj_get(fields, &"timestamp".to_owned()) {
                None => default_ts,
                Some(tj) => match parse_timestamp(tj) {
                    Ok(t) => t,
                    Err(e) => {
                        return Err(e);
                    },
                },
            };
            Ok(TroutStocking { key, version, req_id, status, sig, table, timestamp })
        },
        _ => Err(PipelineError::SchemaMismatch),
    }
}

/// Reads a numeric field that must fit an unsigned 32-bit value.
fn read_u32_field(fields: &Vec<(String, JsonValue)>, name: &str) -> (r: Result<
    u32,
    PipelineError,
>)
    ensures
        match r {
            Ok(v) => jint_field(fields_view(fields@), name@) == Some(v as int),
            Err(e) => e == PipelineError::SchemaMismatch && !(match jint_field(
                fields_view(fields@),
                name@,
            ) {
                Some(v) => 0 <= v <= u32::MAX,
                None => false,
            }),
        },
{
    match get_int_field(fields, name) {
        Some(v) => {
            if v < 0 || v > u32::MAX as i64 {
                Err(PipelineError::SchemaMismatch)
            } else {
                Ok(v as u32)
            }
        },
        None => Err(PipelineError::SchemaMismatch),
    }
}

} // verus!
