use trout_scraping::errors::PipelineError;
use trout_scraping::indexing::{batch_at_query_limit, index_trout_data, reindex_records};
use trout_scraping::json::{json_eq, merge, obj_get, JsonValue};
use trout_scraping::migration::{
    add_timestamp_field_to_timestamp_data, execute_data_migration_steps, migrate_entries,
    MigrateOutcome,
};
use trout_scraping::models::{
    has_duplicate_labels, Column, DataValue, QueryTable, Row, Timestamp, TroutStocking,
};
use trout_scraping::scraping::{find_spreadsheet_url, parse_trout_stocking_spreadsheet_data};
use trout_scraping::trigger::{parse_trigger_id, DetaBase, DetaTriggerId};

fn s(x: &str) -> String {
    x.to_string()
}

fn sample_timestamp() -> Timestamp {
    Timestamp {
        datetime: s("2014-11-28T12:00:09Z"),
        timestamp: 1417176009,
        year: 2014,
        month: 11,
        day: 28,
        hour: 12,
        min: 0,
        sec: 9,
    }
}

fn col(id: &str, label: &str) -> Column {
    Column {
        id: s(id),
        label: s(label),
        data_type: s("string"),
    }
}

fn cell(v: Option<&str>) -> Option<DataValue> {
    Some(DataValue { v: v.map(s) })
}

fn record_with_table(cols: Vec<Column>, rows: Vec<Row>) -> TroutStocking {
    TroutStocking {
        key: s("key-1"),
        version: s("0.6"),
        req_id: s("0"),
        status: s("ok"),
        sig: s("sig-1"),
        table: QueryTable {
            cols,
            rows,
            parsed_num_headers: 1,
        },
        timestamp: sample_timestamp(),
    }
}

#[test]
fn organize_shapes_and_values() {
    let rec = record_with_table(
        vec![col("A", "Date"), col("B", ""), col("C", "Species")],
        vec![
            Row {
                c: vec![cell(Some("1/1")), cell(Some("hidden")), cell(Some("Trout"))],
            },
            Row {
                c: vec![cell(None), None, cell(Some("Bass"))],
            },
        ],
    );
    let organized = rec.organize();
    assert_eq!(organized.data.len(), 2);
    let dates = organized.get_column(&s("Date")).expect("Date column");
    assert_eq!(dates, &vec![Some(s("1/1")), None]);
    let species = organized.get_column(&s("Species")).expect("Species column");
    assert_eq!(species, &vec![Some(s("Trout")), Some(s("Bass"))]);
    assert!(organized.get_column(&s("")).is_none());
    assert!(organized.get_column(&s("hidden")).is_none());
}

#[test]
fn organize_preserves_envelope_fields() {
    let rec = record_with_table(vec![col("A", "Species")], vec![]);
    let organized = rec.organize();
    assert_eq!(organized.key, "key-1");
    assert_eq!(organized.version, "0.6");
    assert_eq!(organized.req_id, "0");
    assert_eq!(organized.status, "ok");
    assert_eq!(organized.sig, "sig-1");
    assert_eq!(organized.timestamp.timestamp, 1417176009);
    assert_eq!(organized.timestamp.datetime, "2014-11-28T12:00:09Z");
}

#[test]
fn organize_duplicate_label_last_wins() {
    let rec = record_with_table(
        vec![col("A", "Species"), col("B", "Species")],
        vec![Row {
            c: vec![cell(Some("first")), cell(Some("second"))],
        }],
    );
    assert!(has_duplicate_labels(&rec.table));
    let organized = rec.organize();
    assert_eq!(organized.data.len(), 1);
    let vals = organized.get_column(&s("Species")).expect("Species column");
    assert_eq!(vals, &vec![Some(s("second"))]);

    let unique = record_with_table(vec![col("A", "Date"), col("B", "Species")], vec![]);
    assert!(!has_duplicate_labels(&unique.table));
}

#[test]
fn organize_empty_table() {
    let rec = record_with_table(vec![col("A", "Species")], vec![]);
    let organized = rec.organize();
    let vals = organized.get_column(&s("Species")).expect("Species column");
    assert!(vals.is_empty());
}

fn jobj(fields: Vec<(&str, JsonValue)>) -> JsonValue {
    JsonValue::Obj(fields.into_iter().map(|(k, v)| (s(k), v)).collect())
}

fn sample_persisted_record(with_epoch: bool, datetime: &str) -> JsonValue {
    let mut ts_fields = vec![("datetime", JsonValue::Str(s(datetime)))];
    if with_epoch {
        ts_fields.push(("timestamp", JsonValue::Int(1417176009)));
    }
    ts_fields.extend(vec![
        ("year", JsonValue::Int(2014)),
        ("month", JsonValue::Int(11)),
        ("day", JsonValue::Int(28)),
        ("hour", JsonValue::Int(12)),
        ("min", JsonValue::Int(0)),
        ("sec", JsonValue::Int(9)),
    ]);
    jobj(vec![
        ("key", JsonValue::Str(s("key-1"))),
        ("version", JsonValue::Str(s("0.6"))),
        ("req_id", JsonValue::Str(s("0"))),
        ("status", JsonValue::Str(s("ok"))),
        ("sig", JsonValue::Str(s("sig-1"))),
        (
            "table",
            jobj(vec![
                (
                    "cols",
                    JsonValue::Arr(vec![jobj(vec![
                        ("id", JsonValue::Str(s("A"))),
                        ("label", JsonValue::Str(s("Species"))),
                        ("type", JsonValue::Str(s("string"))),
                    ])]),
                ),
                (
                    "rows",
                    JsonValue::Arr(vec![jobj(vec![(
                        "c",
                        JsonValue::Arr(vec![jobj(vec![("v", JsonValue::Str(s("Trout")))])]),
                    )])]),
                ),
                ("parsedNumHeaders", JsonValue::Int(1)),
            ]),
        ),
        ("timestamp", jobj(ts_fields)),
    ])
}

fn stored_epoch_of(record: &JsonValue) -> Option<i64> {
    let fields = match record {
        JsonValue::Obj(fields) => fields,
        _ => return None,
    };
    let ts_fields = match obj_get(fields, &s("timestamp")) {
        Some(JsonValue::Obj(ts_fields)) => ts_fields,
        _ => return None,
    };
    match obj_get(ts_fields, &s("timestamp")) {
        Some(JsonValue::Int(e)) => Some(*e),
        _ => None,
    }
}

#[test]
fn migration_backfills_epoch() {
    let mut record = sample_persisted_record(false, "2014-11-28T12:00:09Z");
    assert_eq!(stored_epoch_of(&record), None);
    let changed = add_timestamp_field_to_timestamp_data(&mut record).expect("migration");
    assert!(changed);
    assert_eq!(stored_epoch_of(&record), Some(1417176009));
}

#[test]
fn migration_idempotent() {
    let mut once = sample_persisted_record(false, "2014-11-28T12:00:09Z");
    assert!(execute_data_migration_steps(&mut once).expect("first run"));

    let mut twice = sample_persisted_record(false, "2014-11-28T12:00:09Z");
    assert!(execute_data_migration_steps(&mut twice).expect("first run"));
    let changed_again = execute_data_migration_steps(&mut twice).expect("second run");
    assert!(!changed_again);
    assert!(json_eq(&once, &twice));
}

#[test]
fn migration_skips_record_with_epoch() {
    let mut record = sample_persisted_record(true, "2014-11-28T12:00:09Z");
    let untouched = sample_persisted_record(true, "2014-11-28T12:00:09Z");
    let changed = add_timestamp_field_to_timestamp_data(&mut record).expect("migration");
    assert!(!changed);
    assert!(json_eq(&record, &untouched));
}

#[test]
fn migration_unparsable_datetime() {
    let mut record = sample_persisted_record(false, "not a datetime");
    let untouched = sample_persisted_record(false, "not a datetime");
    let err = add_timestamp_field_to_timestamp_data(&mut record).unwrap_err();
    assert_eq!(err, PipelineError::TimestampUnparsable);
    assert!(json_eq(&record, &untouched));
}

#[test]
fn migration_missing_timestamp_object() {
    let mut record = jobj(vec![("key", JsonValue::Str(s("key-1")))]);
    let err = add_timestamp_field_to_timestamp_data(&mut record).unwrap_err();
    assert_eq!(err, PipelineError::TimestampUnparsable);
}

#[test]
fn migration_batch_isolation() {
    let entries = vec![
        sample_persisted_record(false, "2014-11-28T12:00:09Z"),
        sample_persisted_record(true, "2014-11-28T12:00:09Z"),
        sample_persisted_record(false, "not a datetime"),
    ];
    let outcomes = migrate_entries(entries);
    assert_eq!(outcomes.len(), 3);
    match &outcomes[0] {
        MigrateOutcome::Changed(rec) => {
            assert_eq!(rec.key, "key-1");
            assert_eq!(rec.timestamp.timestamp, 1417176009);
        }
        other => panic!("expected a changed record, got {:?}", discriminant_name(other)),
    }
    assert!(matches!(outcomes[1], MigrateOutcome::Unchanged));
    assert!(matches!(
        outcomes[2],
        MigrateOutcome::Failed(PipelineError::TimestampUnparsable)
    ));
}

fn discriminant_name(o: &MigrateOutcome) -> &'static str {
    match o {
        MigrateOutcome::Unchanged => "unchanged",
        MigrateOutcome::Changed(_) => "changed",
        MigrateOutcome::Failed(_) => "failed",
    }
}

#[test]
fn merge_writes_and_appends_fields() {
    let base = jobj(vec![("a", JsonValue::Int(1)), ("b", JsonValue::Int(2))]);
    let merged = merge(
        base,
        vec![(s("b"), JsonValue::Int(20)), (s("c"), JsonValue::Int(3))],
    );
    let expected = jobj(vec![
        ("a", JsonValue::Int(1)),
        ("b", JsonValue::Int(20)),
        ("c", JsonValue::Int(3)),
    ]);
    assert!(json_eq(&merged, &expected));
}

#[test]
fn merge_leaves_non_object_alone() {
    let merged = merge(JsonValue::Int(7), vec![(s("a"), JsonValue::Int(1))]);
    assert!(json_eq(&merged, &JsonValue::Int(7)));
}

const SAMPLE_PAYLOAD: &str = "google.visualization.Query.setResponse({\"version\":\"0.6\",\"reqId\":\"0\",\"status\":\"ok\",\"sig\":\"sig-1\",\"table\":{\"cols\":[{\"id\":\"A\",\"label\":\"Date\",\"type\":\"string\"},{\"id\":\"B\",\"label\":\"\",\"type\":\"string\"},{\"id\":\"C\",\"label\":\"Species\",\"type\":\"string\"}],\"rows\":[{\"c\":[{\"v\":\"1/1\"},null,{\"v\":\"Trout\"}]},{\"c\":[{\"v\":\"1/2\"},{\"v\":\"x\"},null]}],\"parsedNumHeaders\":1}});";

#[test]
fn envelope_parse_extracts_payload() {
    let rec = parse_trout_stocking_spreadsheet_data(SAMPLE_PAYLOAD).expect("parse");
    assert_eq!(rec.version, "0.6");
    assert_eq!(rec.req_id, "0");
    assert_eq!(rec.status, "ok");
    assert_eq!(rec.sig, "sig-1");
    assert!(!rec.key.is_empty());
    let organized = rec.organize();
    assert_eq!(organized.data.len(), 2);
    let species = organized.get_column(&s("Species")).expect("Species column");
    assert_eq!(species, &vec![Some(s("Trout")), None]);
}

#[test]
fn envelope_prefix_found_after_leading_text() {
    let payload = format!("preamble text {}", SAMPLE_PAYLOAD);
    let rec = parse_trout_stocking_spreadsheet_data(&payload).expect("parse");
    assert_eq!(rec.version, "0.6");
}

#[test]
fn header_count_accepts_either_spelling() {
    let payload = "google.visualization.Query.setResponse({\"version\":\"0.6\",\"reqId\":\"0\",\"status\":\"ok\",\"sig\":\"s\",\"table\":{\"cols\":[{\"id\":\"A\",\"label\":\"Species\",\"data_type\":\"string\"}],\"rows\":[{\"c\":[{\"v\":\"Trout\"}]}],\"parsed_num_headers\":2}});";
    let rec = parse_trout_stocking_spreadsheet_data(payload).expect("parse");
    assert_eq!(rec.table.parsed_num_headers, 2);
    assert_eq!(rec.table.cols[0].data_type, "string");
}

#[test]
fn envelope_missing_suffix_is_malformed() {
    let payload = "google.visualization.Query.setResponse({\"version\":\"0.6\"})";
    let err = parse_trout_stocking_spreadsheet_data(payload).unwrap_err();
    assert_eq!(err, PipelineError::EnvelopeMalformed);
}

#[test]
fn envelope_missing_prefix_is_malformed() {
    let err = parse_trout_stocking_spreadsheet_data("{\"version\":\"0.6\"});").unwrap_err();
    assert_eq!(err, PipelineError::EnvelopeMalformed);
}

#[test]
fn envelope_bad_json_is_schema_mismatch() {
    let payload = "google.visualization.Query.setResponse(not json at all);";
    let err = parse_trout_stocking_spreadsheet_data(payload).unwrap_err();
    assert_eq!(err, PipelineError::SchemaMismatch);
}

#[test]
fn envelope_missing_table_is_schema_mismatch() {
    let payload =
        "google.visualization.Query.setResponse({\"version\":\"0.6\",\"reqId\":\"0\",\"status\":\"ok\",\"sig\":\"s\"});";
    let err = parse_trout_stocking_spreadsheet_data(payload).unwrap_err();
    assert_eq!(err, PipelineError::SchemaMismatch);
}

#[test]
fn envelope_row_arity_mismatch_is_schema_mismatch() {
    let payload = "google.visualization.Query.setResponse({\"version\":\"0.6\",\"reqId\":\"0\",\"status\":\"ok\",\"sig\":\"s\",\"table\":{\"cols\":[{\"id\":\"A\",\"label\":\"Species\",\"type\":\"string\"}],\"rows\":[{\"c\":[null,null]}],\"parsedNumHeaders\":1}});";
    let err = parse_trout_stocking_spreadsheet_data(payload).unwrap_err();
    assert_eq!(err, PipelineError::SchemaMismatch);
}

#[test]
fn parse_keeps_source_key_through_derivations() {
    let payload = "google.visualization.Query.setResponse({\"key\":\"stable-key\",\"version\":\"0.6\",\"req_id\":\"7\",\"status\":\"ok\",\"sig\":\"s\",\"table\":{\"cols\":[{\"id\":\"A\",\"label\":\"Species\",\"type\":\"string\"}],\"rows\":[{\"c\":[{\"v\":\"Trout\"}]}],\"parsedNumHeaders\":1},\"timestamp\":{\"datetime\":\"2014-11-28T12:00:09Z\",\"timestamp\":1417176009,\"year\":2014,\"month\":11,\"day\":28,\"hour\":12,\"min\":0,\"sec\":9}});";
    let rec = parse_trout_stocking_spreadsheet_data(payload).expect("parse");
    assert_eq!(rec.key, "stable-key");
    assert_eq!(rec.req_id, "7");
    assert_eq!(rec.timestamp.timestamp, 1417176009);
    let organized = rec.organize();
    assert_eq!(organized.key, "stable-key");
    let metadata = index_trout_data(&rec).expect("index");
    assert_eq!(metadata.key, "stable-key");
    assert_eq!(metadata.timestamp, 1417176009);
}

#[test]
fn index_counts_populated_entries() {
    let rec = record_with_table(
        vec![col("A", "Species")],
        vec![
            Row { c: vec![cell(Some("A"))] },
            Row { c: vec![cell(None)] },
            Row { c: vec![cell(Some("B"))] },
            Row { c: vec![None] },
            Row { c: vec![cell(None)] },
        ],
    );
    let metadata = index_trout_data(&rec).expect("index");
    assert_eq!(metadata.num_stocked_locations, 2);
    assert_eq!(metadata.key, "key-1");
    assert_eq!(metadata.timestamp, 1417176009);
}

#[test]
fn index_zero_count_is_meaningful() {
    let rec = record_with_table(vec![col("A", "Species")], vec![]);
    let metadata = index_trout_data(&rec).expect("index");
    assert_eq!(metadata.num_stocked_locations, 0);
}

#[test]
fn index_missing_column_is_reported() {
    let rec = record_with_table(vec![col("A", "Date")], vec![]);
    let err = index_trout_data(&rec).unwrap_err();
    assert_eq!(err, PipelineError::ColumnMissing);
}

#[test]
fn reindex_batch_isolation() {
    let good = |key: &str| {
        let mut rec = record_with_table(
            vec![col("A", "Species")],
            vec![Row { c: vec![cell(Some("Trout"))] }],
        );
        rec.key = s(key);
        rec
    };
    let mut bad = record_with_table(vec![col("A", "Date")], vec![Row { c: vec![cell(None)] }]);
    bad.key = s("bad");
    let records = vec![good("first"), bad, good("third")];
    let outcomes = reindex_records(&records);
    assert_eq!(outcomes.len(), 3);
    assert_eq!(outcomes[0].as_ref().expect("first").key, "first");
    assert_eq!(
        outcomes[1].as_ref().unwrap_err(),
        &PipelineError::ColumnMissing
    );
    assert_eq!(outcomes[2].as_ref().expect("third").key, "third");
    assert_eq!(outcomes[0].as_ref().expect("first").num_stocked_locations, 1);
}

#[test]
fn find_url_between_marker_and_quote() {
    let page = "<html>stuff google.visualization.Query('https://example.com/q'); more</html>";
    let url = find_spreadsheet_url(page).expect("url");
    assert_eq!(url, "https://example.com/q");
}

#[test]
fn find_url_missing_marker() {
    let err = find_spreadsheet_url("<html>no marker here</html>").unwrap_err();
    assert_eq!(err, PipelineError::SourceNotFound);
}

#[test]
fn find_url_missing_terminator() {
    let err =
        find_spreadsheet_url("x google.visualization.Query('https://example.com").unwrap_err();
    assert_eq!(err, PipelineError::SourceNotFound);
}

#[test]
fn trigger_identifiers() {
    assert!(matches!(
        parse_trigger_id("scrape-new-data"),
        Ok(DetaTriggerId::ScrapeNewData)
    ));
    assert!(matches!(
        parse_trigger_id("reindex-data"),
        Ok(DetaTriggerId::ReindexData)
    ));
    assert!(matches!(
        parse_trigger_id("detabase-migration"),
        Ok(DetaTriggerId::DetaBaseMigration)
    ));
    assert_eq!(
        parse_trigger_id("unknown-trigger").unwrap_err(),
        PipelineError::SchemaMismatch
    );
}

#[test]
fn store_names() {
    assert_eq!(DetaBase::TroutStockingRaw.as_str(), "trout-stocking-raw");
    assert_eq!(DetaBase::TroutStocking.as_str(), "trout-stocking");
    assert_eq!(DetaBase::TroutStockingIndex.as_str(), "trout-stocking-index");
}

#[test]
fn query_limit_detection() {
    assert!(batch_at_query_limit(65535));
    assert!(!batch_at_query_limit(65534));
    assert!(!batch_at_query_limit(0));
}

#[test]
fn error_descriptions() {
    assert_eq!(PipelineError::TransportError.as_str(), "transport error");
    assert_eq!(PipelineError::ColumnMissing.as_str(), "column missing");
}
