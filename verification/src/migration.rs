use vstd::prelude::*;

use crate::errors::PipelineError;
use crate::json::{
    fields_view, json_view, lemma_lookup_after_update, lemma_obj_update_at, lemma_obj_view, merge,
    merge_fields, merge_spec, obj_find, obj_get, obj_lookup, obj_update, Json, JsonValue,
};
use crate::models::{epoch_of_datetime, parse_datetime_epoch, table_wf, Timestamp, TroutStocking};
use crate::records::{record_matches, record_of_json, record_shape_ok};

verus! {

/// The persisted record's timestamp object, if it has one.
pub open spec fn ts_obj_of(j: Json) -> Option<Seq<(Seq<char>, Json)>> {
    match j {
        Json::Obj(fs) => match obj_lookup(fs, "timestamp"@) {
            Some(Json::Obj(ts)) => Some(ts),
            _ => None,
        },
        _ => None,
    }
}

/// The record already carries the numeric epoch subfield: the backfill has
/// nothing to do.
pub open spec fn already_migrated(j: Json) -> bool {
    match ts_obj_of(j) {
        Some(ts) => obj_lookup(ts, "timestamp"@) is Some,
        None => false,
    }
}

/// The epoch seconds the stored display text parses to, where it does.
pub open spec fn stored_epoch(j: Json) -> Option<int> {
    match ts_obj_of(j) {
        Some(ts) => match obj_lookup(ts, "datetime"@) {
            Some(Json::Str(s)) => epoch_of_datetime(s),
            _ => None,
        },
        None => None,
    }
}

/// The numeric subfield is absent and the stored display text parses: the
/// backfill applies.
pub open spec fn migratable(j: Json) -> bool {
    match ts_obj_of(j) {
        Some(ts) => obj_lookup(ts, "timestamp"@) is None && stored_epoch(j) is Some,
        None => false,
    }
}

/// The record after the backfill: the parsed epoch seconds written as the
/// timestamp object's `timestamp` field, everything else untouched.
pub open spec fn backfilled(j: Json) -> Json
    recommends
        migratable(j),
{
    match j {
        Json::Obj(fs) => match obj_lookup(fs, "timestamp"@) {
            Some(Json::Obj(ts)) => Json::Obj(
                obj_update(
                    fs,
                    "timestamp"@,
                    Json::Obj(
                        obj_update(ts, "timestamp"@, Json::Int(stored_epoch(j).unwrap())),
                    ),
                ),
            ),
            _ => j,
        },
        _ => j,
    }
}

/// Idempotent migration: a record the backfill just changed carries the
/// numeric subfield, so a second pass reports no change and leaves the
/// record exactly as it is.
pub proof fn lemma_migration_idempotent(j: Json)
    requires
        migratable(j),
    ensures
        already_migrated(backfilled(j)),
{
    match j {
        Json::Obj(fs) => match obj_lookup(fs, "timestamp"@) {
            Some(ts_j) => match ts_j {
                Json::Obj(ts) => {
                    let new_ts = Json::Obj(
                        obj_update(ts, "timestamp"@, Json::Int(stored_epoch(j).unwrap())),
                    );
                    lemma_lookup_after_update(fs, "timestamp"@, new_ts);
                    lemma_lookup_after_update(ts, "timestamp"@, Json::Int(stored_epoch(j).unwrap()));
                },
                _ => {},
            },
            _ => {},
        },
        _ => {},
    }
}

/// Backfills the timestamp object of a persisted record in place. Reports
/// whether anything changed: a record that already carries the numeric
/// subfield is returned unchanged, one whose display text does not parse
/// (or that has no timestamp object at all) fails with
/// `TimestampUnparsable` and is also left unchanged.
pub fn add_timestamp_field_to_timestamp_data(data: &mut JsonValue) -> (r: Result<
    bool,
    PipelineError,
>)
    ensures
        match r {
            Ok(changed) => {
                &&& changed == !already_migrated(json_view(*old(data)))
                &&& (changed ==> migratable(json_view(*old(data))) && json_view(*final(data))
                    == backfilled(json_view(*old(data))))
                &&& (!changed ==> json_view(*final(data)) == json_view(*old(data)))
            },
            Err(e) => {
                &&& e == PipelineError::TimestampUnparsable
                &&& !already_migrated(json_view(*old(data)))
                &&& !migratable(json_view(*old(data)))
                &&& json_view(*final(data)) == json_view(*old(data))
            },
        },
{
    let ghost j0 = json_view(*old(data));
    match data {
        JsonValue::Obj(fields) => {
            proof {
                lemma_obj_view(*fields);
                assert(j0 == Json::Obj(fields_view(fields@)));
            }
            let ti = match obj_find(fields, &"timestamp".to_owned()) {
                Some(i) => i,
                None => {
                    return Err(PipelineError::TimestampUnparsable);
                },
            };
            let epoch: i64;
            let ghost mut ts_v: Seq<(Seq<char>, Json)> = Seq::empty();
            match &fields[ti].1 {
                JsonValue::Obj(ts_fields) => {
                    proof {
                        lemma_obj_view(*ts_fields);
                        ts_v = fields_view(ts_fields@);
                        assert(json_view(fields@[ti as int].1) == Json::Obj(ts_v));
                    }
                    match obj_get(ts_fields, &"timestamp".to_owned()) {
                        Some(_) => {
                            return Ok(false);
                        },
                        None => {},
                    }
                    match obj_get(ts_fields, &"datetime".to_owned()) {
                        Some(dt) => match dt {
                            JsonValue::Str(s) => {
                                match parse_datetime_epoch(s.as_str()) {
                                    Some(e) => {
                                        epoch = e;
                                        proof {
                                            assert(obj_lookup(ts_v, "datetime"@) == Some(
                                                Json::Str(s@),
                                            ));
                                            assert(epoch_of_datetime(s@) == Some(epoch as int));
                                            assert(obj_lookup(ts_v, "timestamp"@) is None);
                                            assert(stored_epoch(j0) == Some(epoch as int));
                                            assert(migratable(j0));
                                        }
                                    },
                                    None => {
                                        return Err(PipelineError::TimestampUnparsable);
                                    },
                                }
                            },
                            _ => {
                                return Err(PipelineError::TimestampUnparsable);
                            },
                        },
                        None => {
                            return Err(PipelineError::TimestampUnparsable);
                        },
                    }
                },
                _ => {
                    return Err(PipelineError::TimestampUnparsable);
                },
            }
            let ghost before = fields@;
            let pair = fields.remove(ti);
            let (kname, tsval) = pair;
            let mut adds: Vec<(String, JsonValue)> = Vec::new();
            adds.push(("timestamp".to_owned(), JsonValue::Int(epoch)));
            let ghost adds_v = fields_view(adds@);
            let new_ts = merge(tsval, adds);
            proof {
                assert(json_view(new_ts) == merge_spec(json_view(tsval), adds_v));
                assert(json_view(tsval) == Json::Obj(ts_v));
                assert(json_view(new_ts) == Json::Obj(
                    obj_update(ts_v, "timestamp"@, Json::Int(epoch as int)),
                )) by {
                    reveal_with_fuel(merge_fields, 3);
                    assert(adds_v =~= seq![("timestamp"@, Json::Int(epoch as int))]);
                    assert(adds_v[0] == ("timestamp"@, Json::Int(epoch as int)));
                    assert(adds_v.drop_first() =~= Seq::<(Seq<char>, Json)>::empty());
                    assert(json_view(tsval) == Json::Obj(ts_v));
                    assert(merge_fields(ts_v, adds_v) == merge_fields(
                        obj_update(ts_v, "timestamp"@, Json::Int(epoch as int)),
                        adds_v.drop_first(),
                    ));
                }
            }
            fields.insert(ti, (kname, new_ts));
            proof {
                assert(fields@ =~= before.update(ti as int, (before[ti as int].0, new_ts)));
                lemma_obj_update_at(fields_view(before), json_view(new_ts), ti as int);
                assert(fields_view(fields@) =~= fields_view(before).update(
                    ti as int,
                    (before[ti as int].0@, json_view(new_ts)),
                ));
                assert(fields_view(fields@) =~= obj_update(
                    fields_view(before),
                    "timestamp"@,
                    json_view(new_ts),
                ));
                lemma_obj_view(*fields);
                assert(backfilled(j0) == Json::Obj(
                    obj_update(
                        fields_view(before),
                        "timestamp"@,
                        Json::Obj(obj_update(ts_v, "timestamp"@, Json::Int(epoch as int))),
                    ),
                ));
                assert(json_view(*data) == Json::Obj(fields_view(fields@)));
                assert(json_view(*data) == backfilled(j0));
            }
            Ok(true)
        },
        _ => Err(PipelineError::TimestampUnparsable),
    }
}

/// The single migration step applied to a persisted record. More steps
/// would chain here, each reporting whether it changed the record.
pub fn execute_data_migration_steps(entry: &mut JsonValue) -> (r: Result<bool, PipelineError>)
    ensures
        match r {
            Ok(changed) => {
                &&& changed == !already_migrated(json_view(*old(entry)))
                &&& (changed ==> migratable(json_view(*old(entry))) && json_view(*final(entry))
                    == backfilled(json_view(*old(entry))))
                &&& (!changed ==> json_view(*final(entry)) == json_view(*old(entry)))
            },
            Err(e) => {
                &&& e == PipelineError::TimestampUnparsable
                &&& !already_migrated(json_view(*old(entry)))
                &&& !migratable(json_view(*old(entry)))
                &&& json_view(*final(entry)) == json_view(*old(entry))
            },
        },
{
    add_timestamp_field_to_timestamp_data(entry)
}

/// A record the migration step changed revalidates into the strict shape
/// under some parse-time defaults.
pub open spec fn validated_from(rec: TroutStocking, j: Json) -> bool {
    exists|dk: Seq<char>, dts: Timestamp| #[trigger] record_matches(rec, j, dk, dts)
}

/// One record's outcome in a migration batch.
pub enum MigrateOutcome {
    /// The record already carries the backfilled field; nothing to persist.
    Unchanged,
    /// The backfill changed the record, which revalidated into this strict
    /// form; its raw, organized and index records are re-persisted.
    Changed(TroutStocking),
    /// This record failed, without stopping the rest of the batch.
    Failed(PipelineError),
}

/// Runs the migration step over every entry of a queried batch
/// independently; a changed entry is revalidated into the strict record
/// shape, and one entry's failure leaves every other outcome intact.
pub fn migrate_entries(entries: Vec<JsonValue>) -> (r: Vec<MigrateOutcome>)
    ensures
        r@.len() == entries@.len(),
        forall|i: int|
            0 <= i < entries@.len() ==> match #[trigger] r@[i] {
                MigrateOutcome::Unchanged => already_migrated(json_view(entries@[i])),
                MigrateOutcome::Changed(rec) => {
                    &&& migratable(json_view(entries@[i]))
                    &&& record_shape_ok(backfilled(json_view(entries@[i])))
                    &&& validated_from(rec, backfilled(json_view(entries@[i])))
                    &&& table_wf(rec.table)
                },
                MigrateOutcome::Failed(e) => {
                    ||| (e == PipelineError::TimestampUnparsable && !already_migrated(
                        json_view(entries@[i]),
                    ) && !migratable(json_view(entries@[i])))
                    ||| (e == PipelineError::SchemaMismatch && migratable(json_view(entries@[i]))
                        && !record_shape_ok(backfilled(json_view(entries@[i]))))
                },
            },
{
    let ghost entries0 = entries@;
    let mut rest = entries;
    let mut out: Vec<MigrateOutcome> = Vec::new();
    while rest.len() > 0
        invariant
            out@.len() + rest@.len() == entries0.len(),
            forall|t: int|
                0 <= t < rest@.len() ==> json_view(#[trigger] rest@[t]) == json_view(
                    entries0[out@.len() + t],
                ),
            forall|i: int|
                0 <= i < out@.len() ==> match #[trigger] out@[i] {
                    MigrateOutcome::Unchanged => already_migrated(json_view(entries0[i])),
                    MigrateOutcome::Changed(rec) => {
                        &&& migratable(json_view(entries0[i]))
                        &&& record_shape_ok(backfilled(json_view(entries0[i])))
                        &&& validated_from(rec, backfilled(json_view(entries0[i])))
                        &&& table_wf(rec.table)
                    },
                    MigrateOutcome::Failed(e) => {
                        ||| (e == PipelineError::TimestampUnparsable && !already_migrated(
                            json_view(entries0[i]),
                        ) && !migratable(json_view(entries0[i])))
                        ||| (e == PipelineError::SchemaMismatch && migratable(
                            json_view(entries0[i]),
                        ) && !record_shape_ok(backfilled(json_view(entries0[i]))))
                    },
                },
        decreases rest@.len(),
    {
        let ghost pos = out@.len();
        let mut entry = rest.remove(0);
        let ghost jv = json_view(entry);
        proof {
            assert(jv == json_view(entries0[pos as int]));
        }
        match execute_data_migration_steps(&mut entry) {
            Ok(false) => {
                out.push(MigrateOutcome::Unchanged);
            },
            Ok(true) => {
                let default_ts = Timestamp::now();
                match record_of_json(&entry, crate::scraping::fresh_key(), default_ts) {
                    Ok(rec) => {
                        proof {
                            assert(validated_from(rec, backfilled(jv)));
                        }
                        out.push(MigrateOutcome::Changed(rec));
                    },
                    Err(e) => {
                        out.push(MigrateOutcome::Failed(e));
                    },
                }
            },
            Err(e) => {
                out.push(MigrateOutcome::Failed(e));
            },
        }
    }
    out
}

} // verus!
