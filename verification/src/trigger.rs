use vstd::prelude::*;

use crate::errors::PipelineError;

verus! {

/// Names of the three logical stores that persisted records go to.
pub enum DetaBase {
    TroutStockingRaw,
    TroutStocking,
    TroutStockingIndex,
}

pub open spec fn base_name(b: DetaBase) -> Seq<char> {
    match b {
        DetaBase::TroutStockingRaw => "trout-stocking-raw"@,
        DetaBase::TroutStocking => "trout-stocking"@,
        DetaBase::TroutStockingIndex => "trout-stocking-index"@,
    }
}

impl DetaBase {
    /// The store's name on the wire.
    pub fn as_str(&self) -> (r: &'static str)
        ensures
            r@ == base_name(*self),
    {
        match self {
            DetaBase::TroutStockingRaw => "trout-stocking-raw",
            DetaBase::TroutStocking => "trout-stocking",
            DetaBase::TroutStockingIndex => "trout-stocking-index",
        }
    }
}

/// The three triggers an inbound action payload may carry.
#[derive(Debug)]
pub enum DetaTriggerId {
    /// Fetch, parse, and persist a fresh capture with its derivations.
    ScrapeNewData,
    /// Re-derive the index record of every stored raw record.
    ReindexData,
    /// Backfill stored raw records and re-persist the changed ones.
    DetaBaseMigration,
}

/// The trigger a payload identifier names, if any.
pub open spec fn trigger_id_of(s: Seq<char>) -> Option<DetaTriggerId> {
    if s == "scrape-new-data"@ {
        Some(DetaTriggerId::ScrapeNewData)
    } else if s == "reindex-data"@ {
        Some(DetaTriggerId::ReindexData)
    } else if s == "detabase-migration"@ {
        Some(DetaTriggerId::DetaBaseMigration)
    } else {
        None
    }
}

/// Reads a trigger identifier; an unrecognized one is a reportable
/// configuration error, not a crash.
pub fn parse_trigger_id(s: &str) -> (r: Result<DetaTriggerId, PipelineError>)
    ensures
        match r {
            Ok(t) => trigger_id_of(s@) == Some(t),
            Err(e) => e == PipelineError::SchemaMismatch && trigger_id_of(s@) is None,
        },
{
    let owned = s.to_owned();
    if owned == "scrape-new-data".to_owned() {
        Ok(DetaTriggerId::ScrapeNewData)
    } else if owned == "reindex-data".to_owned() {
        Ok(DetaTriggerId::ReindexData)
    } else if owned == "detabase-migration".to_owned() {
        Ok(DetaTriggerId::DetaBaseMigration)
    } else {
        Err(PipelineError::SchemaMismatch)
    }
}

} // verus!
