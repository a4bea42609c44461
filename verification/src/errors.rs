use vstd::prelude::*;

verus! {

/// The failure kinds the pipeline reports. Every external call returns one
/// of these instead of aborting the process.
#[derive(Clone, Copy, PartialEq, Eq, Debug)]
pub enum PipelineError {
    /// Network or HTTP failure; the caller may retry.
    TransportError,
    /// The host page holds no query-endpoint marker, or no terminator.
    SourceNotFound,
    /// The response lacks the fixed envelope around the payload.
    EnvelopeMalformed,
    /// The payload is not JSON of the expected shape.
    SchemaMismatch,
    /// The designated column is absent from the organized view.
    ColumnMissing,
    /// A persisted record's stored display text does not parse as a time.
    TimestampUnparsable,
    /// The store refused a write.
    StoreWriteError,
    /// The store refused a query.
    StoreQueryError,
}

pub open spec fn error_name(e: PipelineError) -> Seq<char> {
    match e {
        PipelineError::TransportError => "transport error"@,
        PipelineError::SourceNotFound => "source not found"@,
        PipelineError::EnvelopeMalformed => "envelope malformed"@,
        PipelineError::SchemaMismatch => "schema mismatch"@,
        PipelineError::ColumnMissing => "column missing"@,
        PipelineError::TimestampUnparsable => "timestamp unparsable"@,
        PipelineError::StoreWriteError => "store write error"@,
        PipelineError::StoreQueryError => "store query error"@,
    }
}

impl PipelineError {
    /// A short fixed description, for callers that report failures.
    pub fn as_str(&self) -> (r: &'static str)
        ensures
            r@ == error_name(*self),
    {
        match self {
            PipelineError::TransportError => "transport error",
            PipelineError::SourceNotFound => "source not found",
            PipelineError::EnvelopeMalformed => "envelope malformed",
            PipelineError::SchemaMismatch => "schema mismatch",
            PipelineError::ColumnMissing => "column missing",
            PipelineError::TimestampUnparsable => "timestamp unparsable",
            PipelineError::StoreWriteError => "store write error",
            PipelineError::StoreQueryError => "store query error",
        }
    }
}

} // verus!
