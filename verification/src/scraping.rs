use vstd::prelude::*;

use vstd::string::StrSliceExecFns;

use crate::errors::PipelineError;
use crate::json::{json_of, parse_json, Json};
use crate::models::{table_wf, Timestamp, TroutStocking};
use crate::records::{record_matches, record_of_json, record_shape_ok};

verus! {

/// The pattern stands at position `i` of `s`.
pub open spec fn matches_at(s: Seq<char>, i: int, pat: Seq<char>) -> bool {
    0 <= i && i + pat.len() <= s.len() && s.subrange(i, i + pat.len()) == pat
}

/// No occurrence of the pattern starts before position `i`.
pub open spec fn no_match_before(s: Seq<char>, pat: Seq<char>, i: int) -> bool {
    forall|j: int| 0 <= j < i ==> !matches_at(s, j, pat)
}

/// `i` is the first position where the pattern stands.
pub open spec fn found_first_at(s: Seq<char>, pat: Seq<char>, i: int) -> bool {
    matches_at(s, i, pat) && no_match_before(s, pat, i)
}

/// The first position of a pattern is unique.
pub proof fn lemma_found_first_unique(s: Seq<char>, pat: Seq<char>, i1: int, i2: int)
    requires
        found_first_at(s, pat, i1),
        found_first_at(s, pat, i2),
    ensures
        i1 == i2,
{
    if i1 < i2 {
        assert(!matches_at(s, i1, pat));
    }
    if i2 < i1 {
        assert(!matches_at(s, i2, pat));
    }
}

/// Whether the pattern stands at position `i`.
fn match_here(s: &str, pat: &str, i: usize) -> (r: bool)
    requires
        i + pat@.len() <= s@.len(),
    ensures
        r == matches_at(s@, i as int, pat@),
{
    let slen = s.unicode_len();
    let plen = pat.unicode_len();
    for k in 0..plen
        invariant
            slen == s@.len(),
            plen == pat@.len(),
            i + plen <= slen,
            forall|t: int| 0 <= t < k ==> s@[i + t] == pat@[t],
    {
        if s.get_char(i + k) != pat.get_char(k) {
            proof {
                let sub = s@.subrange(i as int, i as int + pat@.len() as int);
                assert(sub[k as int] == s@[i + k]);
            }
            return false;
        }
    }
    proof {
        assert(s@.subrange(i as int, i as int + pat@.len() as int) =~= pat@);
    }
    true
}

/// The first position at or after `from` where the pattern stands, if any.
fn find_sub(s: &str, pat: &str, from: usize) -> (r: Option<usize>)
    requires
        from <= s@.len(),
        1 <= pat@.len(),
    ensures
        match r {
            Some(i) => from <= i && matches_at(s@, i as int, pat@) && (forall|j: int|
                from <= j < i ==> !matches_at(s@, j, pat@)),
            None => forall|j: int| from <= j ==> !matches_at(s@, j, pat@),
        },
{
    let slen = s.unicode_len();
    let plen = pat.unicode_len();
    if plen > slen || from > slen - plen {
        return None;
    }
    let end = slen - plen;
    let mut i = from;
    while i <= end
        invariant
            slen == s@.len(),
            plen == pat@.len(),
            1 <= plen <= slen,
            end == slen - plen,
            from <= i <= end + 1,
            forall|j: int| from <= j < i ==> !matches_at(s@, j, pat@),
        decreases end + 1 - i,
    {
        if match_here(s, pat, i) {
            return Some(i);
        }
        i = i + 1;
    }
    None
}

/// The marker that precedes the query endpoint in the host page.
pub open spec fn source_marker() -> Seq<char> {
    "google.visualization.Query('"@
}

/// A single-quote pattern stands at `j` exactly when the character there
/// is a single quote.
proof fn lemma_single_quote(s: Seq<char>, j: int)
    requires
        0 <= j < s.len(),
    ensures
        matches_at(s, j, "'"@) <==> s[j] == '\'',
{
    reveal_strlit("'");
    if s[j] == '\'' {
        assert(s.subrange(j, j + 1) =~= "'"@);
    }
    if matches_at(s, j, "'"@) {
        assert(s.subrange(j, j + 1)[0] == s[j]);
    }
}

/// The marker occurs nowhere in the page.
pub open spec fn marker_absent(page: Seq<char>) -> bool {
    forall|i: int| !matches_at(page, i, source_marker())
}

/// The marker occurs, but no single quote follows it.
pub open spec fn quote_absent_after_marker(page: Seq<char>) -> bool {
    exists|i: int|
        #[trigger] found_first_at(page, source_marker(), i) && (forall|j: int|
            i + source_marker().len() <= j < page.len() ==> page[j] != '\'')
}

/// There is a quote position making `url` the extracted endpoint text for
/// the marker at `i`.
pub open spec fn url_found(page: Seq<char>, url: Seq<char>, i: int) -> bool {
    exists|j: int| #[trigger] url_extracted(page, url, i, j)
}

/// The text `url` is what stands between the first marker occurrence at
/// `i` and the next single quote, at `j`.
pub open spec fn url_extracted(page: Seq<char>, url: Seq<char>, i: int, j: int) -> bool {
    &&& found_first_at(page, source_marker(), i)
    &&& i + source_marker().len() <= j < page.len()
    &&& page[j] == '\''
    &&& (forall|j2: int| i + source_marker().len() <= j2 < j ==> page[j2] != '\'')
    &&& url == page.subrange(i + source_marker().len(), j)
}

/// Reads the quoted endpoint text that follows the marker found at `i`.
fn url_after_marker(page: &str, i: usize) -> (r: Result<String, PipelineError>)
    requires
        found_first_at(page@, source_marker(), i as int),
    ensures
        r is Ok ==> url_found(page@, r->Ok_0@, i as int),
        r is Err ==> r->Err_0 == PipelineError::SourceNotFound && quote_absent_after_marker(page@),
{
    let marker = "google.visualization.Query('";
    proof {
        reveal_strlit("google.visualization.Query('");
        reveal_strlit("'");
    }
    let mlen = marker.unicode_len();
    let slen = page.unicode_len();
    let start = i + mlen;
    match find_sub(page, "'", start) {
        None => {
            proof {
                assert forall|j: int|
                    i + source_marker().len() <= j < page@.len() implies page@[j] != '\'' by {
                    lemma_single_quote(page@, j);
                }
                assert(quote_absent_after_marker(page@));
            }
            Err(PipelineError::SourceNotFound)
        },
        Some(j) => {
            proof {
                lemma_single_quote(page@, j as int);
                assert(page@[j as int] == '\'');
                assert forall|j2: int|
                    i + source_marker().len() <= j2 < j implies page@[j2] != '\'' by {
                    lemma_single_quote(page@, j2);
                }
            }
            let url = page.substring_char(start, j).to_owned();
            proof {
                assert(url_found(page@, url@, i as int)) by {
                    assert(url_extracted(page@, url@, i as int, j as int));
                }
            }
            Ok(url)
        },
    }
}

/// Extracts the query endpoint embedded in the host page: the text between
/// the fixed marker and the next single quote. Fails with `SourceNotFound`
/// when the marker or the terminating quote is absent.
pub fn find_spreadsheet_url(page: &str) -> (r: Result<String, PipelineError>)
    ensures
        match r {
            Ok(url) => exists|i: int| #[trigger] url_found(page@, url@, i),
            Err(e) => e == PipelineError::SourceNotFound && (marker_absent(page@)
                || quote_absent_after_marker(page@)),
        },
{
    let marker = "google.visualization.Query('";
    proof {
        reveal_strlit("google.visualization.Query('");
    }
    match find_sub(page, marker, 0) {
        None => {
            proof {
                assert(marker_absent(page@));
            }
            Err(PipelineError::SourceNotFound)
        },
        Some(i) => {
            proof {
                assert(found_first_at(page@, source_marker(), i as int));
            }
            url_after_marker(page, i)
        },
    }
}

/// The fixed envelope around the JSON payload.
pub open spec fn envelope_prefix() -> Seq<char> {
    "google.visualization.Query.setResponse("@
}

/// After the prefix found at `i` there is room for the `);` terminator,
/// and the text ends with it.
pub open spec fn envelope_suffix_ok(s: Seq<char>, i: int) -> bool {
    &&& i + envelope_prefix().len() + 2 <= s.len()
    &&& s[s.len() - 2] == ')'
    &&& s[s.len() - 1] == ';'
}

/// The JSON payload between the envelope markers.
pub open spec fn envelope_payload(s: Seq<char>, i: int) -> Seq<char> {
    s.subrange(i + envelope_prefix().len(), s.len() - 2)
}

/// Strips the fixed envelope: everything after the first prefix occurrence
/// and before the trailing `);`. Fails with `EnvelopeMalformed` when the
/// prefix or the terminator is absent.
pub fn strip_envelope(raw: &str) -> (r: Result<String, PipelineError>)
    ensures
        match r {
            Ok(inner) => exists|i: int|
                #[trigger] found_first_at(raw@, envelope_prefix(), i) && envelope_suffix_ok(
                    raw@,
                    i,
                ) && inner@ == envelope_payload(raw@, i),
            Err(e) => {
                &&& e == PipelineError::EnvelopeMalformed
                &&& (forall|i: int|
                    #[trigger] found_first_at(raw@, envelope_prefix(), i)
                        ==> !envelope_suffix_ok(raw@, i))
            },
        },
{
    let prefix = "google.visualization.Query.setResponse(";
    proof {
        reveal_strlit("google.visualization.Query.setResponse(");
    }
    let plen = prefix.unicode_len();
    match find_sub(raw, prefix, 0) {
        None => {
            proof {
                assert forall|i: int|
                    #[trigger] found_first_at(raw@, envelope_prefix(), i)
                        implies !envelope_suffix_ok(raw@, i) by {
                    assert(!matches_at(raw@, i, envelope_prefix()));
                }
            }
            Err(PipelineError::EnvelopeMalformed)
        },
        Some(i) => {
            let slen = raw.unicode_len();
            let start = i + plen;
            proof {
                assert(found_first_at(raw@, envelope_prefix(), i as int));
                assert forall|i2: int|
                    #[trigger] found_first_at(raw@, envelope_prefix(), i2) implies i2
                    == i as int by {
                    lemma_found_first_unique(raw@, envelope_prefix(), i as int, i2);
                }
            }
            if slen - start < 2 {
                return Err(PipelineError::EnvelopeMalformed);
            }
            if s_char_ne(raw, slen - 2, ')') || s_char_ne(raw, slen - 1, ';') {
                return Err(PipelineError::EnvelopeMalformed);
            }
            let inner = raw.substring_char(start, slen - 2).to_owned();
            Ok(inner)
        },
    }
}

/// Whether the character at `i` differs from `c`.
fn s_char_ne(s: &str, i: usize, c: char) -> (r: bool)
    requires
        i < s@.len(),
    ensures
        r == (s@[i as int] != c),
{
    s.get_char(i) != c
}

/// The record reading of a decoded payload, if it decoded at all.
pub open spec fn record_matches_opt(
    rec: TroutStocking,
    oj: Option<Json>,
    dk: Seq<char>,
    dts: Timestamp,
) -> bool {
    match oj {
        Some(j) => record_matches(rec, j, dk, dts),
        None => false,
    }
}

/// Whether the payload found at `i` decodes to a well-shaped record.
pub open spec fn payload_record_ok(s: Seq<char>, i: int) -> bool {
    match json_of(envelope_payload(s, i)) {
        Some(j) => record_shape_ok(j),
        None => false,
    }
}

/// Parses a raw response with the given defaults: strips the envelope,
/// decodes the payload, and validates it into a record, the absent `key`
/// and `timestamp` taking the given defaults.
pub fn parse_with_defaults(raw_data: &str, default_key: String, default_ts: Timestamp) -> (r:
    Result<TroutStocking, PipelineError>)
    ensures
        match r {
            Ok(rec) => exists|i: int|
                {
                    &&& #[trigger] found_first_at(raw_data@, envelope_prefix(), i)
                    &&& envelope_suffix_ok(raw_data@, i)
                    &&& payload_record_ok(raw_data@, i)
                    &&& record_matches_opt(
                        rec,
                        json_of(envelope_payload(raw_data@, i)),
                        default_key@,
                        default_ts,
                    )
                    &&& table_wf(rec.table)
                },
            Err(e) => {
                &&& (e == PipelineError::EnvelopeMalformed <==> (forall|i: int|
                    #[trigger] found_first_at(raw_data@, envelope_prefix(), i)
                        ==> !envelope_suffix_ok(raw_data@, i)))
                &&& (e == PipelineError::SchemaMismatch ==> exists|i: int|
                    #[trigger] found_first_at(raw_data@, envelope_prefix(), i)
                        && envelope_suffix_ok(raw_data@, i) && !payload_record_ok(raw_data@, i))
                &&& (e == PipelineError::EnvelopeMalformed || e == PipelineError::SchemaMismatch)
            },
        },
{
    let inner = match strip_envelope(raw_data) {
        Ok(s) => s,
        Err(e) => {
            return Err(e);
        },
    };
    let jv = match parse_json(inner.as_str()) {
        Some(v) => v,
        None => {
            return Err(PipelineError::SchemaMismatch);
        },
    };
    match record_of_json(&jv, default_key, default_ts) {
        Ok(rec) => Ok(rec),
        Err(e) => Err(e),
    }
}

/// Relies on `uuid::Uuid::new_v4`, rendered with `to_string`; the result
/// is random, so nothing is promised of it.
#[verifier::external_body]
pub(crate) fn fresh_key() -> String {
    uuid::Uuid::new_v4().to_string()
}

/// Parses the raw spreadsheet response: strips the envelope, decodes and
/// validates the payload. A record without its own key or timestamp takes
/// a fresh random key and the current instant, assigned here at parse
/// time.
pub fn parse_trout_stocking_spreadsheet_data(raw_data: &str) -> (r: Result<
    TroutStocking,
    PipelineError,
>)
    ensures
        match r {
            Ok(rec) => exists|i: int|
                {
                    &&& #[trigger] found_first_at(raw_data@, envelope_prefix(), i)
                    &&& envelope_suffix_ok(raw_data@, i)
                    &&& payload_record_ok(raw_data@, i)
                    &&& (exists|dk: Seq<char>, dts: Timestamp|
                        #[trigger] record_matches_opt(
                            rec,
                            json_of(envelope_payload(raw_data@, i)),
                            dk,
                            dts,
                        ))
                    &&& table_wf(rec.table)
                },
            Err(e) => {
                &&& (e == PipelineError::EnvelopeMalformed <==> (forall|i: int|
                    #[trigger] found_first_at(raw_data@, envelope_prefix(), i)
                        ==> !envelope_suffix_ok(raw_data@, i)))
                &&& (e == PipelineError::SchemaMismatch ==> exists|i: int|
                    #[trigger] found_first_at(raw_data@, envelope_prefix(), i)
                        && envelope_suffix_ok(raw_data@, i) && !payload_record_ok(raw_data@, i))
                &&& (e == PipelineError::EnvelopeMalformed || e == PipelineError::SchemaMismatch)
            },
        },
{
    let key = fresh_key();
    let ts = Timestamp::now();
    let ghost dk = key@;
    let ghost dts = ts;
    match parse_with_defaults(raw_data, key, ts) {
        Ok(rec) => {
            proof {
                let i = choose|i: int|
                    {
                        &&& #[trigger] found_first_at(raw_data@, envelope_prefix(), i)
                        &&& envelope_suffix_ok(raw_data@, i)
                        &&& payload_record_ok(raw_data@, i)
                        &&& record_matches_opt(
                            rec,
                            json_of(envelope_payload(raw_data@, i)),
                            dk,
                            dts,
                        )
                        &&& table_wf(rec.table)
                    };
                assert(record_matches_opt(rec, json_of(envelope_payload(raw_data@, i)), dk, dts));
            }
            Ok(rec)
        },
        Err(e) => Err(e),
    }
}

} // verus!
