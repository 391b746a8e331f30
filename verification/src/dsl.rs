//! The query request and its validation.

use vstd::prelude::*;
use crate::text::{decimal_of, is_blank, is_blank_str, u64_to_decimal};

verus! {

/// The traversal depth of a request that names none.
pub const DEFAULT_DEPTH: u8 = 1;

/// The number of results of a request that names none.
pub const DEFAULT_TOP_K: usize = 20;

/// The greatest number of results that a request may ask for.
pub const MAX_TOP_K: usize = 1000;

/// The greatest traversal depth that a request may ask for.
pub const MAX_DEPTH: u8 = 8;

/// What a query returns: an answer with its evidence, or the evidence alone.
#[derive(Debug, Clone, Copy, PartialEq, Eq, Hash, Structural)]
pub enum QueryMode {
    Answer,
    Evidence,
}

impl Default for QueryMode {
    fn default() -> (m: Self)
        ensures
            m == QueryMode::Answer,
    {
        QueryMode::Answer
    }
}

/// How a query searches.
#[derive(Debug, Clone, Copy, PartialEq, Eq, Hash, Structural)]
pub enum SearchMode {
    Local,
    Global,
    Drift,
    Auto,
}

impl Default for SearchMode {
    fn default() -> (m: Self)
        ensures
            m == SearchMode::Auto,
    {
        SearchMode::Auto
    }
}

/// A range of days, both ends included, each written `YYYY-MM-DD`.
#[derive(Debug, Clone, PartialEq, Eq)]
pub struct TimeRange {
    pub from: String,
    pub to: String,
}

/// The filters of a request. An empty list filters nothing.
#[derive(Debug, Clone, PartialEq, Eq)]
pub struct QueryFilters {
    pub entity_type: Vec<String>,
    pub relation_type: Vec<String>,
    pub time_range: Option<TimeRange>,
}

impl Default for QueryFilters {
    fn default() -> (f: Self)
        ensures
            f.entity_type@.len() == 0,
            f.relation_type@.len() == 0,
            f.time_range is None,
    {
        QueryFilters { entity_type: Vec::new(), relation_type: Vec::new(), time_range: None }
    }
}

/// How far and along which relations a query walks the graph.
#[derive(Debug, Clone, PartialEq, Eq)]
pub struct Traversal {
    pub depth: u8,
    pub relation_types: Vec<String>,
}

/// The traversal depth of a request that names none.
pub fn default_depth() -> (d: u8)
    ensures
        d == DEFAULT_DEPTH,
{
    DEFAULT_DEPTH
}

/// The number of results of a request that names none.
pub fn default_top_k() -> (k: usize)
    ensures
        k == DEFAULT_TOP_K,
{
    DEFAULT_TOP_K
}

impl Default for Traversal {
    fn default() -> (t: Self)
        ensures
            t.depth == DEFAULT_DEPTH,
            t.relation_types@.len() == 0,
    {
        Traversal { depth: default_depth(), relation_types: Vec::new() }
    }
}

/// A query.
#[derive(Debug, Clone, PartialEq, Eq)]
pub struct QueryRequest {
    pub query: String,
    pub filters: QueryFilters,
    pub traversal: Traversal,
    pub top_k: usize,
    pub mode: QueryMode,
    pub search_mode: SearchMode,
    pub model_id: Option<String>,
    pub snapshot_id: Option<String>,
    pub time_travel: Option<String>,
}

impl QueryRequest {
    /// A request for `query` with every other field at its default.
    pub fn new(query: &str) -> (r: Self)
        ensures
            r.query@ == query@,
            r.filters.entity_type@.len() == 0,
            r.filters.relation_type@.len() == 0,
            r.filters.time_range is None,
            r.traversal.depth == DEFAULT_DEPTH,
            r.traversal.relation_types@.len() == 0,
            r.top_k == DEFAULT_TOP_K,
            r.mode == QueryMode::Answer,
            r.search_mode == SearchMode::Auto,
            r.model_id is None,
            r.snapshot_id is None,
            r.time_travel is None,
    {
        QueryRequest {
            query: query.to_owned(),
            filters: QueryFilters::default(),
            traversal: Traversal::default(),
            top_k: default_top_k(),
            mode: QueryMode::default(),
            search_mode: SearchMode::default(),
            model_id: None,
            snapshot_id: None,
            time_travel: None,
        }
    }
}

/// Why a request is not valid.
#[derive(Debug, Clone, PartialEq, Eq)]
pub enum QueryValidationError {
    EmptyQuery,
    InvalidTopK(usize),
    InvalidDepth(u8),
    InvalidEntityTypeFilter,
    InvalidRelationTypeFilter,
    InvalidTraversalRelationTypes,
    InvalidTimeRangeFormat,
    InvalidTimeRangeOrder,
    InvalidModelId,
    InvalidSnapshotId,
    InvalidTimeTravel,
}

/// The day number of the date that `text` writes as `YYYY-MM-DD`: the count of
/// days in the proleptic Gregorian calendar, with January 1 of year 1 as day
/// 1. None where `text` does not parse as such a date.
pub uninterp spec fn ymd_day_number(text: Seq<char>) -> Option<i32>;

/// Whether `text` parses as an RFC 3339 date and time.
pub uninterp spec fn rfc3339_parses(text: Seq<char>) -> bool;

/// The day number of the date that `input` writes as `YYYY-MM-DD`.
///
/// Wraps `chrono::NaiveDate::parse_from_str` with the format `%Y-%m-%d`, and
/// hands out the date that it returns as its day count
/// (`Datelike::num_days_from_ce`). The contract names the result; it depends
/// on the text alone. An earlier date has a smaller day number.
#[verifier::external_body]
pub(crate) fn parse_ymd(input: &str) -> (r: Option<i32>)
    ensures
        r == ymd_day_number(input@),
{
    match chrono::NaiveDate::parse_from_str(input, "%Y-%m-%d") {
        Ok(date) => Some(chrono::Datelike::num_days_from_ce(&date)),
        Err(_) => None,
    }
}

/// Whether `input` parses as an RFC 3339 date and time.
///
/// Wraps `chrono::DateTime::parse_from_rfc3339` and reports whether it
/// returned a value. The contract names the result; it depends on the text
/// alone.
#[verifier::external_body]
pub(crate) fn parses_as_rfc3339(input: &str) -> (r: bool)
    ensures
        r == rfc3339_parses(input@),
{
    chrono::DateTime::parse_from_rfc3339(input).is_ok()
}

/// Whether some value of `values` is blank.
pub open spec fn has_blank(values: Seq<String>) -> bool {
    exists|i: int| 0 <= i < values.len() && is_blank((#[trigger] values[i])@)
}

/// Whether some value of `values` is empty after trimming.
pub fn has_empty_values(values: &Vec<String>) -> (r: bool)
    ensures
        r == has_blank(values@),
{
    let mut i: usize = 0;
    while i < values.len()
        invariant
            i <= values.len(),
            forall|j: int| 0 <= j < i ==> !is_blank((#[trigger] values@[j])@),
        decreases values.len() - i,
    {
        if is_blank_str(values[i].as_str()) {
            return true;
        }
        i += 1;
    }
    false
}

/// The first rule that `r` breaks, if it breaks one. `from_day`, `to_day` and
/// `time_travel_ok` are what the date parser says of the time range and of
/// `time_travel`.
pub open spec fn first_violation(
    r: QueryRequest,
    from_day: Option<i32>,
    to_day: Option<i32>,
    time_travel_ok: bool,
) -> Option<QueryValidationError> {
    if is_blank(r.query@) {
        Some(QueryValidationError::EmptyQuery)
    } else if r.top_k == 0 || r.top_k > MAX_TOP_K {
        Some(QueryValidationError::InvalidTopK(MAX_TOP_K))
    } else if r.traversal.depth == 0 || r.traversal.depth > MAX_DEPTH {
        Some(QueryValidationError::InvalidDepth(MAX_DEPTH))
    } else if has_blank(r.filters.entity_type@) {
        Some(QueryValidationError::InvalidEntityTypeFilter)
    } else if has_blank(r.filters.relation_type@) {
        Some(QueryValidationError::InvalidRelationTypeFilter)
    } else if has_blank(r.traversal.relation_types@) {
        Some(QueryValidationError::InvalidTraversalRelationTypes)
    } else if r.model_id is Some && is_blank(r.model_id->0@) {
        Some(QueryValidationError::InvalidModelId)
    } else if r.snapshot_id is Some && is_blank(r.snapshot_id->0@) {
        Some(QueryValidationError::InvalidSnapshotId)
    } else if r.time_travel is Some && (is_blank(r.time_travel->0@) || !time_travel_ok) {
        Some(QueryValidationError::InvalidTimeTravel)
    } else if r.filters.time_range is Some && (from_day is None || to_day is None) {
        Some(QueryValidationError::InvalidTimeRangeFormat)
    } else if r.filters.time_range is Some && from_day->0 > to_day->0 {
        Some(QueryValidationError::InvalidTimeRangeOrder)
    } else {
        None
    }
}

/// Whether `text` is accepted as a `time_travel` value: a `YYYY-MM-DD` date or
/// an RFC 3339 date and time.
pub open spec fn time_travel_parses(text: Seq<char>) -> bool {
    ymd_day_number(text) is Some || rfc3339_parses(text)
}

/// The rule that `r` breaks first, if any, with the dates read by the date
/// parser.
pub open spec fn violation_of(r: QueryRequest) -> Option<QueryValidationError> {
    first_violation(
        r,
        if r.filters.time_range is Some {
            ymd_day_number(r.filters.time_range->0.from@)
        } else {
            None
        },
        if r.filters.time_range is Some {
            ymd_day_number(r.filters.time_range->0.to@)
        } else {
            None
        },
        r.time_travel is Some && time_travel_parses(r.time_travel->0@),
    )
}

impl QueryValidationError {
    /// The message of the error.
    pub fn message(&self) -> (s: String)
        ensures
            s@ == self.message_text(),
    {
        match self {
            QueryValidationError::EmptyQuery => "query must not be empty".to_owned(),
            QueryValidationError::InvalidTopK(max) => {
                let mut s = "top_k must be between 1 and ".to_owned();
                s.append(u64_to_decimal(*max as u64).as_str());
                s
            },
            QueryValidationError::InvalidDepth(max) => {
                let mut s = "traversal.depth must be between 1 and ".to_owned();
                s.append(u64_to_decimal(*max as u64).as_str());
                s
            },
            QueryValidationError::InvalidEntityTypeFilter => "filters.entity_type must not contain empty values".to_owned(),
            QueryValidationError::InvalidRelationTypeFilter => "filters.relation_type must not contain empty values".to_owned(),
            QueryValidationError::InvalidTraversalRelationTypes => "traversal.relation_types must not contain empty values".to_owned(),
            QueryValidationError::InvalidTimeRangeFormat => "filters.time_range.from/to must be YYYY-MM-DD".to_owned(),
            QueryValidationError::InvalidTimeRangeOrder => "filters.time_range.from must be <= filters.time_range.to".to_owned(),
            QueryValidationError::InvalidModelId => "model_id must not be empty when provided".to_owned(),
            QueryValidationError::InvalidSnapshotId => "snapshot_id must not be empty when provided".to_owned(),
            QueryValidationError::InvalidTimeTravel => "time_travel must be YYYY-MM-DD or RFC3339".to_owned(),
        }
    }

    /// The message of the error, as characters.
    pub open spec fn message_text(&self) -> Seq<char> {
        match self {
            QueryValidationError::EmptyQuery => "query must not be empty"@,
            QueryValidationError::InvalidTopK(max) => "top_k must be between 1 and "@ + decimal_of(
                *max as nat,
            ),
            QueryValidationError::InvalidDepth(max) => "traversal.depth must be between 1 and "@
                + decimal_of(*max as nat),
            QueryValidationError::InvalidEntityTypeFilter => "filters.entity_type must not contain empty values"@,
            QueryValidationError::InvalidRelationTypeFilter => "filters.relation_type must not contain empty values"@,
            QueryValidationError::InvalidTraversalRelationTypes => "traversal.relation_types must not contain empty values"@,
            QueryValidationError::InvalidTimeRangeFormat => "filters.time_range.from/to must be YYYY-MM-DD"@,
            QueryValidationError::InvalidTimeRangeOrder => "filters.time_range.from must be <= filters.time_range.to"@,
            QueryValidationError::InvalidModelId => "model_id must not be empty when provided"@,
            QueryValidationError::InvalidSnapshotId => "snapshot_id must not be empty when provided"@,
            QueryValidationError::InvalidTimeTravel => "time_travel must be YYYY-MM-DD or RFC3339"@,
        }
    }
}

impl QueryRequest {
    /// Checks the request against the rules of the query language, with what
    /// the date parser said of its dates: the day numbers of the ends of the
    /// time range and whether `time_travel` parses.
    pub fn validate_with(
        &self,
        from_day: Option<i32>,
        to_day: Option<i32>,
        time_travel_ok: bool,
    ) -> (r: Result<(), QueryValidationError>)
        ensures
            match r {
                Ok(()) => first_violation(*self, from_day, to_day, time_travel_ok) is None,
                Err(e) => first_violation(*self, from_day, to_day, time_travel_ok) == Some(e),
            },
    {
        if is_blank_str(self.query.as_str()) {
            return Err(QueryValidationError::EmptyQuery);
        }
        if self.top_k == 0 || self.top_k > MAX_TOP_K {
            return Err(QueryValidationError::InvalidTopK(MAX_TOP_K));
        }
        if self.traversal.depth == 0 || self.traversal.depth > MAX_DEPTH {
            return Err(QueryValidationError::InvalidDepth(MAX_DEPTH));
        }
        if has_empty_values(&self.filters.entity_type) {
            return Err(QueryValidationError::InvalidEntityTypeFilter);
        }
        if has_empty_values(&self.filters.relation_type) {
            return Err(QueryValidationError::InvalidRelationTypeFilter);
        }
        if has_empty_values(&self.traversal.relation_types) {
            return Err(QueryValidationError::InvalidTraversalRelationTypes);
        }
        if let Some(model_id) = &self.model_id {
            if is_blank_str(model_id.as_str()) {
                return Err(QueryValidationError::InvalidModelId);
            }
        }
        if let Some(snapshot_id) = &self.snapshot_id {
            if is_blank_str(snapshot_id.as_str()) {
                return Err(QueryValidationError::InvalidSnapshotId);
            }
        }
        if let Some(time_travel) = &self.time_travel {
            if is_blank_str(time_travel.as_str()) || !time_travel_ok {
                return Err(QueryValidationError::InvalidTimeTravel);
            }
        }
        if self.filters.time_range.is_some() {
            match (from_day, to_day) {
                (Some(from), Some(to)) => {
                    if from > to {
                        return Err(QueryValidationError::InvalidTimeRangeOrder);
                    }
                },
                _ => {
                    return Err(QueryValidationError::InvalidTimeRangeFormat);
                },
            }
        }
        Ok(())
    }

    /// Checks the request against the rules of the query language: a query
    /// that is not blank, `top_k` from 1 to 1000, a depth from 1 to 8, no blank
    /// filter value, ids that are not blank where given, a `time_travel` that
    /// parses, and a time range of two dates in order.
    pub fn validate(&self) -> (r: Result<(), QueryValidationError>)
        ensures
            match r {
                Ok(()) => violation_of(*self) is None,
                Err(e) => violation_of(*self) == Some(e),
            },
    {
        let (from_day, to_day) = match &self.filters.time_range {
            Some(range) => (parse_ymd(range.from.as_str()), parse_ymd(range.to.as_str())),
            None => (None, None),
        };
        let time_travel_ok = match &self.time_travel {
            Some(t) => parse_ymd(t.as_str()).is_some() || parses_as_rfc3339(t.as_str()),
            None => false,
        };
        self.validate_with(from_day, to_day, time_travel_ok)
    }
}

} // verus!
