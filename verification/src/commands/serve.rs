//! The `serve` commands: search API request handling and the coordinator's
//! startup settings. Serving HTTP is left to the program.
use vstd::prelude::*;
use crate::coordinator::config::{
    CoordinatorConfig, CoordinatorConfigBuilder, ConfigError, config_is_valid, validation_error,
};
use crate::text::{chars_of, push_str, push_decimal, string_of, trim, trim_chars, decimal};
use super::search::{SearchKind, search_kind, spec_search_kind};

verus! {

broadcast use vstd::slice::group_slice_axioms;

/// The search mode a query uses when it names none.
pub fn default_search_mode() -> (r: String)
    ensures
        r@ == "hybrid"@,
{
    "hybrid".to_owned()
}

/// The number of results a query asks for when it names none.
pub fn default_k() -> (r: usize)
    ensures
        r == 10,
{
    10
}

/// API error response.
#[derive(Debug)]
pub struct ApiErrorResponse {
    pub error: String,
    pub code: u16,
}

/// How to run an API search: the kind of search and the number of results.
#[derive(Debug, Clone, Copy, PartialEq, Eq)]
pub struct SearchPlan {
    pub kind: SearchKind,
    pub k: usize,
}

/// A refusal with code 400 and message `msg`.
pub open spec fn is_refusal(r: Result<SearchPlan, ApiErrorResponse>, msg: Seq<char>) -> bool {
    r matches Err(e) && e.code == 400 && e.error@ == msg
}

/// `GET /api/search`: a blank query or an unknown mode is refused with 400;
/// otherwise the search named by the mode runs for at most 100 results.
pub fn plan_api_search(q: &str, mode: &str, k: usize) -> (r: Result<SearchPlan, ApiErrorResponse>)
    ensures
        trim(q@).len() == 0 ==> is_refusal(r, "Query parameter 'q' cannot be empty"@),
        trim(q@).len() > 0 ==> match spec_search_kind(mode@) {
            Some(kind) => r == Ok::<SearchPlan, ApiErrorResponse>(
                SearchPlan { kind, k: if k < 100 { k } else { 100 } },
            ),
            None => is_refusal(r, "Unknown search mode: '"@ + mode@ + "'. Valid: hybrid, keyword, bm25, vector, knn"@),
        },
{
    let qc = chars_of(q);
    let t = trim_chars(qc.as_slice());
    if t.len() == 0 {
        return Err(ApiErrorResponse { error: "Query parameter 'q' cannot be empty".to_owned(), code: 400 });
    }
    match search_kind(mode) {
        Some(kind) => Ok(SearchPlan { kind, k: if k < 100 { k } else { 100 } }),
        None => {
            let mut out: Vec<char> = Vec::new();
            push_str(&mut out, "Unknown search mode: '");
            push_str(&mut out, mode);
            push_str(&mut out, "'. Valid: hybrid, keyword, bm25, vector, knn");
            Err(ApiErrorResponse { error: string_of(out.as_slice()), code: 400 })
        },
    }
}

/// The answer to a search: the query and mode as asked, the number of
/// results, and the results (scored hits, carried as `R`).
#[derive(Debug)]
pub struct ApiSearchResponse<R> {
    pub query: String,
    pub mode: String,
    pub total: usize,
    pub results: Vec<R>,
}

/// The answer to a search that ran: it repeats the query and the mode as
/// asked, and its total is the number of results.
pub fn search_answer<R>(query: String, mode: String, results: Vec<R>) -> (r: ApiSearchResponse<R>)
    ensures
        r.query == query,
        r.mode == mode,
        r.total == results@.len(),
        r.results == results,
{
    let total = results.len();
    ApiSearchResponse { query, mode, total, results }
}

/// The answer to a search that failed: 500 with `Search failed: {reason}`.
pub fn search_failed(reason: &str) -> (r: ApiErrorResponse)
    ensures
        r.code == 500,
        r.error@ == "Search failed: "@ + reason@,
{
    let mut out: Vec<char> = Vec::new();
    push_str(&mut out, "Search failed: ");
    push_str(&mut out, reason);
    ApiErrorResponse { error: string_of(out.as_slice()), code: 500 }
}

/// Configuration parameters for the coordinator server.
#[derive(Debug)]
pub struct CoordinatorParams {
    pub host: String,
    pub port: u16,
    pub heartbeat_timeout: u64,
    pub heartbeat_interval: u64,
    pub max_instances: usize,
    pub schedule_cache: Option<String>,
    pub enable_cors: bool,
    pub enable_logging: bool,
}

/// The coordinator configuration the parameters ask for, bound to
/// `host:port`.
pub fn coordinator_config(params: CoordinatorParams) -> (r: Result<CoordinatorConfig, ConfigError>)
    ensures
        match r {
            Ok(c) => {
                &&& config_is_valid(params.heartbeat_timeout, params.heartbeat_interval, params.max_instances)
                &&& c.bind_address@ == params.host@ + ":"@ + decimal(params.port as nat)
                &&& c.heartbeat_timeout_secs == params.heartbeat_timeout
                &&& c.heartbeat_interval_secs == params.heartbeat_interval
                &&& c.max_instances == params.max_instances
                &&& c.enable_cors == params.enable_cors
                &&& c.enable_request_logging == params.enable_logging
                &&& c.schedule_cache_path == params.schedule_cache
                &&& c.api_key is None
            },
            Err(e) => !config_is_valid(params.heartbeat_timeout, params.heartbeat_interval, params.max_instances)
                && match validation_error(params.heartbeat_timeout, params.heartbeat_interval, params.max_instances) {
                    Some((field, reason)) => e matches ConfigError::InvalidValue { field: f, reason: m }
                        && f@ == field && m@ == reason,
                    None => false,
                },
        },
{
    let mut addr = chars_of(params.host.as_str());
    push_str(&mut addr, ":");
    push_decimal(&mut addr, params.port as u64);
    let builder = CoordinatorConfig::builder().bind_address(string_of(addr.as_slice())).heartbeat_timeout_secs(
        params.heartbeat_timeout,
    ).heartbeat_interval_secs(params.heartbeat_interval).max_instances(params.max_instances).enable_cors(
        params.enable_cors,
    ).enable_request_logging(params.enable_logging);
    let builder = CoordinatorConfigBuilder { schedule_cache_path: params.schedule_cache, ..builder };
    builder.build()
}

} // verus!
