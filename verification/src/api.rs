//! The request and response shapes of the nodes' HTTP and WebSocket
//! interfaces, and the defaults and conversions they apply.

use crate::logger::{category_name, level_name, lowercase_of, parse_level, parsed_category, LogCategory, LogEntry, LogLevel, LogQuery};
use crate::store::{copy_opt_string, copy_string, opt_view};
use crate::wire::rfc3339_as_utc;
use vstd::prelude::*;

verus! {

/// Query of a put over HTTP.
#[derive(Debug, Clone)]
pub struct PutQuery {
    pub content_type: Option<String>,
    pub tags: Option<String>,
    pub quadkey: Option<String>,
    pub level: Option<u32>,
}

/// Query of a listing over HTTP.
#[derive(Debug, Clone)]
pub struct ListQuery {
    pub prefix: Option<String>,
    pub limit: Option<u32>,
}

/// Answer to a delete.
#[derive(Debug, Clone, Copy, PartialEq, Eq, Structural)]
pub struct DeleteResponse {
    pub success: bool,
}

/// Answer to an existence check.
#[derive(Debug, Clone, Copy, PartialEq, Eq, Structural)]
pub struct ExistsResponse {
    pub exists: bool,
}

/// A read over WebSocket.
#[derive(Debug, Clone)]
pub struct GetPayload {
    pub key: String,
}

/// A delete over WebSocket.
#[derive(Debug, Clone)]
pub struct DeletePayload {
    pub key: String,
}

/// An existence check over WebSocket.
#[derive(Debug, Clone)]
pub struct ExistsPayload {
    pub key: String,
}

/// A listing over WebSocket.
#[derive(Debug, Clone)]
pub struct ListPayload {
    pub prefix: Option<String>,
    pub limit: Option<u32>,
}

/// The prefix and limit a listing request asks for: no prefix lists
/// everything, no limit means 100.
pub fn list_params(prefix: &Option<String>, limit: Option<u32>) -> (r: (String, usize))
    ensures
        r.0@ == (match prefix {
            Some(p) => p@,
            None => Seq::empty(),
        }),
        r.1 == (match limit {
            Some(l) => l as usize,
            None => 100,
        }),
{
    let p = match prefix {
        Some(p) => copy_string(p),
        None => String::new(),
    };
    let l: usize = match limit {
        Some(l) => l as usize,
        None => 100,
    };
    (p, l)
}

/// Whether the `alive` query parameter asks for alive workers only: only
/// the value "true" does.
pub fn only_alive_param(alive: Option<&str>) -> (b: bool)
    ensures
        b == (match alive {
            Some(v) => v@ == "true"@,
            None => false,
        }),
{
    match alive {
        Some(v) => crate::text::str_eq(v, "true"),
        None => false,
    }
}

/// A log entry as the admin interface shows it.
#[derive(Debug, Clone)]
pub struct LogEntryResponse {
    pub id: i64,
    pub worker_id: String,
    pub level: String,
    pub category: String,
    pub message: String,
    pub detail_json: Option<String>,
    pub timestamp: String,
    pub acknowledged: bool,
}

/// The log's counts as the admin interface shows them.
#[derive(Debug, Clone)]
pub struct LogStatsResponse {
    pub total: usize,
    pub unread: usize,
    pub errors: usize,
    pub today: usize,
    pub by_worker: Vec<(String, i64)>,
}

/// A routing rule as the admin interface shows it.
#[derive(Debug, Clone)]
pub struct RouteRuleResponse {
    pub key_prefix: String,
    pub worker_id: String,
    pub priority: i32,
    pub created_at: String,
}

/// The parameters of a log query over HTTP.
#[derive(Debug, Clone)]
pub struct LogQueryParams {
    pub worker_id: Option<String>,
    pub level: Option<String>,
    pub category: Option<String>,
    pub keyword: Option<String>,
    pub unread_only: Option<bool>,
    pub start_time: Option<String>,
    pub end_time: Option<String>,
    pub limit: Option<usize>,
    pub offset: Option<usize>,
}

/// A time parameter as a filter: the UTC form of a valid RFC 3339 time,
/// nothing for a missing or invalid one.
pub open spec fn time_filter(t: Option<Seq<char>>) -> Option<Seq<char>> {
    match t {
        Some(s) => match rfc3339_as_utc(s) {
            Ok(u) => Some(u),
            Err(_) => None,
        },
        None => None,
    }
}

/// The time filter of an optional parameter.
fn time_param(t: &Option<String>) -> (r: Option<String>)
    ensures
        opt_view(r) == time_filter(opt_view(*t)),
{
    match t {
        Some(s) => match crate::wire::utc_rfc3339(s.as_str()) {
            Ok(u) => Some(u),
            Err(_) => None,
        },
        None => None,
    }
}

/// The log query the parameters ask for: level and category read as names
/// in any case, unread-only off, limit 100 and offset 0 unless given,
/// invalid times ignored.
pub fn log_query_from_params(params: &LogQueryParams) -> (q: LogQuery)
    ensures
        opt_view(q.worker_id) == opt_view(params.worker_id),
        q.level == (match params.level {
            Some(l) => Some(parse_level(lowercase_of(l@))),
            None => None,
        }),
        match (params.category, q.category) {
            (Some(c), Some(qc)) => parsed_category(qc, lowercase_of(c@), c@),
            (None, None) => true,
            _ => false,
        },
        opt_view(q.keyword) == opt_view(params.keyword),
        q.unread_only == (match params.unread_only {
            Some(b) => b,
            None => false,
        }),
        q.limit == (match params.limit {
            Some(l) => l,
            None => 100,
        }),
        q.offset == (match params.offset {
            Some(o) => o,
            None => 0,
        }),
        opt_view(q.start_time) == time_filter(opt_view(params.start_time)),
        opt_view(q.end_time) == time_filter(opt_view(params.end_time)),
{
    let level = match &params.level {
        Some(l) => Some(LogLevel::from(l.as_str())),
        None => None,
    };
    let category = match &params.category {
        Some(c) => Some(LogCategory::parse(c.as_str())),
        None => None,
    };
    LogQuery {
        worker_id: copy_opt_string(&params.worker_id),
        level,
        category,
        keyword: copy_opt_string(&params.keyword),
        unread_only: match params.unread_only {
            Some(b) => b,
            None => false,
        },
        start_time: time_param(&params.start_time),
        end_time: time_param(&params.end_time),
        limit: match params.limit {
            Some(l) => l,
            None => 100,
        },
        offset: match params.offset {
            Some(o) => o,
            None => 0,
        },
    }
}

/// `r` shows `e`: the same fields, level and category by name.
pub open spec fn shows_entry(r: LogEntryResponse, e: LogEntry) -> bool {
    &&& r.id == e.id
    &&& r.worker_id@ == e.worker_id@
    &&& r.level@ == level_name(e.level)
    &&& r.category@ == category_name(e.category)
    &&& r.message@ == e.message@
    &&& opt_view(r.detail_json) == opt_view(e.detail_json)
    &&& r.timestamp@ == e.timestamp@
    &&& r.acknowledged == e.acknowledged
}

/// A log entry as the admin interface shows it.
pub fn log_entry_response(e: &LogEntry) -> (r: LogEntryResponse)
    ensures
        shows_entry(r, *e),
{
    LogEntryResponse {
        id: e.id,
        worker_id: copy_string(&e.worker_id),
        level: e.level.to_string(),
        category: e.category.to_string(),
        message: copy_string(&e.message),
        detail_json: copy_opt_string(&e.detail_json),
        timestamp: copy_string(&e.timestamp),
        acknowledged: e.acknowledged,
    }
}

/// The entries of `entries` whose id is above `last_id`, in order.
pub open spec fn newer_entries(entries: Seq<LogEntry>, last_id: i64) -> Seq<LogEntry>
    decreases entries.len(),
{
    if entries.len() == 0 {
        Seq::empty()
    } else if entries.last().id > last_id {
        newer_entries(entries.drop_last(), last_id).push(entries.last())
    } else {
        newer_entries(entries.drop_last(), last_id)
    }
}

/// The entries a live log stream sends next: those with an id above the
/// last one sent, as the admin interface shows them, and the new last id
/// (the largest id sent, or `last_id` when nothing is new).
pub fn entries_since(entries: &Vec<LogEntry>, last_id: i64) -> (r: (Vec<LogEntryResponse>, i64))
    ensures
        r.0@.len() == newer_entries(entries@, last_id).len(),
        forall|i: int| 0 <= i < r.0@.len() ==> shows_entry(#[trigger] r.0@[i], newer_entries(entries@, last_id)[i]),
        r.0@.len() == 0 ==> r.1 == last_id,
        r.0@.len() > 0 ==> {
            &&& exists|i: int| 0 <= i < r.0@.len() && (#[trigger] r.0@[i]).id == r.1
            &&& forall|i: int| 0 <= i < r.0@.len() ==> (#[trigger] r.0@[i]).id <= r.1
        },
{
    let mut out: Vec<LogEntryResponse> = Vec::new();
    let mut max_id: i64 = last_id;
    let mut i: usize = 0;
    assert(entries@.take(0) =~= Seq::<LogEntry>::empty());
    while i < entries.len()
        invariant
            i <= entries@.len(),
            out@.len() == newer_entries(entries@.take(i as int), last_id).len(),
            forall|k: int| 0 <= k < out@.len() ==> shows_entry(#[trigger] out@[k], newer_entries(entries@.take(i as int), last_id)[k]),
            out@.len() == 0 ==> max_id == last_id,
            out@.len() > 0 ==> {
                &&& exists|k: int| 0 <= k < out@.len() && (#[trigger] out@[k]).id == max_id
                &&& forall|k: int| 0 <= k < out@.len() ==> (#[trigger] out@[k]).id <= max_id
            },
        decreases entries@.len() - i,
    {
        assert(entries@.take(i + 1).drop_last() =~= entries@.take(i as int));
        assert(entries@.take(i + 1).last() == entries@[i as int]);
        if entries[i].id > last_id {
            let ghost before = out@;
            let first = out.len() == 0;
            out.push(log_entry_response(&entries[i]));
            if first || entries[i].id > max_id {
                max_id = entries[i].id;
            }
            assert(out@.len() > 0);
            assert forall|k: int| 0 <= k < out@.len() implies (#[trigger] out@[k]).id <= max_id by {
                if k < before.len() {
                    assert(out@[k] == before[k]);
                }
            }
            assert(exists|k: int| 0 <= k < out@.len() && (#[trigger] out@[k]).id == max_id) by {
                if first || entries@[i as int].id == max_id {
                    assert(out@[out@.len() - 1].id == max_id);
                } else {
                    let k = choose|k: int| 0 <= k < before.len() && (#[trigger] before[k]).id == max_id;
                    assert(out@[k] == before[k]);
                }
            }
        }
        i = i + 1;
    }
    assert(entries@.take(i as int) =~= entries@);
    (out, max_id)
}

/// The health the admin interface reports: "healthy" with an alive worker,
/// "degraded" without.
pub fn health_status(alive_workers: usize) -> (s: &'static str)
    ensures
        s@ == (if alive_workers > 0 { "healthy"@ } else { "degraded"@ }),
{
    if alive_workers > 0 {
        "healthy"
    } else {
        "degraded"
    }
}

/// The envelope of every admin answer: success with data, or failure with
/// an error message.
#[derive(Debug, Clone)]
pub struct ApiResponse<T> {
    pub success: bool,
    pub data: Option<T>,
    pub error: Option<String>,
}

impl<T> ApiResponse<T> {
    /// A successful answer carrying `data`.
    pub fn ok(data: T) -> (r: Self)
        ensures
            r.success,
            r.data == Some(data),
            r.error is None,
    {
        ApiResponse { success: true, data: Some(data), error: None }
    }

    /// A failed answer with the message `msg`.
    pub fn err(msg: &str) -> (r: Self)
        ensures
            !r.success,
            r.data is None,
            opt_view(r.error) == Some(msg@),
    {
        ApiResponse { success: false, data: None, error: Some(msg.to_owned()) }
    }
}

/// A count as the admin interface shows it: negative counts as 0, counts
/// past `usize::MAX` as `usize::MAX`.
pub open spec fn shown_count(x: i64) -> usize {
    if x < 0 {
        0
    } else if x > usize::MAX {
        usize::MAX
    } else {
        x as usize
    }
}

fn count_as_usize(x: i64) -> (n: usize)
    ensures
        n == shown_count(x),
{
    if x < 0 {
        0
    } else if x as u64 > usize::MAX as u64 {
        usize::MAX
    } else {
        x as usize
    }
}

/// The log's counts as the admin interface shows them.
pub fn log_stats_response(s: &crate::logger::LogStats) -> (r: LogStatsResponse)
    ensures
        r.total == shown_count(s.total),
        r.unread == shown_count(s.unread),
        r.errors == shown_count(s.errors),
        r.today == shown_count(s.today),
        r.by_worker@.len() == s.by_worker@.len(),
        forall|i: int| 0 <= i < s.by_worker@.len() ==> (#[trigger] r.by_worker@[i]).0@ == s.by_worker@[i].0@
            && r.by_worker@[i].1 == s.by_worker@[i].1,
{
    let mut by_worker: Vec<(String, i64)> = Vec::new();
    let mut i: usize = 0;
    while i < s.by_worker.len()
        invariant
            i <= s.by_worker@.len(),
            by_worker@.len() == i,
            forall|j: int| 0 <= j < i ==> (#[trigger] by_worker@[j]).0@ == s.by_worker@[j].0@
                && by_worker@[j].1 == s.by_worker@[j].1,
        decreases s.by_worker@.len() - i,
    {
        by_worker.push((copy_string(&s.by_worker[i].0), s.by_worker[i].1));
        i = i + 1;
    }
    LogStatsResponse {
        total: count_as_usize(s.total),
        unread: count_as_usize(s.unread),
        errors: count_as_usize(s.errors),
        today: count_as_usize(s.today),
        by_worker,
    }
}

} // verus!
