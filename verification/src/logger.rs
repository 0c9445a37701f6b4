//! Logging: the levels and categories of log entries, the filters of log
//! queries and the SQL they become, and the bounded buffer in which a
//! worker keeps entries until they reach the master.

use crate::store::{copy_opt_string, copy_string, now_rfc3339, opt_view};
use crate::text::{concat2, concat3, decimal, decimal_string, str_eq, texts, trim_start_all, trim_start_matches};
use vstd::prelude::*;

verus! {

/// The lower-case form of `s`, as `str::to_lowercase` gives it under the
/// Unicode case mapping.
pub uninterp spec fn lowercase_of(s: Seq<char>) -> Seq<char>;

/// Whether every character of `s` is ASCII.
pub open spec fn is_ascii_text(s: Seq<char>) -> bool {
    forall|i: int| 0 <= i < s.len() ==> (#[trigger] s[i] as u32) < 128
}

/// `c` with an ASCII capital letter turned into its small letter.
pub open spec fn ascii_lower_char(c: char) -> char {
    if 65 <= (c as u32) <= 90 { ((c as u32) + 32) as char } else { c }
}

/// `c` with an ASCII small letter turned into its capital letter.
pub open spec fn ascii_upper_char(c: char) -> char {
    if 97 <= (c as u32) <= 122 { ((c as u32) - 32) as char } else { c }
}

/// `s` with its ASCII capital letters made small.
pub open spec fn ascii_lower(s: Seq<char>) -> Seq<char> {
    s.map_values(|c: char| ascii_lower_char(c))
}

/// `s` with its ASCII small letters made capital.
pub open spec fn ascii_upper(s: Seq<char>) -> Seq<char> {
    s.map_values(|c: char| ascii_upper_char(c))
}

/// `str::to_lowercase`: the lower-case form of `s`, named by `lowercase_of`.
/// On ASCII text it turns each capital letter into its small letter and
/// keeps every other character, as the Unicode lower-case mapping does.
#[verifier::external_body]
fn to_lowercase(s: &str) -> (r: String)
    ensures
        r@ == lowercase_of(s@),
        is_ascii_text(s@) ==> r@ == ascii_lower(s@),
{
    s.to_lowercase()
}

/// Severity of a log entry.
#[derive(Debug, Clone, Copy, PartialEq, Eq, Structural)]
pub enum LogLevel {
    Debug,
    Info,
    Warn,
    Error,
}

/// The level a lower-case level name stands for: "debug", "warn" or
/// "warning", "error"; anything else is `Info`.
pub open spec fn parse_level(lower: Seq<char>) -> LogLevel {
    if lower == "debug"@ {
        LogLevel::Debug
    } else if lower == "warn"@ || lower == "warning"@ {
        LogLevel::Warn
    } else if lower == "error"@ {
        LogLevel::Error
    } else {
        LogLevel::Info
    }
}

/// The name of a level.
pub open spec fn level_name(l: LogLevel) -> Seq<char> {
    match l {
        LogLevel::Debug => "debug"@,
        LogLevel::Info => "info"@,
        LogLevel::Warn => "warn"@,
        LogLevel::Error => "error"@,
    }
}

impl LogLevel {
    /// The level an already lower-cased name stands for.
    pub fn from_lowercase(lower: &str) -> (r: LogLevel)
        ensures
            r == parse_level(lower@),
    {
        proof {
            reveal_strlit("debug");
            reveal_strlit("warn");
            reveal_strlit("warning");
            reveal_strlit("error");
        }
        if str_eq(lower, "debug") {
            LogLevel::Debug
        } else if str_eq(lower, "warn") || str_eq(lower, "warning") {
            LogLevel::Warn
        } else if str_eq(lower, "error") {
            LogLevel::Error
        } else {
            LogLevel::Info
        }
    }

    /// The level's name: "debug", "info", "warn" or "error".
    pub fn to_string(&self) -> (s: String)
        ensures
            s@ == level_name(*self),
    {
        match self {
            LogLevel::Debug => "debug".to_owned(),
            LogLevel::Info => "info".to_owned(),
            LogLevel::Warn => "warn".to_owned(),
            LogLevel::Error => "error".to_owned(),
        }
    }
}

impl<'a> From<&'a str> for LogLevel {
    /// Reads a level name in any case; an unknown name is `Info`.
    fn from(s: &'a str) -> (r: LogLevel)
        ensures
            r == parse_level(lowercase_of(s@)),
            is_ascii_text(s@) ==> r == parse_level(ascii_lower(s@)),
    {
        let lower = to_lowercase(s);
        LogLevel::from_lowercase(lower.as_str())
    }
}

impl<'a> vstd::std_specs::convert::FromSpecImpl<&'a str> for LogLevel {
    open spec fn obeys_from_spec() -> bool {
        true
    }

    open spec fn from_spec(v: &'a str) -> LogLevel {
        parse_level(lowercase_of(v@))
    }
}

/// What a log entry is about.
#[derive(Debug, Clone, PartialEq, Eq)]
pub enum LogCategory {
    SystemHealth,
    DataOperation,
    Network,
    Storage,
    Custom(String),
}

/// Whether `c` is the category read from `raw`, whose lower-case form
/// is `lower`: the known names (with or without the underscore) give their
/// category, anything else a custom category holding `raw` unchanged.
pub open spec fn parsed_category(c: LogCategory, lower: Seq<char>, raw: Seq<char>) -> bool {
    if lower == "system_health"@ || lower == "systemhealth"@ {
        c == LogCategory::SystemHealth
    } else if lower == "data_operation"@ || lower == "dataoperation"@ {
        c == LogCategory::DataOperation
    } else if lower == "network"@ {
        c == LogCategory::Network
    } else if lower == "storage"@ {
        c == LogCategory::Storage
    } else {
        c matches LogCategory::Custom(s) && s@ == raw
    }
}

/// The name of a category; a custom one is its own text.
pub open spec fn category_name(c: LogCategory) -> Seq<char> {
    match c {
        LogCategory::SystemHealth => "system_health"@,
        LogCategory::DataOperation => "data_operation"@,
        LogCategory::Network => "network"@,
        LogCategory::Storage => "storage"@,
        LogCategory::Custom(s) => s@,
    }
}

impl LogCategory {
    /// The category read from `raw`, given its lower-case form.
    pub fn from_lowercase(lower: &str, raw: &str) -> (r: LogCategory)
        ensures
            parsed_category(r, lower@, raw@),
    {
        proof {
            reveal_strlit("system_health");
            reveal_strlit("systemhealth");
            reveal_strlit("data_operation");
            reveal_strlit("dataoperation");
            reveal_strlit("network");
            reveal_strlit("storage");
        }
        if str_eq(lower, "system_health") || str_eq(lower, "systemhealth") {
            LogCategory::SystemHealth
        } else if str_eq(lower, "data_operation") || str_eq(lower, "dataoperation") {
            LogCategory::DataOperation
        } else if str_eq(lower, "network") {
            LogCategory::Network
        } else if str_eq(lower, "storage") {
            LogCategory::Storage
        } else {
            LogCategory::Custom(raw.to_owned())
        }
    }

    /// Reads a category name in any case; see `parsed_category`.
    pub fn parse(s: &str) -> (r: LogCategory)
        ensures
            parsed_category(r, lowercase_of(s@), s@),
            is_ascii_text(s@) ==> parsed_category(r, ascii_lower(s@), s@),
    {
        let lower = to_lowercase(s);
        LogCategory::from_lowercase(lower.as_str(), s)
    }

    /// The category's name.
    pub fn to_string(&self) -> (s: String)
        ensures
            s@ == category_name(*self),
    {
        match self {
            LogCategory::SystemHealth => "system_health".to_owned(),
            LogCategory::DataOperation => "data_operation".to_owned(),
            LogCategory::Network => "network".to_owned(),
            LogCategory::Storage => "storage".to_owned(),
            LogCategory::Custom(s) => copy_string(s),
        }
    }

    /// A copy of the category.
    pub fn copy(&self) -> (r: LogCategory)
        ensures
            category_name(r) == category_name(*self),
            !(*self is Custom) ==> r == *self,
            r is Custom <==> *self is Custom,
    {
        match self {
            LogCategory::SystemHealth => LogCategory::SystemHealth,
            LogCategory::DataOperation => LogCategory::DataOperation,
            LogCategory::Network => LogCategory::Network,
            LogCategory::Storage => LogCategory::Storage,
            LogCategory::Custom(s) => LogCategory::Custom(copy_string(s)),
        }
    }
}

impl<'a> From<&'a str> for LogCategory {
    /// Reads a category name in any case; see `parsed_category`.
    fn from(s: &'a str) -> (r: LogCategory)
        ensures
            parsed_category(r, lowercase_of(s@), s@),
    {
        LogCategory::parse(s)
    }
}

impl<'a> vstd::std_specs::convert::FromSpecImpl<&'a str> for LogCategory {
    /// A custom category holds a new string, which no spec value can name
    /// ahead of the call, so `from` is specified by its own `ensures`.
    open spec fn obeys_from_spec() -> bool {
        false
    }

    open spec fn from_spec(v: &'a str) -> LogCategory {
        choose|c: LogCategory| parsed_category(c, lowercase_of(v@), v@)
    }
}

/// A stored log entry. Times are RFC 3339 text.
#[derive(Debug, Clone)]
pub struct LogEntry {
    pub id: i64,
    pub worker_id: String,
    pub level: LogLevel,
    pub category: LogCategory,
    pub message: String,
    pub detail_json: Option<String>,
    pub timestamp: String,
    pub acknowledged: bool,
}

/// Filters and paging of a log query. Times are RFC 3339 text.
#[derive(Debug, Clone)]
pub struct LogQuery {
    pub worker_id: Option<String>,
    pub level: Option<LogLevel>,
    pub category: Option<LogCategory>,
    /// Text the message must contain.
    pub keyword: Option<String>,
    pub unread_only: bool,
    pub start_time: Option<String>,
    pub end_time: Option<String>,
    /// Most rows to return; 0 means 100.
    pub limit: usize,
    pub offset: usize,
}

impl Default for LogQuery {
    fn default() -> (q: Self)
        ensures
            q.worker_id is None,
            q.level is None,
            q.category is None,
            q.keyword is None,
            !q.unread_only,
            q.start_time is None,
            q.end_time is None,
            q.limit == 0,
            q.offset == 0,
    {
        LogQuery {
            worker_id: None,
            level: None,
            category: None,
            keyword: None,
            unread_only: false,
            start_time: None,
            end_time: None,
            limit: 0,
            offset: 0,
        }
    }
}

/// Counts over the stored log.
#[derive(Debug, Clone)]
pub struct LogStats {
    pub total: i64,
    pub unread: i64,
    pub errors: i64,
    pub today: i64,
    /// Entries per worker, most first.
    pub by_worker: Vec<(String, i64)>,
}

/// The conditions of a WHERE clause and the values bound to their
/// numbered placeholders.
pub type WhereParts = (Seq<Seq<char>>, Seq<Seq<char>>);

/// `parts` with the condition `column` compared with a new placeholder
/// bound to `value`; placeholders are numbered from 1 in binding order.
pub open spec fn with_filter(parts: WhereParts, column: Seq<char>, value: Seq<char>) -> WhereParts {
    let values = parts.1.push(value);
    (parts.0.push(column + "?"@ + decimal(values.len())), values)
}

/// `parts` with `column = value` added when `value` is present.
pub open spec fn with_optional(parts: WhereParts, column: Seq<char>, value: Option<Seq<char>>) -> WhereParts {
    match value {
        Some(v) => with_filter(parts, column, v),
        None => parts,
    }
}

/// The level a query filters on, by name.
pub open spec fn level_value(q: LogQuery) -> Option<Seq<char>> {
    match q.level {
        Some(l) => Some(level_name(l)),
        None => None,
    }
}

/// The category a query filters on, by name.
pub open spec fn category_value(q: LogQuery) -> Option<Seq<char>> {
    match q.category {
        Some(c) => Some(category_name(c)),
        None => None,
    }
}

/// The LIKE pattern of a query's keyword.
pub open spec fn keyword_pattern(q: LogQuery) -> Option<Seq<char>> {
    match q.keyword {
        Some(k) => Some("%"@ + k@ + "%"@),
        None => None,
    }
}

/// The conditions and bound values of a query: worker, level, category,
/// keyword (as a `%..%` pattern), unread entries only, start time, end
/// time, in this order.
pub open spec fn where_parts(q: LogQuery) -> WhereParts {
    let p1 = with_optional((Seq::empty(), Seq::empty()), "worker_id = "@, opt_view(q.worker_id));
    let p2 = with_optional(p1, "level = "@, level_value(q));
    let p3 = with_optional(p2, "category = "@, category_value(q));
    let p4 = with_optional(p3, "message LIKE "@, keyword_pattern(q));
    let p5 = if q.unread_only { (p4.0.push("acknowledged = 0"@), p4.1) } else { p4 };
    let p6 = with_optional(p5, "timestamp >= "@, opt_view(q.start_time));
    with_optional(p6, "timestamp <= "@, opt_view(q.end_time))
}

/// The texts joined with `sep` between them.
pub open spec fn joined(parts: Seq<Seq<char>>, sep: Seq<char>) -> Seq<char>
    decreases parts.len(),
{
    if parts.len() == 0 {
        Seq::empty()
    } else if parts.len() == 1 {
        parts[0]
    } else {
        joined(parts.drop_last(), sep) + sep + parts.last()
    }
}

/// The WHERE clause of a query: empty without conditions, otherwise
/// " WHERE " and the conditions joined by " AND ".
pub open spec fn where_sql(q: LogQuery) -> Seq<char> {
    let clauses = where_parts(q).0;
    if clauses.len() == 0 {
        Seq::empty()
    } else {
        " WHERE "@ + joined(clauses, " AND "@)
    }
}

/// The texts of `parts` joined with `sep`.
pub fn join_texts(parts: &Vec<String>, sep: &str) -> (r: String)
    ensures
        r@ == joined(texts(parts@), sep@),
{
    let mut r = String::new();
    let mut i: usize = 0;
    assert(texts(parts@).take(0) =~= Seq::<Seq<char>>::empty());
    while i < parts.len()
        invariant
            i <= parts@.len(),
            r@ == joined(texts(parts@).take(i as int), sep@),
        decreases parts@.len() - i,
    {
        assert(texts(parts@).take(i + 1).drop_last() =~= texts(parts@).take(i as int));
        if i > 0 {
            r.append(sep);
        }
        r.append(parts[i].as_str());
        proof {
            if i == 0 {
                assert(texts(parts@).take(1) =~= seq![parts@[0]@]);
                assert(r@ =~= parts@[0]@);
            }
        }
        i = i + 1;
    }
    assert(texts(parts@).take(i as int) =~= texts(parts@));
    r
}

fn push_filter(clauses: &mut Vec<String>, values: &mut Vec<String>, column: &str, value: String)
    requires
        old(values)@.len() < 100,
    ensures
        (texts(final(clauses)@), texts(final(values)@)) == with_filter((texts(old(clauses)@), texts(old(values)@)), column@, value@),
        final(values)@.len() == old(values)@.len() + 1,
        final(clauses)@.len() == old(clauses)@.len() + 1,
{
    let ghost vs = texts(old(values)@);
    let ghost cs = texts(old(clauses)@);
    let ghost val = value@;
    values.push(value);
    assert(texts(values@) =~= vs.push(val));
    let n = decimal_string(values.len() as u64);
    proof { reveal_strlit("?"); }
    let c = concat3(column, "?", n.as_str());
    clauses.push(c);
    assert(texts(clauses@) =~= cs.push(column@ + "?"@ + decimal(vs.push(val).len())));
}

/// The WHERE clause of `query` and the values bound to its placeholders.
pub fn build_where(query: &LogQuery) -> (r: (String, Vec<String>))
    ensures
        r.0@ == where_sql(*query),
        texts(r.1@) == where_parts(*query).1,
{
    let mut clauses: Vec<String> = Vec::new();
    let mut values: Vec<String> = Vec::new();
    proof {
        reveal_strlit("worker_id = ");
        reveal_strlit("level = ");
        reveal_strlit("category = ");
        reveal_strlit("message LIKE ");
        reveal_strlit("acknowledged = 0");
        reveal_strlit("timestamp >= ");
        reveal_strlit("timestamp <= ");
        reveal_strlit("%");
    }
    let ghost p0: WhereParts = (Seq::empty(), Seq::empty());
    assert(texts(clauses@) =~= p0.0 && texts(values@) =~= p0.1);
    if let Some(w) = &query.worker_id {
        push_filter(&mut clauses, &mut values, "worker_id = ", copy_string(w));
    }
    let ghost p1 = with_optional(p0, "worker_id = "@, opt_view(query.worker_id));
    assert((texts(clauses@), texts(values@)) == p1);
    if let Some(l) = &query.level {
        push_filter(&mut clauses, &mut values, "level = ", l.to_string());
    }
    let ghost p2 = with_optional(p1, "level = "@, level_value(*query));
    assert((texts(clauses@), texts(values@)) == p2);
    if let Some(c) = &query.category {
        push_filter(&mut clauses, &mut values, "category = ", c.to_string());
    }
    let ghost p3 = with_optional(p2, "category = "@, category_value(*query));
    assert((texts(clauses@), texts(values@)) == p3);
    if let Some(k) = &query.keyword {
        push_filter(&mut clauses, &mut values, "message LIKE ", concat3("%", k.as_str(), "%"));
    }
    let ghost p4 = with_optional(p3, "message LIKE "@, keyword_pattern(*query));
    assert((texts(clauses@), texts(values@)) == p4);
    if query.unread_only {
        let ghost before = clauses@;
        clauses.push("acknowledged = 0".to_owned());
        assert(texts(clauses@) =~= texts(before).push("acknowledged = 0"@));
    }
    let ghost p5 = if query.unread_only { (p4.0.push("acknowledged = 0"@), p4.1) } else { p4 };
    assert((texts(clauses@), texts(values@)) == p5);
    if let Some(t) = &query.start_time {
        push_filter(&mut clauses, &mut values, "timestamp >= ", copy_string(t));
    }
    let ghost p6 = with_optional(p5, "timestamp >= "@, opt_view(query.start_time));
    assert((texts(clauses@), texts(values@)) == p6);
    if let Some(t) = &query.end_time {
        push_filter(&mut clauses, &mut values, "timestamp <= ", copy_string(t));
    }
    assert((texts(clauses@), texts(values@)) == where_parts(*query));
    let where_text = if clauses.len() == 0 {
        String::new()
    } else {
        let body = join_texts(&clauses, " AND ");
        proof { reveal_strlit(" WHERE "); }
        concat2(" WHERE ", body.as_str())
    };
    (where_text, values)
}

/// The number of rows a query returns at most: its limit, or 100 for 0.
pub open spec fn effective_limit(q: LogQuery) -> nat {
    if q.limit == 0 {
        100
    } else {
        q.limit as nat
    }
}

/// The SELECT statement of a query, newest entries first.
pub open spec fn query_sql_text(q: LogQuery) -> Seq<char> {
    "SELECT id, worker_id, level, category, message, detail_json, timestamp, acknowledged\n             FROM logs"@
        + where_sql(q) + "\n             ORDER BY timestamp DESC\n             LIMIT "@ + decimal(effective_limit(q))
        + " OFFSET "@ + decimal(q.offset as nat)
}

/// The statement that selects the entries a query asks for, and the values
/// bound to its placeholders.
pub fn query_sql(query: &LogQuery) -> (r: (String, Vec<String>))
    ensures
        r.0@ == query_sql_text(*query),
        contains_text(r.0@, "ORDER BY timestamp DESC"@),
        texts(r.1@) == where_parts(*query).1,
{
    proof { law_query_newest_first(*query); }
    let (where_text, values) = build_where(query);
    let limit: usize = if query.limit == 0 { 100 } else { query.limit };
    let head = "SELECT id, worker_id, level, category, message, detail_json, timestamp, acknowledged\n             FROM logs";
    let mid = "\n             ORDER BY timestamp DESC\n             LIMIT ";
    let lim = decimal_string(limit as u64);
    let off = decimal_string(query.offset as u64);
    let mut sql = concat3(head, where_text.as_str(), mid);
    sql.append(lim.as_str());
    sql.append(" OFFSET ");
    sql.append(off.as_str());
    (sql, values)
}

/// `t` occurs in `s` at position `i`.
pub open spec fn text_at(s: Seq<char>, t: Seq<char>, i: int) -> bool {
    0 <= i && i + t.len() <= s.len() && s.subrange(i, i + t.len()) == t
}

/// `t` occurs in `s`.
pub open spec fn contains_text(s: Seq<char>, t: Seq<char>) -> bool {
    exists|i: int| #[trigger] text_at(s, t, i)
}

/// A log query returns the newest entries first: its statement orders by
/// timestamp, descending.
pub proof fn law_query_newest_first(q: LogQuery)
    ensures
        contains_text(query_sql_text(q), "ORDER BY timestamp DESC"@),
{
    reveal_strlit("\n             ORDER BY timestamp DESC\n             LIMIT ");
    reveal_strlit("ORDER BY timestamp DESC");
    let head = "SELECT id, worker_id, level, category, message, detail_json, timestamp, acknowledged\n             FROM logs"@;
    let mid = "\n             ORDER BY timestamp DESC\n             LIMIT "@;
    let tail = decimal(effective_limit(q)) + " OFFSET "@ + decimal(q.offset as nat);
    let pre = head + where_sql(q);
    let t = "ORDER BY timestamp DESC"@;
    assert(query_sql_text(q) =~= pre + mid + tail);
    let i: int = pre.len() as int + 14;
    let n: int = t.len() as int;
    assert(mid.subrange(14, 14 + n) =~= t);
    assert((pre + mid + tail).subrange(i, i + n) =~= mid.subrange(14, 14 + n));
    assert(text_at(query_sql_text(q), t, i));
}

/// The statement that counts the entries a query matches, and the values
/// bound to its placeholders.
pub fn count_sql(query: &LogQuery) -> (r: (String, Vec<String>))
    ensures
        r.0@ == "SELECT COUNT(*) FROM logs"@ + where_sql(*query),
        texts(r.1@) == where_parts(*query).1,
{
    let (where_text, values) = build_where(query);
    (concat2("SELECT COUNT(*) FROM logs", where_text.as_str()), values)
}

/// The placeholders ?1 to ?n.
pub open spec fn placeholders(n: nat) -> Seq<Seq<char>>
    decreases n,
{
    if n == 0 {
        Seq::empty()
    } else {
        placeholders((n - 1) as nat).push("?"@ + decimal(n))
    }
}

/// The statement that marks `n` entries, bound to ?1 to ?n, as read.
pub fn acknowledge_batch_sql(n: usize) -> (s: String)
    ensures
        s@ == "UPDATE logs SET acknowledged = 1 WHERE id IN ("@ + joined(placeholders(n as nat), ", "@) + ")"@,
{
    let mut marks: Vec<String> = Vec::new();
    let mut i: usize = 0;
    proof { reveal_strlit("?"); }
    while i < n
        invariant
            i <= n,
            texts(marks@) == placeholders(i as nat),
        decreases n - i,
    {
        let ghost before = marks@;
        let d = decimal_string((i + 1) as u64);
        marks.push(concat2("?", d.as_str()));
        assert(texts(marks@) =~= texts(before).push("?"@ + decimal((i + 1) as nat)));
        i = i + 1;
    }
    let body = join_texts(&marks, ", ");
    concat3("UPDATE logs SET acknowledged = 1 WHERE id IN (", body.as_str(), ")")
}

/// The query for the `limit` latest errors.
pub fn recent_errors_query(limit: usize) -> (q: LogQuery)
    ensures
        q.level == Some(LogLevel::Error),
        q.limit == limit,
        q.worker_id is None,
        q.category is None,
        q.keyword is None,
        !q.unread_only,
        q.start_time is None,
        q.end_time is None,
        q.offset == 0,
{
    LogQuery { level: Some(LogLevel::Error), limit, ..LogQuery::default() }
}

/// The query for at most `limit` unread entries.
pub fn unread_query(limit: usize) -> (q: LogQuery)
    ensures
        q.unread_only,
        q.limit == limit,
        q.level is None,
        q.worker_id is None,
        q.category is None,
        q.keyword is None,
        q.start_time is None,
        q.end_time is None,
        q.offset == 0,
{
    LogQuery { unread_only: true, limit, ..LogQuery::default() }
}

/// An entry waiting in a worker's buffer. The time is RFC 3339 text.
#[derive(Debug, Clone)]
pub struct LocalLogEntry {
    pub level: LogLevel,
    pub category: LogCategory,
    pub message: String,
    pub detail_json: Option<String>,
    pub timestamp: String,
}

/// A worker's log collector: entries wait in a bounded buffer until they
/// are sent to the master's log endpoint in a batch. The buffer never
/// takes an entry beyond its capacity; entries that could not be sent are
/// put back in front of newer ones.
pub struct WorkerLogger {
    worker_id: String,
    master_ws_addr: String,
    buffer: Vec<LocalLogEntry>,
    max_buffer_size: usize,
    flush_interval_ms: u64,
}

/// The entries that `restore_to_buffer` leaves: the newest of `returned`,
/// as many as fit before the capacity is reached (older ones are dropped
/// first), in their order, then the buffer.
pub open spec fn restored(returned: Seq<LocalLogEntry>, buffer: Seq<LocalLogEntry>, cap: usize) -> Seq<LocalLogEntry> {
    let available: int = if buffer.len() < cap { cap - buffer.len() } else { 0 };
    let take: int = if returned.len() < available { returned.len() as int } else { available };
    returned.skip(returned.len() - take) + buffer
}

/// `e` is an entry made of these parts, at some time.
pub open spec fn entry_of(e: LocalLogEntry, level: LogLevel, category: LogCategory, message: Seq<char>, detail: Option<Seq<char>>) -> bool {
    &&& e.level == level
    &&& e.category == category
    &&& e.message@ == message
    &&& opt_view(e.detail_json) == detail
}

impl WorkerLogger {
    /// The buffered entries, oldest first.
    pub closed spec fn entries(&self) -> Seq<LocalLogEntry> {
        self.buffer@
    }

    /// The most entries the buffer takes.
    pub closed spec fn capacity(&self) -> usize {
        self.max_buffer_size
    }

    /// The worker the entries come from.
    pub closed spec fn worker(&self) -> Seq<char> {
        self.worker_id@
    }

    /// The master's log endpoint, host and port.
    pub closed spec fn endpoint(&self) -> Seq<char> {
        self.master_ws_addr@
    }

    /// How often, in milliseconds, the buffer is meant to be flushed.
    pub closed spec fn interval(&self) -> u64 {
        self.flush_interval_ms
    }

    /// A collector for `worker_id` sending to `master_ws_addr`, from which a
    /// leading "ws://" and then "wss://" are dropped; it buffers up to 1000
    /// entries and is flushed every 1000 ms.
    pub fn new(worker_id: &str, master_ws_addr: &str) -> (l: Self)
        ensures
            l.worker() == worker_id@,
            l.endpoint() == trim_start_all(trim_start_all(master_ws_addr@, "ws://"@), "wss://"@),
            l.entries().len() == 0,
            l.capacity() == 1000,
            l.interval() == 1000,
    {
        let a = trim_start_matches(master_ws_addr, "ws://");
        proof {
            reveal_strlit("ws://");
            reveal_strlit("wss://");
        }
        let addr = trim_start_matches(a.as_str(), "wss://");
        WorkerLogger {
            worker_id: worker_id.to_owned(),
            master_ws_addr: addr,
            buffer: Vec::new(),
            max_buffer_size: 1000,
            flush_interval_ms: 1000,
        }
    }

    /// The collector flushed every `ms` milliseconds.
    pub fn with_flush_interval(self, ms: u64) -> (l: Self)
        ensures
            l.interval() == ms,
            l.worker() == self.worker(),
            l.endpoint() == self.endpoint(),
            l.entries() == self.entries(),
            l.capacity() == self.capacity(),
    {
        WorkerLogger { flush_interval_ms: ms, ..self }
    }

    /// The collector buffering at most `size` entries.
    pub fn with_max_buffer(self, size: usize) -> (l: Self)
        ensures
            l.capacity() == size,
            l.worker() == self.worker(),
            l.endpoint() == self.endpoint(),
            l.entries() == self.entries(),
            l.interval() == self.interval(),
    {
        WorkerLogger { max_buffer_size: size, ..self }
    }

    /// The worker the entries come from.
    pub fn worker_id(&self) -> (s: &String)
        ensures
            s@ == self.worker(),
    {
        &self.worker_id
    }

    /// The master's log endpoint, host and port.
    pub fn master_ws_addr(&self) -> (s: &String)
        ensures
            s@ == self.endpoint(),
    {
        &self.master_ws_addr
    }

    /// The most entries the buffer takes.
    pub fn max_buffer_size(&self) -> (n: usize)
        ensures
            n == self.capacity(),
    {
        self.max_buffer_size
    }

    /// How often, in milliseconds, the buffer is meant to be flushed.
    pub fn flush_interval_ms(&self) -> (n: u64)
        ensures
            n == self.interval(),
    {
        self.flush_interval_ms
    }

    /// The buffered entries, oldest first.
    pub fn buffer(&self) -> (b: &Vec<LocalLogEntry>)
        ensures
            b@ == self.entries(),
    {
        &self.buffer
    }

    fn push(&mut self, entry: LocalLogEntry)
        ensures
            final(self).entries() == (if old(self).entries().len() < old(self).capacity() {
                old(self).entries().push(entry)
            } else {
                old(self).entries()
            }),
            final(self).capacity() == old(self).capacity(),
            final(self).worker() == old(self).worker(),
            final(self).endpoint() == old(self).endpoint(),
            final(self).interval() == old(self).interval(),
    {
        if self.buffer.len() < self.max_buffer_size {
            self.buffer.push(entry);
        }
    }

    /// Buffers an entry with the current time, unless the buffer is full,
    /// in which case the entry is dropped.
    pub fn log_with_detail(&mut self, level: LogLevel, category: LogCategory, message: &str, detail_json: Option<&str>)
        ensures
            old(self).entries().len() < old(self).capacity() ==> {
                &&& final(self).entries().len() == old(self).entries().len() + 1
                &&& final(self).entries().take(old(self).entries().len() as int) == old(self).entries()
                &&& entry_of(final(self).entries().last(), level, category, message@, match detail_json {
                    Some(d) => Some(d@),
                    None => None,
                })
            },
            old(self).entries().len() >= old(self).capacity() ==> final(self).entries() == old(self).entries(),
            final(self).capacity() == old(self).capacity(),
            final(self).worker() == old(self).worker(),
            final(self).endpoint() == old(self).endpoint(),
            final(self).interval() == old(self).interval(),
    {
        let detail = match detail_json {
            Some(d) => Some(d.to_owned()),
            None => None,
        };
        let entry = LocalLogEntry {
            level,
            category,
            message: message.to_owned(),
            detail_json: detail,
            timestamp: now_rfc3339(),
        };
        let ghost e = entry;
        self.push(entry);
        proof {
            if old(self).entries().len() < old(self).capacity() {
                assert(self.entries().take(old(self).entries().len() as int) =~= old(self).entries());
                assert(self.entries().last() == e);
            }
        }
    }

    /// Buffers an `Info` entry.
    pub fn info(&mut self, category: LogCategory, message: &str)
        ensures
            old(self).entries().len() < old(self).capacity() ==> {
                &&& final(self).entries().len() == old(self).entries().len() + 1
                &&& final(self).entries().take(old(self).entries().len() as int) == old(self).entries()
                &&& entry_of(final(self).entries().last(), LogLevel::Info, category, message@, None)
            },
            old(self).entries().len() >= old(self).capacity() ==> final(self).entries() == old(self).entries(),
            final(self).capacity() == old(self).capacity(),
    {
        self.log_with_detail(LogLevel::Info, category, message, None);
    }

    /// Buffers a `Warn` entry.
    pub fn warn(&mut self, category: LogCategory, message: &str)
        ensures
            old(self).entries().len() < old(self).capacity() ==> {
                &&& final(self).entries().len() == old(self).entries().len() + 1
                &&& final(self).entries().take(old(self).entries().len() as int) == old(self).entries()
                &&& entry_of(final(self).entries().last(), LogLevel::Warn, category, message@, None)
            },
            old(self).entries().len() >= old(self).capacity() ==> final(self).entries() == old(self).entries(),
            final(self).capacity() == old(self).capacity(),
    {
        self.log_with_detail(LogLevel::Warn, category, message, None);
    }

    /// Buffers an `Error` entry.
    pub fn error(&mut self, category: LogCategory, message: &str)
        ensures
            old(self).entries().len() < old(self).capacity() ==> {
                &&& final(self).entries().len() == old(self).entries().len() + 1
                &&& final(self).entries().take(old(self).entries().len() as int) == old(self).entries()
                &&& entry_of(final(self).entries().last(), LogLevel::Error, category, message@, None)
            },
            old(self).entries().len() >= old(self).capacity() ==> final(self).entries() == old(self).entries(),
            final(self).capacity() == old(self).capacity(),
    {
        self.log_with_detail(LogLevel::Error, category, message, None);
    }

    /// Buffers a `Debug` entry.
    pub fn debug(&mut self, category: LogCategory, message: &str)
        ensures
            old(self).entries().len() < old(self).capacity() ==> {
                &&& final(self).entries().len() == old(self).entries().len() + 1
                &&& final(self).entries().take(old(self).entries().len() as int) == old(self).entries()
                &&& entry_of(final(self).entries().last(), LogLevel::Debug, category, message@, None)
            },
            old(self).entries().len() >= old(self).capacity() ==> final(self).entries() == old(self).entries(),
            final(self).capacity() == old(self).capacity(),
    {
        self.log_with_detail(LogLevel::Debug, category, message, None);
    }

    /// Puts entries that could not be sent back in front of the buffer, as
    /// many as fit below the capacity; when not all fit, the oldest are
    /// dropped.
    pub fn restore_to_buffer(&mut self, entries: Vec<LocalLogEntry>)
        ensures
            final(self).entries() == restored(entries@, old(self).entries(), old(self).capacity()),
            final(self).capacity() == old(self).capacity(),
            final(self).worker() == old(self).worker(),
            final(self).endpoint() == old(self).endpoint(),
            final(self).interval() == old(self).interval(),
    {
        if entries.len() == 0 {
            assert(entries@.skip(0) + self.buffer@ =~= self.buffer@);
            return;
        }
        let available = self.max_buffer_size.saturating_sub(self.buffer.len());
        let take = if entries.len() < available { entries.len() } else { available };
        let ghost es = entries@;
        let mut older = entries;
        let mut source = older.split_off(older.len() - take);
        assert(source@ =~= es.skip(es.len() - take));
        let mut rest = Vec::new();
        std::mem::swap(&mut rest, &mut self.buffer);
        source.append(&mut rest);
        self.buffer = source;
    }

    /// Takes every buffered entry out, leaving the buffer empty.
    pub fn take_entries(&mut self) -> (out: Vec<LocalLogEntry>)
        ensures
            out@ == old(self).entries(),
            final(self).entries().len() == 0,
            final(self).capacity() == old(self).capacity(),
            final(self).worker() == old(self).worker(),
            final(self).endpoint() == old(self).endpoint(),
            final(self).interval() == old(self).interval(),
    {
        let mut out = Vec::new();
        std::mem::swap(&mut out, &mut self.buffer);
        out
    }

    /// The URL of the master's log endpoint.
    pub fn ws_url(&self) -> (u: String)
        ensures
            u@ == "ws://"@ + self.endpoint(),
    {
        concat2("ws://", self.master_ws_addr.as_str())
    }

    /// The message that binds the connection to this worker.
    pub fn register_message(&self) -> (m: String)
        ensures
            m@ == "{\"action\":\"register\",\"worker_id\":\""@ + self.worker() + "\"}"@,
    {
        concat3("{\"action\":\"register\",\"worker_id\":\"", self.worker_id.as_str(), "\"}")
    }
}

/// Entries taken out for sending and put back after a failed send, with
/// nothing buffered in between, leave the buffer as it was, provided it
/// was within its capacity.
pub proof fn law_failed_flush_loses_nothing(buffer: Seq<LocalLogEntry>, cap: usize)
    requires
        buffer.len() <= cap,
    ensures
        restored(buffer, Seq::empty(), cap) == buffer,
{
    assert(buffer.skip(0) =~= buffer);
    assert(buffer + Seq::<LocalLogEntry>::empty() =~= buffer);
}

/// Putting entries back never takes the buffer beyond its capacity, unless
/// it was beyond it already, and never drops an entry that was buffered.
pub proof fn law_restore_respects_capacity(returned: Seq<LocalLogEntry>, buffer: Seq<LocalLogEntry>, cap: usize)
    ensures
        restored(returned, buffer, cap).len() <= (if buffer.len() <= cap { cap as int } else { buffer.len() as int }),
        restored(returned, buffer, cap).subrange(restored(returned, buffer, cap).len() - buffer.len(), restored(returned, buffer, cap).len() as int) == buffer,
{
    let r = restored(returned, buffer, cap);
    assert(r.subrange(r.len() - buffer.len(), r.len() as int) =~= buffer);
}

/// A level's name reads back as that level.
pub proof fn law_level_name_round_trip(l: LogLevel)
    ensures
        parse_level(ascii_lower(level_name(l))) == l,
{
    reveal_strlit("debug");
    reveal_strlit("info");
    reveal_strlit("warn");
    reveal_strlit("error");
    reveal_strlit("warning");
    let n = level_name(l);
    assert forall|i: int| 0 <= i < n.len() implies #[trigger] ascii_lower_char(n[i]) == n[i] by {
        assert(97 <= (n[i] as u32) <= 122);
    }
    assert(ascii_lower(n) =~= n);
    assert("debug"@.len() == 5 && "info"@.len() == 4 && "warn"@.len() == 4 && "error"@.len() == 5 && "warning"@.len() == 7);
    assert("debug"@ != "error"@) by { assert("debug"@[0] != "error"@[0]); }
    assert("info"@ != "warn"@) by { assert("info"@[0] != "warn"@[0]); }
}

/// Level names are read without regard to ASCII case: a name and its
/// capitalised form stand for the same level.
pub proof fn law_level_case_insensitive(s: Seq<char>)
    requires
        is_ascii_text(s),
    ensures
        is_ascii_text(ascii_upper(s)),
        parse_level(ascii_lower(s)) == parse_level(ascii_lower(ascii_upper(s))),
{
    assert(ascii_lower(ascii_upper(s)) =~= ascii_lower(s));
}

} // verus!
