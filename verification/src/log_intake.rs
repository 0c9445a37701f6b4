//! The master's side of log collection: what it does with a log message a
//! worker sends, and what it answers.

use crate::logger::{lowercase_of, parse_level, parsed_category, LogCategory, LogEntry, LogLevel};
use crate::store::{copy_opt_string, copy_string, now_rfc3339, opt_view};
use crate::text::{concat2, concat3, decimal, decimal_string};
use crate::wire::{rfc3339_as_utc, utc_rfc3339};
use vstd::prelude::*;

verus! {

/// A batch entry as received: each field that the message holds as text.
#[derive(Debug, Clone)]
pub struct ReceivedLogEntry {
    pub level: Option<String>,
    pub category: Option<String>,
    pub timestamp: Option<String>,
    pub message: Option<String>,
    pub detail_json: Option<String>,
}

/// A log message as received: its action ("" when it has none as text)
/// and the fields of its payload that it holds as text.
#[derive(Debug, Clone)]
pub struct ReceivedLogMessage {
    pub action: String,
    pub worker_id: Option<String>,
    /// The entries of a batch; `None` when the payload has no entry list.
    pub entries: Option<Vec<ReceivedLogEntry>>,
    pub level: Option<String>,
    pub category: Option<String>,
    pub message: Option<String>,
    pub detail_json: Option<String>,
}

/// The answer to a log message.
#[derive(Debug, Clone)]
pub struct LogWsResponse {
    pub status: String,
    pub message: String,
    pub count: i64,
}

/// What to do with a log message.
#[derive(Debug)]
pub enum LogIntake {
    /// Store these entries in one transaction.
    WriteBatch(Vec<LogEntry>),
    /// Store this one entry.
    WriteOne {
        worker_id: String,
        level: LogLevel,
        category: LogCategory,
        message: String,
        detail_json: Option<String>,
    },
    /// Store nothing and answer this.
    Reply(LogWsResponse),
}

/// The text of an optional field, or `default`.
pub open spec fn or_default(s: Option<String>, default: Seq<char>) -> Seq<char> {
    match s {
        Some(x) => x@,
        None => default,
    }
}

/// The text of an optional field, or `default`.
fn field_or(s: &Option<String>, default: &str) -> (r: String)
    ensures
        r@ == or_default(*s, default@),
{
    match s {
        Some(x) => copy_string(x),
        None => default.to_owned(),
    }
}

/// Whether `e` is the stored form of the received entry `r` from
/// `worker_id`: a missing level reads as "info", a missing category as
/// "custom", a missing message as empty; a time that is valid RFC 3339 is
/// kept in UTC (otherwise the entry gets the time of receipt); it is not
/// acknowledged.
pub open spec fn stored_entry(e: LogEntry, r: ReceivedLogEntry, worker_id: Seq<char>) -> bool {
    &&& e.id == 0
    &&& e.worker_id@ == worker_id
    &&& e.level == parse_level(lowercase_of(or_default(r.level, "info"@)))
    &&& parsed_category(e.category, lowercase_of(or_default(r.category, "custom"@)), or_default(r.category, "custom"@))
    &&& e.message@ == or_default(r.message, Seq::empty())
    &&& opt_view(e.detail_json) == opt_view(r.detail_json)
    &&& (rfc3339_as_utc(or_default(r.timestamp, Seq::empty())) matches Ok(t) ==> e.timestamp@ == t)
    &&& !e.acknowledged
}

fn store_entry(r: &ReceivedLogEntry, worker_id: &str) -> (e: LogEntry)
    ensures
        stored_entry(e, *r, worker_id@),
{
    proof {
        reveal_strlit("info");
        reveal_strlit("custom");
    }
    let level = field_or(&r.level, "info");
    let category = field_or(&r.category, "custom");
    proof {
        reveal_strlit("");
        assert(""@ =~= Seq::<char>::empty());
    }
    let ts = field_or(&r.timestamp, "");
    let timestamp = match utc_rfc3339(ts.as_str()) {
        Ok(t) => t,
        Err(_) => now_rfc3339(),
    };
    let e = LogEntry {
        id: 0,
        worker_id: worker_id.to_owned(),
        level: LogLevel::from(level.as_str()),
        category: LogCategory::parse(category.as_str()),
        message: field_or(&r.message, ""),
        detail_json: copy_opt_string(&r.detail_json),
        timestamp,
        acknowledged: false,
    };
    e
}

/// An error answer with `message`.
pub open spec fn error_reply(r: LogWsResponse, message: Seq<char>) -> bool {
    r.status@ == "error"@ && r.message@ == message && r.count == 0
}

/// Decides what to do with a log message: a "log_batch" with an entry list
/// stores its entries, one without is answered with an error; a
/// "log_single" stores its one entry (missing fields read as for a batch);
/// any other action is answered with an error naming it.
pub fn plan_log_message(msg: &ReceivedLogMessage) -> (r: LogIntake)
    ensures
        msg.action@ == "log_batch"@ ==> match msg.entries {
            Some(es) => r matches LogIntake::WriteBatch(out) && out@.len() == es@.len()
                && forall|i: int| 0 <= i < es@.len() ==> stored_entry(#[trigger] out@[i], es@[i], or_default(msg.worker_id, "unknown"@)),
            None => r matches LogIntake::Reply(rep) && error_reply(rep, "缺少 entries 字段"@),
        },
        msg.action@ == "log_single"@ ==> (r matches LogIntake::WriteOne { worker_id, level, category, message, detail_json } && {
            &&& worker_id@ == or_default(msg.worker_id, "unknown"@)
            &&& level == parse_level(lowercase_of(or_default(msg.level, "info"@)))
            &&& parsed_category(category, lowercase_of(or_default(msg.category, "custom"@)), or_default(msg.category, "custom"@))
            &&& message@ == or_default(msg.message, Seq::empty())
            &&& opt_view(detail_json) == opt_view(msg.detail_json)
        }),
        msg.action@ != "log_batch"@ && msg.action@ != "log_single"@ ==> (r matches LogIntake::Reply(rep)
            && error_reply(rep, "未知 action: "@ + msg.action@)),
{
    proof {
        reveal_strlit("log_batch");
        reveal_strlit("log_single");
        reveal_strlit("unknown");
        reveal_strlit("info");
        reveal_strlit("custom");
        reveal_strlit("error");
        reveal_strlit("");
        assert(""@ =~= Seq::<char>::empty());
        assert("log_batch"@ != "log_single"@) by {
            assert("log_batch"@[4] != "log_single"@[4]);
        }
    }
    if crate::text::str_eq(msg.action.as_str(), "log_batch") {
        let worker_id = field_or(&msg.worker_id, "unknown");
        match &msg.entries {
            Some(es) => {
                let mut out: Vec<LogEntry> = Vec::new();
                let mut i: usize = 0;
                while i < es.len()
                    invariant
                        i <= es@.len(),
                        out@.len() == i,
                        worker_id@ == or_default(msg.worker_id, "unknown"@),
                        forall|k: int| 0 <= k < i ==> stored_entry(#[trigger] out@[k], es@[k], worker_id@),
                    decreases es@.len() - i,
                {
                    out.push(store_entry(&es[i], worker_id.as_str()));
                    i = i + 1;
                }
                LogIntake::WriteBatch(out)
            },
            None => LogIntake::Reply(LogWsResponse {
                status: "error".to_owned(),
                message: "缺少 entries 字段".to_owned(),
                count: 0,
            }),
        }
    } else if crate::text::str_eq(msg.action.as_str(), "log_single") {
        let level_name = field_or(&msg.level, "info");
        let category_name = field_or(&msg.category, "custom");
        let worker_id = field_or(&msg.worker_id, "unknown");
        let level = LogLevel::from(level_name.as_str());
        let category = LogCategory::parse(category_name.as_str());
        let message = field_or(&msg.message, "");
        let detail_json = copy_opt_string(&msg.detail_json);
        LogIntake::WriteOne { worker_id, level, category, message, detail_json }
    } else {
        LogIntake::Reply(LogWsResponse {
            status: "error".to_owned(),
            message: concat2("未知 action: ", msg.action.as_str()),
            count: 0,
        })
    }
}

/// The answer after storing a batch: the number stored, or the store's error.
pub fn batch_stored(result: &Result<i64, String>) -> (r: LogWsResponse)
    ensures
        match result {
            Ok(n) => r.status@ == "ok"@ && r.count == *n && r.message@ == "已接收 "@ + (if *n >= 0 { decimal(*n as nat) } else { "-"@ + decimal((-*n) as nat) }) + " 条日志"@,
            Err(e) => error_reply(r, "写入日志失败: "@ + e@),
        },
{
    proof {
        reveal_strlit("ok");
        reveal_strlit("error");
        reveal_strlit("-");
    }
    match result {
        Ok(n) => {
            let digits = if *n >= 0 {
                decimal_string(*n as u64)
            } else {
                let magnitude: u64 = if *n == i64::MIN { 0x8000_0000_0000_0000 } else { (-*n) as u64 };
                concat2("-", decimal_string(magnitude).as_str())
            };
            LogWsResponse { status: "ok".to_owned(), message: concat3("已接收 ", digits.as_str(), " 条日志"), count: *n }
        },
        Err(e) => LogWsResponse { status: "error".to_owned(), message: concat2("写入日志失败: ", e.as_str()), count: 0 },
    }
}

/// The answer after storing one entry, or the store's error.
pub fn single_stored(result: &Result<(), String>) -> (r: LogWsResponse)
    ensures
        match result {
            Ok(()) => r.status@ == "ok"@ && r.count == 1 && r.message@ == "日志已接收"@,
            Err(e) => error_reply(r, "写入日志失败: "@ + e@),
        },
{
    proof {
        reveal_strlit("ok");
        reveal_strlit("error");
        reveal_strlit("日志已接收");
    }
    match result {
        Ok(()) => LogWsResponse { status: "ok".to_owned(), message: "日志已接收".to_owned(), count: 1 },
        Err(e) => LogWsResponse { status: "error".to_owned(), message: concat2("写入日志失败: ", e.as_str()), count: 0 },
    }
}

/// The answer to a message that is no JSON, with the parser's error.
pub fn invalid_json_reply(error: &str) -> (r: LogWsResponse)
    ensures
        error_reply(r, "无效的 JSON: "@ + error@),
{
    proof { reveal_strlit("error"); }
    LogWsResponse { status: "error".to_owned(), message: concat2("无效的 JSON: ", error), count: 0 }
}

} // verus!
