//! The master's buffer for writes to regions without a reachable worker:
//! its records, the files of each region, and the status query.

use crate::logger::{joined, placeholders};
use crate::text::{concat3, path_join, join_path, texts, decimal_string};
use vstd::prelude::*;

verus! {

/// A write kept for a region until its worker takes it back.
#[derive(Debug, Clone, PartialEq, Eq)]
pub struct PendingEntry {
    pub key: String,
    pub size: u64,
    pub created_at: String,
    /// "pending", "flushing" or "done".
    pub status: String,
    /// Times the entry went back to pending after a stalled hand-over.
    pub attempt: u32,
}

/// The key-value and metadata files of `region` in `data_dir`:
/// "region_<r>.kv" and "region_<r>.meta".
pub fn region_paths(data_dir: &str, region: &str) -> (r: (String, String))
    ensures
        r.0@ == path_join(data_dir@, "region_"@ + region@ + ".kv"@),
        r.1@ == path_join(data_dir@, "region_"@ + region@ + ".meta"@),
{
    let kv = concat3("region_", region, ".kv");
    let meta = concat3("region_", region, ".meta");
    (join_path(data_dir, kv.as_str()), join_path(data_dir, meta.as_str()))
}

/// The statement selecting the entries whose status is one of `n`
/// statuses, bound to ?1 to ?n.
pub fn status_query(n: usize) -> (s: String)
    ensures
        s@ == "SELECT key, size, created_at, status, attempt FROM pending_entries WHERE status IN ("@
            + joined(placeholders(n as nat), ","@) + ")"@,
{
    let mut marks: Vec<String> = Vec::new();
    let mut i: usize = 0;
    proof { reveal_strlit("?"); }
    while i < n
        invariant
            i <= n,
            texts(marks@) == placeholders(i as nat),
        decreases n - i,
    {
        let ghost before = marks@;
        let d = decimal_string((i + 1) as u64);
        marks.push(crate::text::concat2("?", d.as_str()));
        assert(texts(marks@) =~= texts(before).push("?"@ + crate::text::decimal((i + 1) as nat)));
        i = i + 1;
    }
    let body = crate::logger::join_texts(&marks, ",");
    concat3("SELECT key, size, created_at, status, attempt FROM pending_entries WHERE status IN (", body.as_str(), ")")
}

} // verus!
