//! Object metadata as the storage layer records it, write-ahead-log
//! records, and the directory prefix under which statistics are grouped.

use vstd::prelude::*;

verus! {

/// Metadata kept beside every stored value. Timestamps are RFC 3339 text
/// and tags are JSON text, exactly as the metadata database stores them.
#[derive(Debug, Clone)]
pub struct ObjectMeta {
    pub key: String,
    pub size: u64,
    pub created_at: String,
    pub updated_at: String,
    pub content_type: Option<String>,
    pub tags: Option<String>,
    /// SHA-256 checksum of the value, when known.
    pub checksum: Option<String>,
    /// Node that stores the value, in a cluster.
    pub storage_node: Option<String>,
}

/// A write-ahead-log record used for crash recovery.
#[derive(Debug, Clone)]
pub struct WalEntry {
    pub key: String,
    /// "put" or "delete".
    pub op_type: String,
    pub meta_json: Option<String>,
}

/// Position of the first '/' in `s`, if any.
pub open spec fn first_slash(s: Seq<char>) -> Option<int> {
    if exists|i: int| 0 <= i < s.len() && s[i] == '/' {
        Some(choose|i: int| 0 <= i < s.len() && s[i] == '/' && forall|j: int| 0 <= j < i ==> s[j] != '/')
    } else {
        None
    }
}

/// The part of a key up to and including its first '/', if it has one.
pub open spec fn key_prefix(key: Seq<char>) -> Option<Seq<char>> {
    match first_slash(key) {
        Some(i) => Some(key.subrange(0, i + 1)),
        None => None,
    }
}

/// The directory prefix of `key`: everything up to and including its first
/// '/', or `None` for a key without one ("15/123/456.png" gives "15/").
pub fn extract_prefix(key: &str) -> (r: Option<String>)
    ensures
        match r {
            Some(p) => key_prefix(key@) == Some(p@),
            None => key_prefix(key@) is None,
        },
{
    let n = key.unicode_len();
    let mut i: usize = 0;
    while i < n
        invariant
            n == key@.len(),
            i <= n,
            forall|j: int| 0 <= j < i ==> key@[j] != '/',
        decreases n - i,
    {
        if key.get_char(i) == '/' {
            let ghost w = choose|w: int| 0 <= w < key@.len() && key@[w] == '/' && forall|j: int| 0 <= j < w ==> key@[j] != '/';
            assert(0 <= i < key@.len() && key@[i as int] == '/' && forall|j: int| 0 <= j < i ==> key@[j] != '/');
            assert(w == i as int) by {
                if w < i {
                } else if w > i {
                }
            }
            return Some(key.substring_char(0, i + 1).to_owned());
        }
        i = i + 1;
    }
    None
}

} // verus!
