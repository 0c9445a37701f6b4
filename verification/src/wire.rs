//! Object metadata as it travels between nodes: times as RFC 3339 text,
//! content type and tags as text that is empty when absent.

use crate::error::StoreError;
use crate::meta::ObjectMeta;
use crate::store::{copy_string, opt_view};
use crate::text::concat2;
use vstd::prelude::*;

verus! {

/// What chrono makes of an RFC 3339 time: the same instant as UTC RFC 3339
/// text, or the text of its parse error.
pub uninterp spec fn rfc3339_as_utc(s: Seq<char>) -> Result<Seq<char>, Seq<char>>;

/// `chrono::DateTime::parse_from_rfc3339`, the time then shifted to UTC and
/// written back with `to_rfc3339`, or the parse error's text; named by
/// `rfc3339_as_utc`.
#[verifier::external_body]
pub(crate) fn utc_rfc3339(s: &str) -> (r: Result<String, String>)
    ensures
        match r {
            Ok(t) => rfc3339_as_utc(s@) == Ok::<Seq<char>, Seq<char>>(t@),
            Err(e) => rfc3339_as_utc(s@) == Err::<Seq<char>, Seq<char>>(e@),
        },
{
    match chrono::DateTime::parse_from_rfc3339(s) {
        Ok(dt) => Ok(dt.with_timezone(&chrono::Utc).to_rfc3339()),
        Err(e) => Err(e.to_string()),
    }
}

/// What serde_json makes of a JSON text: the value written back compactly,
/// or the text of its parse error.
pub uninterp spec fn json_compact(s: Seq<char>) -> Result<Seq<char>, Seq<char>>;

/// `serde_json::from_str` into a `serde_json::Value`, written back with
/// `to_string`, or the parse error's text; named by `json_compact`.
#[verifier::external_body]
pub(crate) fn compact_json(s: &str) -> (r: Result<String, String>)
    ensures
        match r {
            Ok(t) => json_compact(s@) == Ok::<Seq<char>, Seq<char>>(t@),
            Err(e) => json_compact(s@) == Err::<Seq<char>, Seq<char>>(e@),
        },
{
    match serde_json::from_str::<serde_json::Value>(s) {
        Ok(v) => Ok(v.to_string()),
        Err(e) => Err(e.to_string()),
    }
}

/// Metadata on the wire.
#[derive(Debug, Clone)]
pub struct WireMeta {
    pub key: String,
    pub size: u64,
    pub created_at: String,
    pub updated_at: String,
    /// Empty when there is none.
    pub content_type: String,
    /// JSON text, empty when there are none.
    pub tags: String,
}

/// Optional text read from the wire: none when empty.
pub open spec fn non_empty(s: Seq<char>) -> Option<Seq<char>> {
    if s.len() == 0 {
        None
    } else {
        Some(s)
    }
}

/// The tags a wire text holds: none when empty, else the JSON value in
/// compact form, or the parse error's text.
pub open spec fn wire_tags(s: Seq<char>) -> Result<Option<Seq<char>>, Seq<char>> {
    if s.len() == 0 {
        Ok(None)
    } else {
        match json_compact(s) {
            Ok(t) => Ok(Some(t)),
            Err(e) => Err(e),
        }
    }
}

/// Reads tags from the wire: none when empty, else their JSON in compact
/// form; text that is no JSON gives the parser's error text.
pub fn tags_from_wire(tags: &str) -> (r: Result<Option<String>, String>)
    ensures
        match r {
            Ok(t) => wire_tags(tags@) == Ok::<Option<Seq<char>>, Seq<char>>(opt_view(t)),
            Err(e) => wire_tags(tags@) == Err::<Option<Seq<char>>, Seq<char>>(e@),
        },
{
    if tags.unicode_len() == 0 {
        return Ok(None);
    }
    match compact_json(tags) {
        Ok(t) => Ok(Some(t)),
        Err(e) => Err(e),
    }
}

/// Whether `m` is the metadata `w` stands for: its times taken to UTC,
/// empty content type and tags taken as none, tags in compact JSON, no
/// checksum and no node.
pub open spec fn meta_of_wire(m: ObjectMeta, w: WireMeta) -> bool {
    &&& m.key@ == w.key@
    &&& m.size == w.size
    &&& rfc3339_as_utc(w.created_at@) == Ok::<Seq<char>, Seq<char>>(m.created_at@)
    &&& rfc3339_as_utc(w.updated_at@) == Ok::<Seq<char>, Seq<char>>(m.updated_at@)
    &&& opt_view(m.content_type) == non_empty(w.content_type@)
    &&& wire_tags(w.tags@) == Ok::<Option<Seq<char>>, Seq<char>>(opt_view(m.tags))
    &&& m.checksum is None
    &&& m.storage_node is None
}

/// The error text `object_meta_from_wire` gives for `w`, if any: a time
/// that does not parse (creation first), then tags that do not parse.
pub open spec fn wire_error(w: WireMeta) -> Option<Seq<char>> {
    match rfc3339_as_utc(w.created_at@) {
        Err(e) => Some("时间解析失败: "@ + e),
        Ok(_) => match rfc3339_as_utc(w.updated_at@) {
            Err(e) => Some("时间解析失败: "@ + e),
            Ok(_) => match wire_tags(w.tags@) {
                Err(e) => Some("Tags 解析失败: "@ + e),
                Ok(_) => None,
            },
        },
    }
}

/// Metadata received from another node; a time or tags that do not parse
/// are refused with the parser's message.
pub fn object_meta_from_wire(w: &WireMeta) -> (r: Result<ObjectMeta, StoreError>)
    ensures
        match r {
            Ok(m) => wire_error(*w) is None && meta_of_wire(m, *w),
            Err(e) => wire_error(*w) matches Some(msg) && (e matches StoreError::InvalidArgument(t) && t@ == msg),
        },
{
    let created = match utc_rfc3339(w.created_at.as_str()) {
        Ok(t) => t,
        Err(e) => return Err(StoreError::InvalidArgument(concat2("时间解析失败: ", e.as_str()))),
    };
    let updated = match utc_rfc3339(w.updated_at.as_str()) {
        Ok(t) => t,
        Err(e) => return Err(StoreError::InvalidArgument(concat2("时间解析失败: ", e.as_str()))),
    };
    let tags = match tags_from_wire(w.tags.as_str()) {
        Ok(t) => t,
        Err(e) => return Err(StoreError::InvalidArgument(concat2("Tags 解析失败: ", e.as_str()))),
    };
    let content_type = if w.content_type.as_str().unicode_len() == 0 {
        None
    } else {
        Some(copy_string(&w.content_type))
    };
    Ok(ObjectMeta {
        key: copy_string(&w.key),
        size: w.size,
        created_at: created,
        updated_at: updated,
        content_type,
        tags,
        checksum: None,
        storage_node: None,
    })
}

/// Metadata as it is sent to another node: absent content type and tags
/// as empty text.
pub fn object_meta_to_wire(m: &ObjectMeta) -> (w: WireMeta)
    ensures
        w.key@ == m.key@,
        w.size == m.size,
        w.created_at@ == m.created_at@,
        w.updated_at@ == m.updated_at@,
        w.content_type@ == (match m.content_type {
            Some(c) => c@,
            None => Seq::empty(),
        }),
        w.tags@ == (match m.tags {
            Some(t) => t@,
            None => Seq::empty(),
        }),
{
    WireMeta {
        key: copy_string(&m.key),
        size: m.size,
        created_at: copy_string(&m.created_at),
        updated_at: copy_string(&m.updated_at),
        content_type: match &m.content_type {
            Some(c) => copy_string(c),
            None => String::new(),
        },
        tags: match &m.tags {
            Some(t) => copy_string(t),
            None => String::new(),
        },
    }
}

} // verus!
