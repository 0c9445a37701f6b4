//! Objects on the wire of the HTTP and WebSocket interfaces: values travel
//! as standard base64 text and metadata as response records. This module
//! holds the decisions of the request handlers between a request and the
//! store, and those of the master's clients that read a worker's answers.

use crate::api::{DeletePayload, ExistsPayload, GetPayload, ListPayload};
use crate::error::StoreError;
use crate::meta::ObjectMeta;
use crate::store::{copy_opt_string, copy_string, opt_view};
use crate::text::concat2;
use crate::wire::{compact_json, json_compact};
use base64::engine::general_purpose;
use base64::Engine;
use vstd::prelude::*;

verus! {

/// The text `base64`'s standard engine (standard alphabet, padded) writes
/// for a byte string.
pub uninterp spec fn base64_text(bytes: Seq<u8>) -> Seq<char>;

/// What `base64`'s standard engine reads from a text: the bytes, or the
/// text of its decode error.
pub uninterp spec fn base64_decoded(text: Seq<char>) -> Result<Seq<u8>, Seq<char>>;

/// Whether the base64 text `text` decodes to `bytes`.
pub open spec fn decodes_to(text: Seq<char>, bytes: Seq<u8>) -> bool {
    base64_decoded(text) == Ok::<Seq<u8>, Seq<char>>(bytes)
}

/// `general_purpose::STANDARD.encode`: the base64 text of `bytes`, which
/// the same engine decodes back to `bytes`. The length bound is that of
/// any slice; the engine refuses longer input when sizing its buffer.
#[verifier::external_body]
fn encode_base64(bytes: &[u8]) -> (s: String)
    requires
        bytes@.len() <= isize::MAX,
    ensures
        s@ == base64_text(bytes@),
        decodes_to(s@, bytes@),
{
    general_purpose::STANDARD.encode(bytes)
}

/// `general_purpose::STANDARD.decode`: the bytes `text` encodes, or the
/// display text of the decode error.
#[verifier::external_body]
fn decode_base64(text: &str) -> (r: Result<Vec<u8>, String>)
    ensures
        match r {
            Ok(v) => decodes_to(text@, v@),
            Err(e) => base64_decoded(text@) == Err::<Seq<u8>, Seq<char>>(e@),
        },
{
    match general_purpose::STANDARD.decode(text) {
        Ok(v) => Ok(v),
        Err(e) => Err(e.to_string()),
    }
}

/// Object metadata in a response; tags are JSON text.
#[derive(Debug, Clone)]
pub struct ObjectMetaResponse {
    pub key: String,
    pub size: u64,
    pub created_at: String,
    pub updated_at: String,
    pub content_type: Option<String>,
    pub tags: Option<String>,
}

/// Whether `r` shows the metadata `m`.
pub open spec fn shows_meta(r: ObjectMetaResponse, m: ObjectMeta) -> bool {
    &&& r.key@ == m.key@
    &&& r.size == m.size
    &&& r.created_at@ == m.created_at@
    &&& r.updated_at@ == m.updated_at@
    &&& opt_view(r.content_type) == opt_view(m.content_type)
    &&& opt_view(r.tags) == opt_view(m.tags)
}

/// The response record of a metadata record.
pub fn meta_response(m: &ObjectMeta) -> (r: ObjectMetaResponse)
    ensures
        shows_meta(r, *m),
{
    ObjectMetaResponse {
        key: copy_string(&m.key),
        size: m.size,
        created_at: copy_string(&m.created_at),
        updated_at: copy_string(&m.updated_at),
        content_type: copy_opt_string(&m.content_type),
        tags: copy_opt_string(&m.tags),
    }
}

/// Answer to a put.
#[derive(Debug, Clone)]
pub struct PutResponse {
    pub meta: ObjectMetaResponse,
}

/// Answer to a read: the metadata and the value in base64.
#[derive(Debug, Clone)]
pub struct GetResponse {
    pub meta: ObjectMetaResponse,
    pub value: String,
}

/// Answer to a listing or a batch put.
#[derive(Debug, Clone)]
pub struct ListResponse {
    pub metas: Vec<ObjectMetaResponse>,
}

/// The answer to a put that recorded `m`.
pub fn put_response(m: &ObjectMeta) -> (r: PutResponse)
    ensures
        shows_meta(r.meta, *m),
{
    PutResponse { meta: meta_response(m) }
}

/// The answer to a read of `value` with metadata `meta`: the value travels
/// as base64 text that decodes back to it.
pub fn get_response(value: &Vec<u8>, meta: &ObjectMeta) -> (r: GetResponse)
    requires
        value@.len() <= isize::MAX,
    ensures
        shows_meta(r.meta, *meta),
        r.value@ == base64_text(value@),
        decodes_to(r.value@, value@),
{
    GetResponse { meta: meta_response(meta), value: encode_base64(value.as_slice()) }
}

/// The response records of `metas`, in order.
pub fn meta_responses(metas: &Vec<ObjectMeta>) -> (r: Vec<ObjectMetaResponse>)
    ensures
        r@.len() == metas@.len(),
        forall|i: int| 0 <= i < metas@.len() ==> shows_meta(#[trigger] r@[i], metas@[i]),
{
    let mut r: Vec<ObjectMetaResponse> = Vec::new();
    let mut i: usize = 0;
    while i < metas.len()
        invariant
            i <= metas@.len(),
            r@.len() == i,
            forall|j: int| 0 <= j < i ==> shows_meta(#[trigger] r@[j], metas@[j]),
        decreases metas@.len() - i,
    {
        r.push(meta_response(&metas[i]));
        i = i + 1;
    }
    r
}

/// The answer to a listing or a batch put of `metas`.
pub fn list_response(metas: &Vec<ObjectMeta>) -> (r: ListResponse)
    ensures
        r.metas@.len() == metas@.len(),
        forall|i: int| 0 <= i < metas@.len() ==> shows_meta(#[trigger] r.metas@[i], metas@[i]),
{
    ListResponse { metas: meta_responses(metas) }
}

/// A refused HTTP request: its status code and the error text of its body.
#[derive(Debug, Clone)]
pub struct HttpFailure {
    pub status: u16,
    pub message: String,
}

/// Whether `f` is a refusal with `status` and `message`.
pub open spec fn failure_is(f: HttpFailure, status: u16, message: Seq<char>) -> bool {
    f.status == status && f.message@ == message
}

/// The refusal of a put the store failed: a bad argument is the client's
/// error (400), anything else the server's (500).
pub fn put_failure(e: &StoreError) -> (f: HttpFailure)
    ensures
        *e is InvalidArgument ==> failure_is(f, 400, "Invalid argument"@),
        !(*e is InvalidArgument) ==> failure_is(f, 500, "Internal server error"@),
{
    proof {
        reveal_strlit("Invalid argument");
        reveal_strlit("Internal server error");
    }
    match e {
        StoreError::InvalidArgument(_) => HttpFailure { status: 400, message: "Invalid argument".to_owned() },
        _ => HttpFailure { status: 500, message: "Internal server error".to_owned() },
    }
}

/// The refusal of a read the store failed: an unknown key is 404, anything
/// else 500.
pub fn get_failure(e: &StoreError) -> (f: HttpFailure)
    ensures
        *e is KeyNotFound ==> failure_is(f, 404, "Key not found"@),
        !(*e is KeyNotFound) ==> failure_is(f, 500, "Internal server error"@),
{
    proof {
        reveal_strlit("Key not found");
        reveal_strlit("Internal server error");
    }
    match e {
        StoreError::KeyNotFound(_) => HttpFailure { status: 404, message: "Key not found".to_owned() },
        _ => HttpFailure { status: 500, message: "Internal server error".to_owned() },
    }
}

/// The refusal of a delete, an existence check, a listing or a batch put
/// the store failed.
pub fn internal_failure() -> (f: HttpFailure)
    ensures
        failure_is(f, 500, "Internal server error"@),
{
    proof { reveal_strlit("Internal server error"); }
    HttpFailure { status: 500, message: "Internal server error".to_owned() }
}

/// The answer to a rejection no handler produced.
pub fn unhandled_failure() -> (f: HttpFailure)
    ensures
        failure_is(f, 500, "Internal Server Error"@),
{
    proof { reveal_strlit("Internal Server Error"); }
    HttpFailure { status: 500, message: "Internal Server Error".to_owned() }
}

/// The tags of a put's query: none when absent, else their JSON in compact
/// form; text that is no JSON is refused with 400.
pub fn put_tags(tags: &Option<String>) -> (r: Result<Option<String>, HttpFailure>)
    ensures
        match tags {
            None => r matches Ok(None),
            Some(t) => match json_compact(t@) {
                Ok(c) => r matches Ok(Some(s)) && s@ == c,
                Err(_) => r matches Err(f) && failure_is(f, 400, "Invalid tags JSON"@),
            },
        },
{
    proof { reveal_strlit("Invalid tags JSON"); }
    match tags {
        None => Ok(None),
        Some(t) => match compact_json(t.as_str()) {
            Ok(c) => Ok(Some(c)),
            Err(_) => Err(HttpFailure { status: 400, message: "Invalid tags JSON".to_owned() }),
        },
    }
}

/// One object of a batch put; the value is base64 text, tags are JSON text.
#[derive(Debug, Clone)]
pub struct BatchItem {
    pub key: String,
    pub value: String,
    pub content_type: Option<String>,
    pub tags: Option<String>,
}

/// Whether every value of a batch is valid base64.
pub open spec fn batch_decodes(items: Seq<BatchItem>) -> bool {
    forall|i: int| 0 <= i < items.len() ==> (#[trigger] base64_decoded(items[i].value@)) is Ok
}

/// Whether `out` is `item` with its value decoded.
pub open spec fn decoded_item(out: (String, Vec<u8>, Option<String>, Option<String>), item: BatchItem) -> bool {
    &&& out.0@ == item.key@
    &&& decodes_to(item.value@, out.1@)
    &&& opt_view(out.2) == opt_view(item.content_type)
    &&& opt_view(out.3) == opt_view(item.tags)
}

/// The objects of a batch put with their values decoded, in order; a value
/// that is no valid base64 refuses the whole batch with 400.
pub fn decode_http_batch(items: Vec<BatchItem>) -> (r: Result<Vec<(String, Vec<u8>, Option<String>, Option<String>)>, HttpFailure>)
    ensures
        r is Ok <==> batch_decodes(items@),
        r matches Ok(out) ==> out@.len() == items@.len() && forall|i: int| 0 <= i < items@.len() ==> decoded_item(#[trigger] out@[i], items@[i]),
        r matches Err(f) ==> failure_is(f, 400, "Invalid base64 value"@),
{
    proof { reveal_strlit("Invalid base64 value"); }
    let mut out: Vec<(String, Vec<u8>, Option<String>, Option<String>)> = Vec::new();
    let mut i: usize = 0;
    while i < items.len()
        invariant
            i <= items@.len(),
            out@.len() == i,
            forall|j: int| 0 <= j < i ==> decoded_item(#[trigger] out@[j], items@[j]),
            forall|j: int| 0 <= j < i ==> (#[trigger] base64_decoded(items@[j].value@)) is Ok,
        decreases items@.len() - i,
    {
        let item = &items[i];
        match decode_base64(item.value.as_str()) {
            Ok(v) => {
                out.push((copy_string(&item.key), v, copy_opt_string(&item.content_type), copy_opt_string(&item.tags)));
            },
            Err(_) => {
                assert(!batch_decodes(items@)) by {
                    assert(!(base64_decoded(items@[i as int].value@) is Ok));
                }
                return Err(HttpFailure { status: 400, message: "Invalid base64 value".to_owned() });
            },
        }
        i = i + 1;
    }
    Ok(out)
}


/// A put over WebSocket; the value is base64 text, tags are JSON text.
#[derive(Debug, Clone)]
pub struct PutPayload {
    pub key: String,
    pub value: String,
    pub content_type: Option<String>,
    pub tags: Option<String>,
}

/// A batch put over WebSocket.
#[derive(Debug, Clone)]
pub struct PutBatchPayload {
    pub items: Vec<BatchItem>,
}

/// A request of the WebSocket interface.
#[derive(Debug, Clone)]
pub enum WsRequest {
    Put(PutPayload),
    Get(GetPayload),
    Delete(DeletePayload),
    Exists(ExistsPayload),
    List(ListPayload),
    PutBatch(PutBatchPayload),
}

/// What a successful WebSocket request answers.
#[derive(Debug, Clone)]
pub enum WsData {
    /// The metadata a put recorded.
    Meta(ObjectMetaResponse),
    /// A value read, in base64, with its metadata when known.
    Value { meta: Option<ObjectMetaResponse>, value: String },
    /// A delete went through.
    Success,
    /// Whether a key exists.
    Exists(bool),
    /// The metadata of a listing or of a batch put.
    Metas(Vec<ObjectMetaResponse>),
}

/// The answer to a WebSocket request.
#[derive(Debug, Clone)]
pub enum WsResponse {
    Data { data: WsData },
    Error { message: String },
}

/// Whether `r` is an error answer with `message`.
pub open spec fn ws_error_is(r: WsResponse, message: Seq<char>) -> bool {
    r matches WsResponse::Error { message: m } && m@ == message
}

/// The answer to a message that is no valid request.
pub fn ws_invalid_request(error: &str) -> (r: WsResponse)
    ensures
        ws_error_is(r, "无效的请求格式: "@ + error@),
{
    WsResponse::Error { message: concat2("无效的请求格式: ", error) }
}

/// The answer to a request the store failed: the error's message.
pub fn ws_store_failure(e: &StoreError) -> (r: WsResponse)
    ensures
        ws_error_is(r, crate::error::error_message(*e)),
{
    WsResponse::Error { message: e.to_string() }
}

/// The object a WebSocket put writes at `now`: the decoded value and the
/// metadata of a fresh value; a value that is no valid base64 is answered
/// with the decoder's error.
pub fn ws_put_object(payload: &PutPayload, now: &str) -> (r: Result<(Vec<u8>, ObjectMeta), WsResponse>)
    ensures
        match base64_decoded(payload.value@) {
            Ok(bytes) => r matches Ok((v, m)) && v@ == bytes
                && crate::store::fresh_meta(m, payload.key@, bytes.len(), now@, opt_view(payload.content_type), opt_view(payload.tags)),
            Err(e) => r matches Err(rep) && ws_error_is(rep, "Base64 解码失败: "@ + e),
        },
{
    match decode_base64(payload.value.as_str()) {
        Ok(v) => {
            let meta = ObjectMeta {
                key: copy_string(&payload.key),
                size: v.len() as u64,
                created_at: now.to_owned(),
                updated_at: now.to_owned(),
                content_type: copy_opt_string(&payload.content_type),
                tags: copy_opt_string(&payload.tags),
                checksum: None,
                storage_node: None,
            };
            Ok((v, meta))
        },
        Err(e) => Err(WsResponse::Error { message: concat2("Base64 解码失败: ", e.as_str()) }),
    }
}

/// The error of the first value of a batch that is no valid base64, if any.
pub open spec fn first_decode_error(items: Seq<BatchItem>) -> Option<Seq<char>>
    decreases items.len(),
{
    if items.len() == 0 {
        None
    } else {
        match base64_decoded(items[0].value@) {
            Err(e) => Some(e),
            Ok(_) => first_decode_error(items.drop_first()),
        }
    }
}

/// Whether `out` is the object a batch item writes at `now`.
pub open spec fn written_item(out: (String, Vec<u8>, ObjectMeta), item: BatchItem, now: Seq<char>) -> bool {
    &&& out.0@ == item.key@
    &&& decodes_to(item.value@, out.1@)
    &&& crate::store::fresh_meta(out.2, item.key@, out.1@.len(), now, opt_view(item.content_type), opt_view(item.tags))
}

/// The objects a WebSocket batch put writes at `now`, in order; the first
/// value that is no valid base64 refuses the batch with the decoder's error.
pub fn ws_batch_objects(items: &Vec<BatchItem>, now: &str) -> (r: Result<Vec<(String, Vec<u8>, ObjectMeta)>, WsResponse>)
    ensures
        match first_decode_error(items@) {
            None => r matches Ok(out) && out@.len() == items@.len()
                && forall|i: int| 0 <= i < items@.len() ==> written_item(#[trigger] out@[i], items@[i], now@),
            Some(e) => r matches Err(rep) && ws_error_is(rep, "Base64 解码失败: "@ + e),
        },
{
    let mut out: Vec<(String, Vec<u8>, ObjectMeta)> = Vec::new();
    let mut i: usize = 0;
    assert(items@.skip(0) =~= items@);
    while i < items.len()
        invariant
            i <= items@.len(),
            out@.len() == i,
            forall|j: int| 0 <= j < i ==> written_item(#[trigger] out@[j], items@[j], now@),
            first_decode_error(items@) == first_decode_error(items@.skip(i as int)),
        decreases items@.len() - i,
    {
        let item = &items[i];
        assert(items@.skip(i as int)[0] == items@[i as int]);
        assert(items@.skip(i as int).drop_first() =~= items@.skip(i + 1));
        match decode_base64(item.value.as_str()) {
            Ok(v) => {
                let meta = ObjectMeta {
                    key: copy_string(&item.key),
                    size: v.len() as u64,
                    created_at: now.to_owned(),
                    updated_at: now.to_owned(),
                    content_type: copy_opt_string(&item.content_type),
                    tags: copy_opt_string(&item.tags),
                    checksum: None,
                    storage_node: None,
                };
                out.push((copy_string(&item.key), v, meta));
            },
            Err(e) => {
                return Err(WsResponse::Error { message: concat2("Base64 解码失败: ", e.as_str()) });
            },
        }
        i = i + 1;
    }
    assert(items@.skip(i as int) =~= Seq::<BatchItem>::empty());
    Ok(out)
}

/// The answer to a put that recorded `meta`.
pub fn ws_put_reply(meta: &ObjectMeta) -> (r: WsResponse)
    ensures
        r matches WsResponse::Data { data: WsData::Meta(m) } && shows_meta(m, *meta),
{
    WsResponse::Data { data: WsData::Meta(meta_response(meta)) }
}

/// The answer to a read: an unknown key is an error "Key not found";
/// otherwise the value in base64, which decodes back to it, with its
/// metadata when known.
pub fn ws_get_reply(found: &Option<(Vec<u8>, Option<ObjectMeta>)>) -> (r: WsResponse)
    requires
        *found matches Some((v, _)) ==> v@.len() <= isize::MAX,
    ensures
        match *found {
            None => ws_error_is(r, "Key not found"@),
            Some((v, m)) => r matches WsResponse::Data { data: WsData::Value { meta, value } } && {
                &&& value@ == base64_text(v@)
                &&& decodes_to(value@, v@)
                &&& match (m, meta) {
                    (Some(a), Some(b)) => shows_meta(b, a),
                    (None, None) => true,
                    _ => false,
                }
            },
        },
{
    proof { reveal_strlit("Key not found"); }
    match found {
        None => WsResponse::Error { message: "Key not found".to_owned() },
        Some((v, m)) => {
            let meta = match m {
                Some(x) => Some(meta_response(x)),
                None => None,
            };
            WsResponse::Data { data: WsData::Value { meta, value: encode_base64(v.as_slice()) } }
        },
    }
}

/// The answer to a delete that went through.
pub fn ws_delete_reply() -> (r: WsResponse)
    ensures
        r matches WsResponse::Data { data: WsData::Success },
{
    WsResponse::Data { data: WsData::Success }
}

/// The answer to an existence check.
pub fn ws_exists_reply(exists: bool) -> (r: WsResponse)
    ensures
        r matches WsResponse::Data { data: WsData::Exists(b) } && b == exists,
{
    WsResponse::Data { data: WsData::Exists(exists) }
}

/// The answer to a listing or a batch put of `metas`.
pub fn ws_metas_reply(metas: &Vec<ObjectMeta>) -> (r: WsResponse)
    ensures
        r matches WsResponse::Data { data: WsData::Metas(ms) } && ms@.len() == metas@.len()
            && forall|i: int| 0 <= i < metas@.len() ==> shows_meta(#[trigger] ms@[i], metas@[i]),
{
    WsResponse::Data { data: WsData::Metas(meta_responses(metas)) }
}

/// The object a WebSocket put writes, stamped with the current time.
pub fn ws_put_request(payload: &PutPayload) -> (r: Result<(Vec<u8>, ObjectMeta), WsResponse>)
    ensures
        match base64_decoded(payload.value@) {
            Ok(bytes) => r matches Ok((v, m)) && v@ == bytes
                && crate::store::fresh_meta(m, payload.key@, bytes.len(), m.created_at@, opt_view(payload.content_type), opt_view(payload.tags)),
            Err(e) => r matches Err(rep) && ws_error_is(rep, "Base64 解码失败: "@ + e),
        },
{
    let now = crate::store::now_rfc3339();
    ws_put_object(payload, now.as_str())
}

/// Whether `out` are the objects the batch `items` writes at `now`.
pub open spec fn batch_written(out: Seq<(String, Vec<u8>, ObjectMeta)>, items: Seq<BatchItem>, now: Seq<char>) -> bool {
    out.len() == items.len() && forall|i: int| 0 <= i < items.len() ==> written_item(#[trigger] out[i], items[i], now)
}

/// The objects a WebSocket batch put writes, all stamped with the same
/// current time.
pub fn ws_batch_request(items: &Vec<BatchItem>) -> (r: Result<Vec<(String, Vec<u8>, ObjectMeta)>, WsResponse>)
    ensures
        match first_decode_error(items@) {
            None => r matches Ok(out) && exists|now: Seq<char>| #[trigger] batch_written(out@, items@, now),
            Some(e) => r matches Err(rep) && ws_error_is(rep, "Base64 解码失败: "@ + e),
        },
{
    let now = crate::store::now_rfc3339();
    let r = ws_batch_objects(items, now.as_str());
    proof {
        if first_decode_error(items@) is None {
            let ghost t = now@;
            assert(r matches Ok(out) && batch_written(out@, items@, t));
        }
    }
    r
}

/// The metadata fields the master reads from a worker's WebSocket answer:
/// each one that the answer holds with the right JSON type, tags as JSON
/// text when they are not null.
#[derive(Debug, Clone)]
pub struct MetaFields {
    pub key: Option<String>,
    pub size: Option<u64>,
    pub created_at: Option<String>,
    pub updated_at: Option<String>,
    pub content_type: Option<String>,
    pub tags: Option<String>,
}

/// The error `meta_from_fields` gives for `f`, if any: a missing key, then
/// a missing or unreadable creation time, then the same for the update time.
pub open spec fn fields_error(f: MetaFields) -> Option<Seq<char>> {
    match f.key {
        None => Some("响应缺少 key 字段"@),
        Some(_) => match f.created_at {
            None => Some("响应缺少 created_at 字段"@),
            Some(c) => match crate::wire::rfc3339_as_utc(c@) {
                Err(e) => Some("created_at 时间解析失败: "@ + e),
                Ok(_) => match f.updated_at {
                    None => Some("响应缺少 updated_at 字段"@),
                    Some(u) => match crate::wire::rfc3339_as_utc(u@) {
                        Err(e) => Some("updated_at 时间解析失败: "@ + e),
                        Ok(_) => None,
                    },
                },
            },
        },
    }
}

/// Whether `m` is the metadata the fields `f` describe: times in UTC, a
/// missing size read as 0, no checksum and no node.
pub open spec fn meta_of_fields(m: ObjectMeta, f: MetaFields) -> bool {
    &&& Some(m.key@) == opt_view(f.key)
    &&& m.size == (match f.size {
        Some(n) => n,
        None => 0,
    })
    &&& (f.created_at matches Some(c) && crate::wire::rfc3339_as_utc(c@) == Ok::<Seq<char>, Seq<char>>(m.created_at@))
    &&& (f.updated_at matches Some(u) && crate::wire::rfc3339_as_utc(u@) == Ok::<Seq<char>, Seq<char>>(m.updated_at@))
    &&& opt_view(m.content_type) == opt_view(f.content_type)
    &&& opt_view(m.tags) == opt_view(f.tags)
    &&& m.checksum is None
    &&& m.storage_node is None
}

/// The metadata a worker's WebSocket answer describes; a missing field or
/// an unreadable time is refused with a message naming it.
pub fn meta_from_fields(f: &MetaFields) -> (r: Result<ObjectMeta, StoreError>)
    ensures
        match r {
            Ok(m) => fields_error(*f) is None && meta_of_fields(m, *f),
            Err(e) => fields_error(*f) matches Some(msg) && (e matches StoreError::InvalidArgument(t) && t@ == msg),
        },
{
    proof {
        reveal_strlit("响应缺少 key 字段");
        reveal_strlit("响应缺少 created_at 字段");
        reveal_strlit("响应缺少 updated_at 字段");
    }
    let key = match &f.key {
        Some(k) => copy_string(k),
        None => return Err(StoreError::InvalidArgument("响应缺少 key 字段".to_owned())),
    };
    let created_at = match &f.created_at {
        Some(c) => match crate::wire::utc_rfc3339(c.as_str()) {
            Ok(t) => t,
            Err(e) => return Err(StoreError::InvalidArgument(concat2("created_at 时间解析失败: ", e.as_str()))),
        },
        None => return Err(StoreError::InvalidArgument("响应缺少 created_at 字段".to_owned())),
    };
    let updated_at = match &f.updated_at {
        Some(u) => match crate::wire::utc_rfc3339(u.as_str()) {
            Ok(t) => t,
            Err(e) => return Err(StoreError::InvalidArgument(concat2("updated_at 时间解析失败: ", e.as_str()))),
        },
        None => return Err(StoreError::InvalidArgument("响应缺少 updated_at 字段".to_owned())),
    };
    let size: u64 = match f.size {
        Some(n) => n,
        None => 0,
    };
    Ok(ObjectMeta {
        key,
        size,
        created_at,
        updated_at,
        content_type: copy_opt_string(&f.content_type),
        tags: copy_opt_string(&f.tags),
        checksum: None,
        storage_node: None,
    })
}

/// The error `meta_from_response` gives for `r`, if any.
pub open spec fn response_error(r: ObjectMetaResponse) -> Option<Seq<char>> {
    match crate::wire::rfc3339_as_utc(r.created_at@) {
        Err(e) => Some("时间解析失败: "@ + e),
        Ok(_) => match crate::wire::rfc3339_as_utc(r.updated_at@) {
            Err(e) => Some("时间解析失败: "@ + e),
            Ok(_) => None,
        },
    }
}

/// The metadata a worker's HTTP answer describes, times in UTC; an
/// unreadable time is refused with the parser's message.
pub fn meta_from_response(r: &ObjectMetaResponse) -> (out: Result<ObjectMeta, StoreError>)
    ensures
        match out {
            Ok(m) => response_error(*r) is None && {
                &&& m.key@ == r.key@
                &&& m.size == r.size
                &&& crate::wire::rfc3339_as_utc(r.created_at@) == Ok::<Seq<char>, Seq<char>>(m.created_at@)
                &&& crate::wire::rfc3339_as_utc(r.updated_at@) == Ok::<Seq<char>, Seq<char>>(m.updated_at@)
                &&& opt_view(m.content_type) == opt_view(r.content_type)
                &&& opt_view(m.tags) == opt_view(r.tags)
                &&& m.checksum is None
                &&& m.storage_node is None
            },
            Err(e) => response_error(*r) matches Some(msg) && (e matches StoreError::InvalidArgument(t) && t@ == msg),
        },
{
    let created_at = match crate::wire::utc_rfc3339(r.created_at.as_str()) {
        Ok(t) => t,
        Err(e) => return Err(StoreError::InvalidArgument(concat2("时间解析失败: ", e.as_str()))),
    };
    let updated_at = match crate::wire::utc_rfc3339(r.updated_at.as_str()) {
        Ok(t) => t,
        Err(e) => return Err(StoreError::InvalidArgument(concat2("时间解析失败: ", e.as_str()))),
    };
    Ok(ObjectMeta {
        key: copy_string(&r.key),
        size: r.size,
        created_at,
        updated_at,
        content_type: copy_opt_string(&r.content_type),
        tags: copy_opt_string(&r.tags),
        checksum: None,
        storage_node: None,
    })
}

/// The value a worker's answer carries in base64; text that is no valid
/// base64 is refused with the decoder's message.
pub fn value_from_base64(text: &str) -> (r: Result<Vec<u8>, StoreError>)
    ensures
        match base64_decoded(text@) {
            Ok(bytes) => r matches Ok(v) && v@ == bytes,
            Err(e) => r matches Err(StoreError::InvalidArgument(t)) && t@ == "Base64 解码失败: "@ + e,
        },
{
    match decode_base64(text) {
        Ok(v) => Ok(v),
        Err(e) => Err(StoreError::InvalidArgument(concat2("Base64 解码失败: ", e.as_str()))),
    }
}

/// The value of a worker's WebSocket read answer: its `value` field, which
/// must be there, decoded from base64.
pub fn value_from_field(value: &Option<String>) -> (r: Result<Vec<u8>, StoreError>)
    ensures
        match *value {
            None => r matches Err(StoreError::InvalidArgument(t)) && t@ == "响应缺少 value 字段"@,
            Some(text) => match base64_decoded(text@) {
                Ok(bytes) => r matches Ok(v) && v@ == bytes,
                Err(e) => r matches Err(StoreError::InvalidArgument(t)) && t@ == "Base64 解码失败: "@ + e,
            },
        },
{
    proof { reveal_strlit("响应缺少 value 字段"); }
    match value {
        Some(text) => value_from_base64(text.as_str()),
        None => Err(StoreError::InvalidArgument("响应缺少 value 字段".to_owned())),
    }
}

/// The base URL of a worker's object interface: the address with
/// "http://" in front unless it starts with "http", then "/objects".
pub fn worker_base_url(address: &str) -> (u: String)
    ensures
        u@ == (if crate::text::is_prefix("http"@, address@) { address@ } else { "http://"@ + address@ }) + "/objects"@,
{
    if crate::text::starts_with(address, "http") {
        concat2(address, "/objects")
    } else {
        crate::text::concat3("http://", address, "/objects")
    }
}

/// A worker's WebSocket address as the master keeps it: a leading "ws://"
/// and then "wss://" dropped.
pub fn worker_ws_address(address: &str) -> (a: String)
    ensures
        a@ == crate::text::trim_start_all(crate::text::trim_start_all(address@, "ws://"@), "wss://"@),
{
    let t = crate::text::trim_start_matches(address, "ws://");
    crate::text::trim_start_matches(t.as_str(), "wss://")
}

/// The URL the master connects to for a worker's WebSocket address.
pub fn worker_ws_url(address: &str) -> (u: String)
    ensures
        u@ == "ws://"@ + address@ + "/"@,
{
    crate::text::concat3("ws://", address, "/")
}

/// The tags the master sends with a put: their JSON in compact form, or
/// none when they are absent or no JSON.
pub open spec fn sent_tags(tags: Option<Seq<char>>) -> Option<Seq<char>> {
    match tags {
        Some(t) => match json_compact(t) {
            Ok(c) => Some(c),
            Err(_) => None,
        },
        None => None,
    }
}

/// The WebSocket put the master sends to a worker.
pub fn put_payload(key: &str, value: &Vec<u8>, content_type: Option<&str>, tags: Option<&str>) -> (p: PutPayload)
    requires
        value@.len() <= isize::MAX,
    ensures
        p.key@ == key@,
        p.value@ == base64_text(value@),
        decodes_to(p.value@, value@),
        opt_view(p.content_type) == (match content_type {
            Some(c) => Some(c@),
            None => None,
        }),
        opt_view(p.tags) == sent_tags(match tags {
            Some(t) => Some(t@),
            None => None,
        }),
{
    let t = match tags {
        Some(t) => match compact_json(t) {
            Ok(c) => Some(c),
            Err(_) => None,
        },
        None => None,
    };
    PutPayload {
        key: key.to_owned(),
        value: encode_base64(value.as_slice()),
        content_type: match content_type {
            Some(c) => Some(c.to_owned()),
            None => None,
        },
        tags: t,
    }
}

/// The batch items the master sends to a worker, values in base64, in order.
pub fn batch_items_for_worker(items: Vec<(String, Vec<u8>, Option<String>, Option<String>)>) -> (r: Vec<BatchItem>)
    requires
        forall|i: int| 0 <= i < items@.len() ==> (#[trigger] items@[i]).1@.len() <= isize::MAX,
    ensures
        r@.len() == items@.len(),
        forall|i: int| 0 <= i < items@.len() ==> {
            &&& (#[trigger] r@[i]).key@ == items@[i].0@
            &&& r@[i].value@ == base64_text(items@[i].1@)
            &&& decodes_to(r@[i].value@, items@[i].1@)
            &&& opt_view(r@[i].content_type) == opt_view(items@[i].2)
            &&& opt_view(r@[i].tags) == opt_view(items@[i].3)
        },
{
    let mut r: Vec<BatchItem> = Vec::new();
    let mut i: usize = 0;
    while i < items.len()
        invariant
            i <= items@.len(),
            r@.len() == i,
            forall|j: int| 0 <= j < items@.len() ==> (#[trigger] items@[j]).1@.len() <= isize::MAX,
            forall|j: int| 0 <= j < i ==> {
                &&& (#[trigger] r@[j]).key@ == items@[j].0@
                &&& r@[j].value@ == base64_text(items@[j].1@)
                &&& decodes_to(r@[j].value@, items@[j].1@)
                &&& opt_view(r@[j].content_type) == opt_view(items@[j].2)
                &&& opt_view(r@[j].tags) == opt_view(items@[j].3)
            },
        decreases items@.len() - i,
    {
        let it = &items[i];
        assert(it.1@.len() <= isize::MAX);
        r.push(BatchItem {
            key: copy_string(&it.0),
            value: encode_base64(it.1.as_slice()),
            content_type: copy_opt_string(&it.2),
            tags: copy_opt_string(&it.3),
        });
        i = i + 1;
    }
    r
}

/// What a worker does with one message while it takes back the writes the
/// master kept for its region.
#[derive(Debug, Clone)]
pub enum PullStep {
    /// Store this object.
    Store { key: String, value: Vec<u8> },
    /// The master has sent everything.
    Stop,
    /// Ignore the message.
    Skip,
}

/// The step for a message of type `kind` with the given `key` and base64
/// `value` fields (missing ones read as empty): "pending_entry" stores the
/// decoded value, "pending_end" stops, anything else is skipped; a value
/// that is no valid base64 ends the pull with the decoder's error.
pub fn pull_step(kind: &str, key: &Option<String>, value: &Option<String>) -> (r: Result<PullStep, String>)
    ensures
        kind@ == "pending_entry"@ ==> match base64_decoded(crate::log_intake::or_default(*value, Seq::empty())) {
            Ok(bytes) => r matches Ok(PullStep::Store { key: k, value: v })
                && k@ == crate::log_intake::or_default(*key, Seq::empty()) && v@ == bytes,
            Err(e) => r matches Err(t) && t@ == e,
        },
        kind@ == "pending_end"@ ==> r matches Ok(PullStep::Stop),
        kind@ != "pending_entry"@ && kind@ != "pending_end"@ ==> r matches Ok(PullStep::Skip),
{
    proof {
        reveal_strlit("pending_entry");
        reveal_strlit("pending_end");
        reveal_strlit("");
        assert(""@ =~= Seq::<char>::empty());
        assert("pending_entry"@[10] != "pending_end"@[10]);
    }
    if crate::text::str_eq(kind, "pending_entry") {
        let k = match key {
            Some(k) => copy_string(k),
            None => "".to_owned(),
        };
        let text = match value {
            Some(v) => copy_string(v),
            None => "".to_owned(),
        };
        match decode_base64(text.as_str()) {
            Ok(v) => Ok(PullStep::Store { key: k, value: v }),
            Err(e) => Err(e),
        }
    } else if crate::text::str_eq(kind, "pending_end") {
        Ok(PullStep::Stop)
    } else {
        Ok(PullStep::Skip)
    }
}

/// The acknowledgement a worker sends for one object it took back.
#[derive(Debug, Clone)]
pub struct PendingAck {
    pub key: String,
    pub region: String,
    /// "ok" or "fail".
    pub status: String,
    /// The store's error message when it failed.
    pub error: Option<String>,
}

/// The acknowledgement of storing `key` for `region` with `result`.
pub fn pending_ack(key: &str, region: &str, result: &Result<(), StoreError>) -> (a: PendingAck)
    ensures
        a.key@ == key@,
        a.region@ == region@,
        match *result {
            Ok(()) => a.status@ == "ok"@ && a.error is None,
            Err(e) => a.status@ == "fail"@ && opt_view(a.error) == Some(crate::error::error_message(e)),
        },
{
    proof {
        reveal_strlit("ok");
        reveal_strlit("fail");
    }
    match result {
        Ok(()) => PendingAck { key: key.to_owned(), region: region.to_owned(), status: "ok".to_owned(), error: None },
        Err(e) => PendingAck {
            key: key.to_owned(),
            region: region.to_owned(),
            status: "fail".to_owned(),
            error: Some(e.to_string()),
        },
    }
}

/// The metadata a worker records for an object it took back at `now`.
pub fn pulled_object_meta(key: &str, len: usize, now: &str) -> (m: ObjectMeta)
    ensures
        crate::store::fresh_meta(m, key@, len as nat, now@, None, None),
{
    ObjectMeta {
        key: key.to_owned(),
        size: len as u64,
        created_at: now.to_owned(),
        updated_at: now.to_owned(),
        content_type: None,
        tags: None,
        checksum: None,
        storage_node: None,
    }
}

/// The refusal of a request a worker's store failed: 500 with the error's
/// message.
pub fn worker_failure(e: &StoreError) -> (f: HttpFailure)
    ensures
        failure_is(f, 500, crate::error::error_message(*e)),
{
    HttpFailure { status: 500, message: e.to_string() }
}

/// The refusal of a read of a key a worker does not hold.
pub fn not_found_failure() -> (f: HttpFailure)
    ensures
        failure_is(f, 404, "Key not found"@),
{
    proof { reveal_strlit("Key not found"); }
    HttpFailure { status: 404, message: "Key not found".to_owned() }
}

/// A worker's answer to a read: the metadata when it has it, and the value
/// in base64.
#[derive(Debug, Clone)]
pub struct WorkerGetResponse {
    pub meta: Option<ObjectMetaResponse>,
    pub value: String,
}

/// A worker's answer to a read of `value` with metadata `meta`.
pub fn worker_get_response(value: &Vec<u8>, meta: &Option<ObjectMeta>) -> (r: WorkerGetResponse)
    requires
        value@.len() <= isize::MAX,
    ensures
        r.value@ == base64_text(value@),
        decodes_to(r.value@, value@),
        match (*meta, r.meta) {
            (Some(a), Some(b)) => shows_meta(b, a),
            (None, None) => true,
            _ => false,
        },
{
    let m = match meta {
        Some(x) => Some(meta_response(x)),
        None => None,
    };
    WorkerGetResponse { meta: m, value: encode_base64(value.as_slice()) }
}

/// The metadata a worker records for a put of `len` bytes at `now`.
pub fn put_meta_at(key: &str, len: usize, content_type: Option<String>, tags: Option<String>, now: &str) -> (m: ObjectMeta)
    ensures
        crate::store::fresh_meta(m, key@, len as nat, now@, opt_view(content_type), opt_view(tags)),
{
    ObjectMeta {
        key: key.to_owned(),
        size: len as u64,
        created_at: now.to_owned(),
        updated_at: now.to_owned(),
        content_type,
        tags,
        checksum: None,
        storage_node: None,
    }
}

/// The metadata a worker records for a put of `len` bytes, stamped with the
/// current time.
pub fn put_meta_now(key: &str, len: usize, content_type: Option<String>, tags: Option<String>) -> (m: ObjectMeta)
    ensures
        crate::store::fresh_meta(m, key@, len as nat, m.created_at@, opt_view(content_type), opt_view(tags)),
{
    let now = crate::store::now_rfc3339();
    put_meta_at(key, len, content_type, tags, now.as_str())
}

/// The objects a worker's HTTP batch put writes at `now`, in order; a value
/// that is no valid base64 refuses the whole batch with 400.
pub fn http_batch_objects(items: Vec<BatchItem>, now: &str) -> (r: Result<Vec<(String, Vec<u8>, ObjectMeta)>, HttpFailure>)
    ensures
        r is Ok <==> batch_decodes(items@),
        r matches Ok(out) ==> batch_written(out@, items@, now@),
        r matches Err(f) ==> failure_is(f, 400, "Invalid base64 value"@),
{
    let ghost its = items@;
    match decode_http_batch(items) {
        Err(f) => Err(f),
        Ok(decoded) => {
            let mut out: Vec<(String, Vec<u8>, ObjectMeta)> = Vec::new();
            let mut decoded = decoded;
            let ghost d0 = decoded@;
            let total = decoded.len();
            let mut n: usize = 0;
            while n < total
                invariant
                    total == d0.len(),
                    d0.len() == its.len(),
                    n <= total,
                    decoded@ == d0.skip(n as int),
                    forall|i: int| 0 <= i < its.len() ==> decoded_item(#[trigger] d0[i], its[i]),
                    out@.len() == n,
                    forall|i: int| 0 <= i < n ==> written_item(#[trigger] out@[i], its[i], now@),
                decreases total - n,
            {
                assert(d0.skip(n as int)[0] == d0[n as int]);
                let (key, value, content_type, tags) = decoded.remove(0);
                assert(decoded@ =~= d0.skip(n + 1));
                assert(decoded_item(d0[n as int], its[n as int]));
                let meta = put_meta_at(key.as_str(), value.len(), content_type, tags, now);
                out.push((key, value, meta));
                n = n + 1;
            }
            Ok(out)
        },
    }
}

/// The objects a worker's HTTP batch put writes, all stamped with the same
/// current time.
pub fn http_batch_request(items: Vec<BatchItem>) -> (r: Result<Vec<(String, Vec<u8>, ObjectMeta)>, HttpFailure>)
    ensures
        r is Ok <==> batch_decodes(items@),
        r matches Ok(out) ==> exists|now: Seq<char>| #[trigger] batch_written(out@, items@, now),
        r matches Err(f) ==> failure_is(f, 400, "Invalid base64 value"@),
{
    let ghost its = items@;
    let now = crate::store::now_rfc3339();
    let r = http_batch_objects(items, now.as_str());
    proof {
        if r is Ok {
            let ghost t = now@;
            assert(r matches Ok(out) && batch_written(out@, its, t));
        }
    }
    r
}

} // verus!
