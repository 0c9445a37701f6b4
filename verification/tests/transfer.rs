use base64::engine::general_purpose::STANDARD;
use base64::Engine;
use store_system::error::StoreError;
use store_system::meta::ObjectMeta;
use store_system::transfer::{
    batch_items_for_worker, decode_http_batch, get_failure, get_response, http_batch_objects, http_batch_request,
    internal_failure, list_response, meta_from_fields, meta_from_response, meta_response, not_found_failure,
    pending_ack, pull_step, put_failure, put_meta_at, put_payload, put_response, put_tags, pulled_object_meta,
    unhandled_failure, value_from_base64, value_from_field, worker_base_url, worker_failure, worker_get_response,
    worker_ws_address, worker_ws_url, ws_batch_objects, ws_batch_request, ws_delete_reply, ws_exists_reply,
    ws_get_reply, ws_invalid_request, ws_metas_reply, ws_put_object, ws_put_reply, ws_put_request, ws_store_failure,
    BatchItem, MetaFields, ObjectMetaResponse, PullStep, PutPayload, WsData, WsResponse,
};

const NOW: &str = "2024-06-01T08:00:00+00:00";

fn meta(key: &str) -> ObjectMeta {
    ObjectMeta {
        key: key.to_string(),
        size: 5,
        created_at: NOW.to_string(),
        updated_at: NOW.to_string(),
        content_type: Some("text/plain".to_string()),
        tags: Some("{\"a\":1}".to_string()),
        checksum: None,
        storage_node: None,
    }
}

fn item(key: &str, value: &str) -> BatchItem {
    BatchItem { key: key.to_string(), value: value.to_string(), content_type: None, tags: None }
}

#[test]
fn read_response_value_decodes_to_stored_bytes() {
    for v in [vec![], b"hello".to_vec(), vec![0u8, 255, 1, 2, 3, 4, 5], (0..=255).collect::<Vec<u8>>()] {
        let r = get_response(&v, &meta("k"));
        assert_eq!(r.value, STANDARD.encode(&v));
        assert_eq!(value_from_base64(&r.value).unwrap(), v);
        assert_eq!(r.meta.key, "k");
    }
    assert_eq!(get_response(&b"hello".to_vec(), &meta("k")).value, "aGVsbG8=");
}

#[test]
fn response_records_show_metadata() {
    let r = meta_response(&meta("x"));
    assert_eq!((r.key.as_str(), r.size, r.created_at.as_str()), ("x", 5, NOW));
    assert_eq!(r.tags.as_deref(), Some("{\"a\":1}"));
    assert_eq!(put_response(&meta("y")).meta.key, "y");
    let l = list_response(&vec![meta("a"), meta("b")]);
    assert_eq!(l.metas.iter().map(|m| m.key.as_str()).collect::<Vec<_>>(), vec!["a", "b"]);
}

#[test]
fn http_refusals() {
    let f = put_failure(&StoreError::InvalidArgument("x".to_string()));
    assert_eq!((f.status, f.message.as_str()), (400, "Invalid argument"));
    let f = put_failure(&StoreError::IoError("x".to_string()));
    assert_eq!((f.status, f.message.as_str()), (500, "Internal server error"));
    let f = get_failure(&StoreError::KeyNotFound("k".to_string()));
    assert_eq!((f.status, f.message.as_str()), (404, "Key not found"));
    let f = get_failure(&StoreError::MetaError("m".to_string()));
    assert_eq!(f.status, 500);
    assert_eq!(internal_failure().status, 500);
    assert_eq!(unhandled_failure().message, "Internal Server Error");
    let f = worker_failure(&StoreError::KvError("disk".to_string()));
    assert_eq!((f.status, f.message.as_str()), (500, "KV database error: disk"));
    assert_eq!(not_found_failure().status, 404);
}

#[test]
fn put_tags_are_compacted_or_refused() {
    assert!(matches!(put_tags(&None), Ok(None)));
    assert_eq!(put_tags(&Some("{ \"z\": [1, 2] }".to_string())).unwrap().as_deref(), Some("{\"z\":[1,2]}"));
    let f = put_tags(&Some("{bad".to_string())).unwrap_err();
    assert_eq!((f.status, f.message.as_str()), (400, "Invalid tags JSON"));
}

#[test]
fn http_batch_decoding() {
    let ok = decode_http_batch(vec![item("a", "aGk="), item("b", "")]).unwrap();
    assert_eq!(ok[0].0, "a");
    assert_eq!(ok[0].1, b"hi".to_vec());
    assert!(ok[1].1.is_empty());
    let f = decode_http_batch(vec![item("a", "aGk="), item("b", "!!!")]).unwrap_err();
    assert_eq!((f.status, f.message.as_str()), (400, "Invalid base64 value"));
    let objs = http_batch_objects(vec![item("a", "aGk=")], NOW).unwrap();
    assert_eq!(objs[0].2.size, 2);
    assert_eq!(objs[0].2.created_at, NOW);
    let objs = http_batch_request(vec![item("a", "aGk="), item("b", "aGVsbG8=")]).unwrap();
    assert_eq!(objs[0].2.created_at, objs[1].2.created_at);
    assert_eq!(objs[1].2.size, 5);
    assert!(http_batch_request(vec![item("x", "@")]).is_err());
}

fn error_text(r: &WsResponse) -> &str {
    match r {
        WsResponse::Error { message } => message.as_str(),
        other => panic!("expected an error, got {:?}", other),
    }
}

#[test]
fn websocket_puts() {
    let p = PutPayload { key: "k".to_string(), value: "aGVsbG8=".to_string(), content_type: None, tags: Some("[1]".to_string()) };
    let (v, m) = ws_put_object(&p, NOW).unwrap();
    assert_eq!(v, b"hello".to_vec());
    assert_eq!((m.size, m.created_at.as_str(), m.updated_at.as_str()), (5, NOW, NOW));
    assert_eq!(m.tags.as_deref(), Some("[1]"));
    let (_, m2) = ws_put_request(&p).unwrap();
    assert_eq!(m2.created_at, m2.updated_at);
    let bad = PutPayload { value: "%%".to_string(), ..p.clone() };
    let e = ws_put_object(&bad, NOW).unwrap_err();
    let expect = format!("Base64 解码失败: {}", STANDARD.decode("%%").unwrap_err());
    assert_eq!(error_text(&e), expect);
    let objs = ws_batch_objects(&vec![item("a", "aGk="), item("b", "aGVsbG8=")], NOW).unwrap();
    assert_eq!(objs.iter().map(|o| o.2.size).collect::<Vec<_>>(), vec![2, 5]);
    let e = ws_batch_objects(&vec![item("a", "aGk="), item("b", "*"), item("c", "#")], NOW).unwrap_err();
    assert_eq!(error_text(&e), format!("Base64 解码失败: {}", STANDARD.decode("*").unwrap_err()));
    assert_eq!(ws_batch_request(&vec![item("a", "")]).unwrap().len(), 1);
}

#[test]
fn websocket_replies() {
    assert_eq!(error_text(&ws_invalid_request("eof")), "无效的请求格式: eof");
    assert_eq!(error_text(&ws_store_failure(&StoreError::KeyNotFound("k".to_string()))), "Key not found: k");
    assert_eq!(error_text(&ws_get_reply(&None)), "Key not found");
    match ws_get_reply(&Some((b"hi".to_vec(), Some(meta("k"))))) {
        WsResponse::Data { data: WsData::Value { meta: Some(m), value } } => {
            assert_eq!(value, "aGk=");
            assert_eq!(m.key, "k");
        },
        other => panic!("unexpected {:?}", other),
    }
    assert!(matches!(ws_get_reply(&Some((vec![], None))), WsResponse::Data { data: WsData::Value { meta: None, .. } }));
    assert!(matches!(ws_put_reply(&meta("k")), WsResponse::Data { data: WsData::Meta(_) }));
    assert!(matches!(ws_delete_reply(), WsResponse::Data { data: WsData::Success }));
    assert!(matches!(ws_exists_reply(true), WsResponse::Data { data: WsData::Exists(true) }));
    match ws_metas_reply(&vec![meta("a")]) {
        WsResponse::Data { data: WsData::Metas(ms) } => assert_eq!(ms.len(), 1),
        other => panic!("unexpected {:?}", other),
    }
}

fn fields() -> MetaFields {
    MetaFields {
        key: Some("k".to_string()),
        size: Some(9),
        created_at: Some("2024-06-01T10:00:00+02:00".to_string()),
        updated_at: Some("2024-06-01T08:00:00Z".to_string()),
        content_type: None,
        tags: Some("{\"t\":true}".to_string()),
    }
}

fn invalid(r: Result<ObjectMeta, StoreError>) -> String {
    match r {
        Err(StoreError::InvalidArgument(m)) => m,
        other => panic!("unexpected {:?}", other),
    }
}

#[test]
fn worker_answers_read_by_the_master() {
    let m = meta_from_fields(&fields()).unwrap();
    assert_eq!((m.key.as_str(), m.size, m.created_at.as_str(), m.updated_at.as_str()), ("k", 9, NOW, NOW));
    assert_eq!(meta_from_fields(&MetaFields { size: None, ..fields() }).unwrap().size, 0);
    assert_eq!(invalid(meta_from_fields(&MetaFields { key: None, ..fields() })), "响应缺少 key 字段");
    assert_eq!(invalid(meta_from_fields(&MetaFields { created_at: None, ..fields() })), "响应缺少 created_at 字段");
    assert_eq!(invalid(meta_from_fields(&MetaFields { updated_at: None, ..fields() })), "响应缺少 updated_at 字段");
    assert!(invalid(meta_from_fields(&MetaFields { created_at: Some("x".to_string()), ..fields() }))
        .starts_with("created_at 时间解析失败: "));
    assert!(invalid(meta_from_fields(&MetaFields { updated_at: Some("x".to_string()), ..fields() }))
        .starts_with("updated_at 时间解析失败: "));

    let r = ObjectMetaResponse {
        key: "k".to_string(),
        size: 1,
        created_at: "2024-06-01T08:00:00Z".to_string(),
        updated_at: "2024-06-01T09:00:00+01:00".to_string(),
        content_type: Some("a/b".to_string()),
        tags: None,
    };
    let m = meta_from_response(&r).unwrap();
    assert_eq!((m.created_at.as_str(), m.updated_at.as_str()), (NOW, NOW));
    assert!(invalid(meta_from_response(&ObjectMetaResponse { created_at: "?".to_string(), ..r.clone() })).starts_with("时间解析失败: "));

    assert_eq!(value_from_field(&Some("aGk=".to_string())).unwrap(), b"hi".to_vec());
    match value_from_field(&None) {
        Err(StoreError::InvalidArgument(m)) => assert_eq!(m, "响应缺少 value 字段"),
        other => panic!("unexpected {:?}", other),
    }
    match value_from_base64("~") {
        Err(StoreError::InvalidArgument(m)) => assert!(m.starts_with("Base64 解码失败: ")),
        other => panic!("unexpected {:?}", other),
    }
}

#[test]
fn worker_addresses() {
    assert_eq!(worker_base_url("10.0.0.1:8081"), "http://10.0.0.1:8081/objects");
    assert_eq!(worker_base_url("https://w"), "https://w/objects");
    assert_eq!(worker_ws_address("ws://w:1"), "w:1");
    assert_eq!(worker_ws_address("wss://w:1"), "w:1");
    assert_eq!(worker_ws_url("w:1"), "ws://w:1/");
}

#[test]
fn master_sends_values_in_base64() {
    let p = put_payload("k", &b"hello".to_vec(), Some("t/p"), Some("{ \"a\" : 1 }"));
    assert_eq!(p.value, "aGVsbG8=");
    assert_eq!(p.tags.as_deref(), Some("{\"a\":1}"));
    assert_eq!(p.content_type.as_deref(), Some("t/p"));
    let p = put_payload("k", &vec![], None, Some("not json"));
    assert_eq!(p.tags, None);
    let items = batch_items_for_worker(vec![("a".to_string(), vec![1, 2, 3], None, Some("{}".to_string()))]);
    assert_eq!(items[0].value, STANDARD.encode([1u8, 2, 3]));
    assert_eq!(items[0].tags.as_deref(), Some("{}"));
}

#[test]
fn pending_pull_steps() {
    match pull_step("pending_entry", &Some("k".to_string()), &Some("aGk=".to_string())).unwrap() {
        PullStep::Store { key, value } => {
            assert_eq!(key, "k");
            assert_eq!(value, b"hi".to_vec());
        },
        other => panic!("unexpected {:?}", other),
    }
    match pull_step("pending_entry", &None, &None).unwrap() {
        PullStep::Store { key, value } => assert!(key.is_empty() && value.is_empty()),
        other => panic!("unexpected {:?}", other),
    }
    assert!(pull_step("pending_entry", &Some("k".to_string()), &Some("!".to_string())).is_err());
    assert!(matches!(pull_step("pending_end", &None, &None), Ok(PullStep::Stop)));
    assert!(matches!(pull_step("other", &None, &Some("!".to_string())), Ok(PullStep::Skip)));
    let a = pending_ack("k", "2", &Ok(()));
    assert_eq!((a.status.as_str(), a.error.clone()), ("ok", None));
    let a = pending_ack("k", "2", &Err(StoreError::IoError("full".to_string())));
    assert_eq!((a.status.as_str(), a.error.as_deref()), ("fail", Some("IO error: full")));
    let m = pulled_object_meta("k", 3, NOW);
    assert_eq!((m.size, m.created_at.as_str(), m.content_type.clone()), (3, NOW, None));
    let m = put_meta_at("k", 4, Some("c".to_string()), None, NOW);
    assert_eq!((m.size, m.updated_at.as_str()), (4, NOW));
}

#[test]
fn worker_read_answer() {
    let r = worker_get_response(&b"hi".to_vec(), &None);
    assert_eq!(r.value, "aGk=");
    assert!(r.meta.is_none());
    let r = worker_get_response(&vec![], &Some(meta("k")));
    assert_eq!(r.meta.unwrap().key, "k");
}
