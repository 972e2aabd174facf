use block_api::errors::ApiError;
use block_api::multipart::{collect, concat_chunks};
use block_api::options::{PutQuery, RmOptions};
use block_api::pipeline::{
    get_query, inner_put, rm_options, rm_query, stat_query, GetQuery, StatQuery,
};
use block_api::store::MemStore;

fn put_opts() -> PutQuery {
    PutQuery { format: None, mhtype: None, version: None }
}

fn multipart_body(boundary: &str, name: &str, payload: &[u8]) -> Vec<u8> {
    let mut v = Vec::new();
    v.extend_from_slice(
        format!("--{}\r\nContent-Disposition: form-data; name=\"{}\"\r\n\r\n", boundary, name)
            .as_bytes(),
    );
    v.extend_from_slice(payload);
    v.extend_from_slice(format!("\r\n--{}--\r\n", boundary).as_bytes());
    v
}

fn content_type(boundary: &str) -> String {
    format!("multipart/form-data; boundary={}", boundary)
}

fn key_of(response: &str) -> String {
    let v: serde_json::Value = serde_json::from_str(response).unwrap();
    v["Key"].as_str().unwrap().to_string()
}

fn put_bytes(store: &mut MemStore, payload: &[u8]) -> String {
    let body = multipart_body("XBOUND", "data", payload);
    let resp = inner_put(store, &put_opts(), &content_type("XBOUND"), &body).unwrap();
    key_of(&resp)
}

#[test]
fn put_response_reports_key_and_size() {
    let mut store = MemStore::new();
    let body = multipart_body("XBOUND", "data", b"hello world");
    let resp = inner_put(&mut store, &put_opts(), &content_type("XBOUND"), &body).unwrap();
    let v: serde_json::Value = serde_json::from_str(&resp).unwrap();
    assert_eq!(v["Size"], serde_json::Value::from(11u64));
    assert!(v["Key"].as_str().unwrap().starts_with("Qm"));
    assert_eq!(store.len(), 1);
}

#[test]
fn put_accepts_file_field_too() {
    let mut store = MemStore::new();
    let body = multipart_body("XBOUND", "file", b"via file field");
    assert!(inner_put(&mut store, &put_opts(), &content_type("XBOUND"), &body).is_ok());
    assert_eq!(store.len(), 1);
}

#[test]
fn put_skips_unaccepted_part() {
    let mut store = MemStore::new();
    let boundary = "XBOUND";
    let mut body = Vec::new();
    body.extend_from_slice(
        format!("--{b}\r\nContent-Disposition: form-data; name=\"other\"\r\n\r\nignored\r\n", b = boundary)
            .as_bytes(),
    );
    body.extend_from_slice(&multipart_body(boundary, "data", b"kept"));
    let resp = inner_put(&mut store, &put_opts(), &content_type(boundary), &body).unwrap();
    let key = key_of(&resp);
    let got = get_query(&store, &GetQuery { arg: key }).unwrap();
    assert_eq!(got, b"kept".to_vec());
}

#[test]
fn put_then_get_roundtrips_bytes() {
    let mut store = MemStore::new();
    let payload: Vec<u8> = (0u16..512).map(|i| (i % 251) as u8).collect();
    let key = put_bytes(&mut store, &payload);
    let got = get_query(&store, &GetQuery { arg: key }).unwrap();
    assert_eq!(got, payload);
}

#[test]
fn put_twice_is_idempotent() {
    let mut store = MemStore::new();
    let k1 = put_bytes(&mut store, b"same bytes");
    let k2 = put_bytes(&mut store, b"same bytes");
    assert_eq!(k1, k2);
    assert_eq!(store.len(), 1);
}

#[test]
fn oversized_payload_never_reaches_store() {
    let mut store = MemStore::new();
    let payload = vec![7u8; 1048576 + 1];
    let body = multipart_body("XBOUND", "data", &payload);
    let r = inner_put(&mut store, &put_opts(), &content_type("XBOUND"), &body);
    assert!(matches!(r, Err(ApiError::PayloadTooLarge)));
    assert_eq!(ApiError::PayloadTooLarge.message(), "payload too large");
    assert_eq!(store.len(), 0);
}

#[test]
fn payload_at_the_bound_is_accepted() {
    let mut store = MemStore::new();
    let payload = vec![7u8; 1048576];
    let body = multipart_body("XBOUND", "data", &payload);
    assert!(inner_put(&mut store, &put_opts(), &content_type("XBOUND"), &body).is_ok());
    assert_eq!(store.len(), 1);
}

#[test]
fn unknown_codec_rejected_before_body() {
    let mut store = MemStore::new();
    let opts = PutQuery { format: Some("git-raw".to_string()), mhtype: None, version: None };
    let body = multipart_body("XBOUND", "data", b"payload");
    let r = inner_put(&mut store, &opts, &content_type("XBOUND"), &body);
    assert!(matches!(r, Err(ApiError::UnknownCodec)));
    assert_eq!(store.len(), 0);
}

#[test]
fn unknown_hash_and_version_rejected_before_body() {
    let mut store = MemStore::new();
    let body = multipart_body("XBOUND", "data", b"payload");
    let opts = PutQuery { format: None, mhtype: Some("sha1".to_string()), version: None };
    assert!(matches!(
        inner_put(&mut store, &opts, &content_type("XBOUND"), &body),
        Err(ApiError::UnknownHash)
    ));
    let opts = PutQuery { format: None, mhtype: None, version: Some(9) };
    assert!(matches!(
        inner_put(&mut store, &opts, &content_type("XBOUND"), &body),
        Err(ApiError::InvalidVersion)
    ));
    assert_eq!(store.len(), 0);
}

#[test]
fn missing_boundary_is_refused() {
    let mut store = MemStore::new();
    let body = multipart_body("XBOUND", "data", b"payload");
    let r = inner_put(&mut store, &put_opts(), "text/plain", &body);
    assert!(matches!(r, Err(ApiError::MissingBoundary)));
    assert_eq!(ApiError::MissingBoundary.message(), "missing 'boundary' on content-type");
}

#[test]
fn missing_field_is_refused() {
    let mut store = MemStore::new();
    let body = multipart_body("XBOUND", "other", b"payload");
    let r = inner_put(&mut store, &put_opts(), &content_type("XBOUND"), &body);
    assert!(matches!(r, Err(ApiError::MissingMultipartField)));
    assert_eq!(ApiError::MissingMultipartField.message(), "missing required multipart field");
    assert_eq!(store.len(), 0);
}

#[test]
fn collect_works_on_concatenated_chunks() {
    let body = multipart_body("XBOUND", "data", b"chunked payload");
    let mid = body.len() / 2;
    let chunks = vec![body[..mid].to_vec(), body[mid..].to_vec()];
    let whole = concat_chunks(&chunks);
    assert_eq!(whole, body);
    let accepted = vec![b"data".to_vec(), b"file".to_vec()];
    let collected = collect(&accepted, 1048576, b"XBOUND", &whole).unwrap();
    assert_eq!(collected, b"chunked payload".to_vec());
}

#[test]
fn get_refuses_malformed_identifier() {
    let store = MemStore::new();
    let r = get_query(&store, &GetQuery { arg: "///".to_string() });
    assert!(matches!(r, Err(ApiError::InvalidCid)));
}

#[test]
fn get_reports_missing_block() {
    let mut store = MemStore::new();
    let key = put_bytes(&mut store, b"present");
    let mut other = MemStore::new();
    let _ = put_bytes(&mut other, b"elsewhere");
    let missing = put_bytes(&mut other, b"absent");
    assert!(get_query(&store, &GetQuery { arg: key }).is_ok());
    let r = get_query(&store, &GetQuery { arg: missing });
    assert!(matches!(r, Err(ApiError::NotFound)));
    assert_eq!(ApiError::NotFound.message(), "block not found");
}

#[test]
fn stat_echoes_arg_and_measures_size() {
    let mut store = MemStore::new();
    let key = put_bytes(&mut store, b"twelve bytes");
    let resp = stat_query(&store, &StatQuery { arg: key.clone() }).unwrap();
    assert_eq!(resp.key, key);
    assert_eq!(resp.size, 12);
    let json = resp.to_json();
    let v: serde_json::Value = serde_json::from_str(&json).unwrap();
    assert_eq!(v["Key"].as_str().unwrap(), key);
    assert_eq!(v["Size"], serde_json::Value::from(12u64));
}

#[test]
fn stat_refuses_malformed_identifier() {
    let store = MemStore::new();
    let r = stat_query(&store, &StatQuery { arg: "not-a-cid".to_string() });
    assert!(matches!(r, Err(ApiError::InvalidCid)));
}

#[test]
fn rm_preserves_input_order() {
    let mut store = MemStore::new();
    let ka = put_bytes(&mut store, b"block a");
    let kb = put_bytes(&mut store, b"block b");
    let kc = put_bytes(&mut store, b"block c");
    let options = RmOptions {
        args: vec![ka.clone(), kb.clone(), kc.clone()],
        force: false,
        quiet: false,
    };
    let lines = rm_query(&mut store, &options).unwrap();
    assert_eq!(lines.len(), 3);
    for (line, key) in lines.iter().zip([&ka, &kb, &kc]) {
        assert!(line.ends_with('\n'));
        let v: serde_json::Value = serde_json::from_str(line.trim_end()).unwrap();
        assert_eq!(v["Hash"].as_str().unwrap(), *key);
        assert_eq!(v["Error"].as_str().unwrap(), "");
    }
    assert_eq!(store.len(), 0);
}

#[test]
fn rm_reports_partial_failure_per_item() {
    let mut store = MemStore::new();
    let mut other = MemStore::new();
    let absent = put_bytes(&mut other, b"never stored here");
    let present = put_bytes(&mut store, b"stored here");
    let options = RmOptions {
        args: vec![absent.clone(), present.clone()],
        force: false,
        quiet: false,
    };
    let lines = rm_query(&mut store, &options).unwrap();
    assert_eq!(
        lines[0],
        format!("{{\"Error\":\"block not found\",\"Hash\":\"{}\"}}\n", absent)
    );
    assert_eq!(lines[1], format!("{{\"Error\":\"\",\"Hash\":\"{}\"}}\n", present));
    assert_eq!(store.len(), 0);
}

#[test]
fn rm_force_suppresses_error_text() {
    let mut store = MemStore::new();
    let mut other = MemStore::new();
    let absent = put_bytes(&mut other, b"only elsewhere");
    let options = RmOptions { args: vec![absent.clone()], force: true, quiet: false };
    let lines = rm_query(&mut store, &options).unwrap();
    assert_eq!(lines[0], format!("{{\"Error\":\"\",\"Hash\":\"{}\"}}\n", absent));
}

#[test]
fn rm_quiet_yields_one_empty_line_per_identifier() {
    let mut store = MemStore::new();
    let ka = put_bytes(&mut store, b"qa");
    let kb = put_bytes(&mut store, b"qb");
    let options = RmOptions { args: vec![ka, kb], force: false, quiet: true };
    let lines = rm_query(&mut store, &options).unwrap();
    assert_eq!(lines.len(), 2);
    assert!(lines.iter().all(|l| l.is_empty()));
    assert_eq!(store.len(), 0);
}

#[test]
fn rm_rejects_whole_batch_on_one_malformed_identifier() {
    let mut store = MemStore::new();
    let key = put_bytes(&mut store, b"survives");
    let options = RmOptions {
        args: vec![key.clone(), "broken!!".to_string()],
        force: false,
        quiet: false,
    };
    let r = rm_query(&mut store, &options);
    assert!(matches!(r, Err(ApiError::InvalidCid)));
    assert_eq!(store.len(), 1);
    assert!(get_query(&store, &GetQuery { arg: key }).is_ok());
}

#[test]
fn rm_duplicate_identifier_fails_second_time() {
    let mut store = MemStore::new();
    let key = put_bytes(&mut store, b"once");
    let options = RmOptions { args: vec![key.clone(), key.clone()], force: false, quiet: false };
    let lines = rm_query(&mut store, &options).unwrap();
    let first: serde_json::Value = serde_json::from_str(lines[0].trim_end()).unwrap();
    let second: serde_json::Value = serde_json::from_str(lines[1].trim_end()).unwrap();
    assert_eq!(first["Error"].as_str().unwrap(), "");
    assert_eq!(second["Error"].as_str().unwrap(), "block not found");
}

#[test]
fn rm_options_then_rm_query_work_together() {
    let mut store = MemStore::new();
    let key = put_bytes(&mut store, b"through the query string");
    let raw = format!("arg={}&quiet=false", key);
    let options = rm_options(&raw).unwrap();
    let lines = rm_query(&mut store, &options).unwrap();
    assert_eq!(lines.len(), 1);
    assert_eq!(store.len(), 0);
}
