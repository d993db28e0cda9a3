use rustfox::client::{
    append_chunk, apply_auth, build_payload, describe_http_error, find_header, has_header,
    named_headers, parse_set_cookie, prepare_request, source_chain, CookieData, HttpErrorInfo,
    HttpResponseData, Payload, DEFAULT_TIMEOUT_MS,
};
use rustfox::model::{ApiKeyLocation, AppError, AuthSpec, BodySpec, KeyValue, RequestSpec};

fn disabled(key: &str, value: &str) -> KeyValue {
    let mut kv = KeyValue::new(key, value);
    kv.enabled = false;
    kv
}

#[test]
fn payload_builds_correctly() {
    let spec = RequestSpec {
        body: BodySpec::UrlEncoded {
            fields: vec![KeyValue::new("a", "1"), KeyValue::new("b", "x y"), disabled("off", "z")],
        },
        ..Default::default()
    };
    let payload = build_payload(&spec);
    match payload {
        Payload::Bytes(body, ct) => {
            assert_eq!(ct, Some("application/x-www-form-urlencoded"));
            assert_eq!(String::from_utf8(body).unwrap(), "a=1&b=x+y");
        }
        _ => panic!("期望 UrlEncoded payload"),
    }
}

#[test]
fn payload_for_each_body_kind() {
    let json = RequestSpec { body: BodySpec::Json { raw: "{\"a\":1}".into() }, ..Default::default() };
    assert!(matches!(build_payload(&json), Payload::Bytes(b, Some("application/json")) if b == b"{\"a\":1}"));
    let text = RequestSpec { body: BodySpec::Text { raw: "hi".into() }, ..Default::default() };
    assert!(matches!(build_payload(&text), Payload::Bytes(b, Some("text/plain")) if b == b"hi"));
    let none = RequestSpec::default();
    assert!(matches!(build_payload(&none), Payload::NoBody));
    let multi = RequestSpec { body: BodySpec::Multipart { fields: vec![KeyValue::new("f", "v")] }, ..Default::default() };
    assert!(matches!(build_payload(&multi), Payload::NoBody));
}

#[test]
fn auth_api_key_query_appends() {
    let mut headers = Vec::new();
    let mut query = Vec::new();
    apply_auth(
        &mut headers,
        &mut query,
        &AuthSpec::ApiKey { key: "apikey".into(), value: "secret".into(), location: ApiKeyLocation::Query },
    );
    assert!(headers.is_empty());
    assert_eq!(query.len(), 1);
    assert_eq!(query[0].key, "apikey");
    assert_eq!(query[0].value, "secret");
}

#[test]
fn auth_headers_per_kind() {
    let mut headers = Vec::new();
    let mut query = Vec::new();
    apply_auth(&mut headers, &mut query, &AuthSpec::Basic { username: "u".into(), password: "p".into() });
    assert_eq!(headers, vec![("Authorization".to_string(), "Basic dTpw".to_string())]);
    apply_auth(&mut headers, &mut query, &AuthSpec::Bearer { token: "tok".into() });
    assert_eq!(headers[1], ("Authorization".to_string(), "Bearer tok".to_string()));
    apply_auth(&mut headers, &mut query, &AuthSpec::Bearer { token: String::new() });
    apply_auth(
        &mut headers,
        &mut query,
        &AuthSpec::ApiKey { key: "X-Key".into(), value: "v".into(), location: ApiKeyLocation::Header },
    );
    assert_eq!(headers.len(), 3);
    assert_eq!(headers[2], ("X-Key".to_string(), "v".to_string()));
    apply_auth(
        &mut headers,
        &mut query,
        &AuthSpec::ApiKey { key: String::new(), value: "v".into(), location: ApiKeyLocation::Header },
    );
    apply_auth(&mut headers, &mut query, &AuthSpec::NoAuth);
    assert_eq!(headers.len(), 3);
    assert!(query.is_empty());
}

#[test]
fn prepared_get_carries_enabled_query() {
    let spec = RequestSpec {
        params: vec![KeyValue::new("a", "1"), KeyValue::new("b", "hello"), disabled("off", "x")],
        ..Default::default()
    };
    let p = prepare_request("http://127.0.0.1:8080/echo", &spec, None).unwrap();
    assert_eq!(p.url, "http://127.0.0.1:8080/echo?a=1&b=hello");
    assert!(p.body.is_none());
    assert!(p.headers.is_empty());
    assert_eq!(p.timeout_ms, DEFAULT_TIMEOUT_MS);
}

#[test]
fn prepared_post_json_sets_content_type() {
    let spec = RequestSpec { body: BodySpec::Json { raw: "{\"a\":1}".into() }, ..Default::default() };
    let p = prepare_request("http://h/data", &spec, Some(5000)).unwrap();
    assert_eq!(p.headers, vec![("content-type".to_string(), "application/json".to_string())]);
    assert_eq!(p.body.as_deref(), Some(&b"{\"a\":1}"[..]));
    assert_eq!(p.timeout_ms, 5000);
}

#[test]
fn prepared_request_keeps_explicit_content_type() {
    let spec = RequestSpec {
        headers: vec![KeyValue::new(" Content-Type ", "application/vnd.x+json"), KeyValue::new("", "dropped")],
        body: BodySpec::Json { raw: "{}".into() },
        ..Default::default()
    };
    let p = prepare_request("http://h/", &spec, None).unwrap();
    assert_eq!(p.headers, vec![("Content-Type".to_string(), "application/vnd.x+json".to_string())]);
}

#[test]
fn prepared_basic_auth_and_query_key() {
    let spec = RequestSpec {
        params: vec![KeyValue::new("q", "rust fox")],
        auth: AuthSpec::ApiKey { key: "k".into(), value: "v".into(), location: ApiKeyLocation::Query },
        ..Default::default()
    };
    let p = prepare_request("http://h/s", &spec, None).unwrap();
    assert_eq!(p.url, "http://h/s?q=rust+fox&k=v");
    let spec = RequestSpec {
        auth: AuthSpec::Basic { username: "u".into(), password: "p".into() },
        body: BodySpec::UrlEncoded { fields: vec![KeyValue::new("k", "v")] },
        ..Default::default()
    };
    let p = prepare_request("http://h/form", &spec, None).unwrap();
    assert_eq!(
        p.headers,
        vec![
            ("Authorization".to_string(), "Basic dTpw".to_string()),
            ("content-type".to_string(), "application/x-www-form-urlencoded".to_string()),
        ]
    );
    assert_eq!(p.body.as_deref(), Some(&b"k=v"[..]));
}

#[test]
fn invalid_url_is_a_validation_error() {
    let spec = RequestSpec::default();
    match prepare_request("not a url", &spec, None) {
        Err(AppError::Validation(m)) => assert!(m.starts_with("URL 无效：")),
        _ => panic!("应当拒绝无效 URL"),
    }
}

#[test]
fn headers_found_ignoring_case() {
    let hs = vec![("Content-Type".to_string(), "text/html".to_string()), ("content-type".to_string(), "x".to_string())];
    assert_eq!(find_header(&hs, "CONTENT-TYPE").as_deref(), Some("text/html"));
    assert!(find_header(&hs, "accept").is_none());
    assert!(has_header(&vec![(" Accept ".to_string(), "*/*".to_string())], "accept"));
    assert!(!has_header(&hs, "accept"));
    let named = named_headers(&vec![("".to_string(), "a".to_string()), ("B".to_string(), "b".to_string())]);
    assert_eq!(named, vec![("B".to_string(), "b".to_string())]);
}

#[test]
fn response_text_and_content_type() {
    let resp = HttpResponseData {
        status: 200,
        headers: vec![("Content-Type".to_string(), "application/json".to_string())],
        body: "{\"ok\":true}".as_bytes().to_vec(),
        duration_ms: 3,
        size_bytes: 11,
        cookies: Vec::new(),
        truncated: false,
    };
    assert_eq!(resp.body_text(), "{\"ok\":true}");
    assert_eq!(resp.content_type(), "application/json");
    let bad = HttpResponseData { body: vec![0x66, 0xff, 0x6f], headers: Vec::new(), ..resp };
    assert_eq!(bad.body_text(), "f\u{fffd}o");
    assert_eq!(bad.content_type(), "");
}

#[test]
fn set_cookie_values_parsed() {
    let c: CookieData = parse_set_cookie("session=abc123; Path=/; HttpOnly").unwrap();
    assert_eq!(c.name, "session");
    assert_eq!(c.value, "abc123");
    let c = parse_set_cookie("  a=b=c ").unwrap();
    assert_eq!((c.name.as_str(), c.value.as_str()), ("a", "b=c"));
    assert!(parse_set_cookie("novalue; Path=/").is_none());
}

#[test]
fn chunks_cut_at_limit() {
    let mut body = b"abc".to_vec();
    assert!(!append_chunk(&mut body, b"de", 10));
    assert_eq!(body, b"abcde");
    assert!(append_chunk(&mut body, b"fghijkl", 8));
    assert_eq!(body, b"abcdefgh");
    assert!(!append_chunk(&mut body, b"", 8));
}

#[test]
fn transport_errors_described() {
    let info = |t: bool, c: bool, b: bool, chain: &str| HttpErrorInfo {
        is_timeout: t,
        is_connect: c,
        is_builder: b,
        chain: chain.to_string(),
    };
    assert_eq!(describe_http_error(&info(true, true, false, "")), "连接超时：服务器未在限定时间内响应（默认 30 秒）");
    assert_eq!(describe_http_error(&info(false, true, false, "dns error: failed to lookup address")), "DNS 解析失败：域名不存在或网络不可用");
    assert_eq!(describe_http_error(&info(false, true, false, "connection refused")), "连接失败：目标拒绝连接或网络不可达");
    assert_eq!(describe_http_error(&info(false, false, false, "invalid peer certificate")), "TLS 证书错误：证书无效、已过期或不受信任");
    assert_eq!(describe_http_error(&info(false, false, true, "relative url")), "HTTP 请求构建失败");
    assert_eq!(describe_http_error(&info(false, false, false, "eof")), "请求失败，服务端未返回有效响应");
}

#[test]
fn error_chain_lowercased_and_joined() {
    let parts = vec!["Error Sending Request".to_string(), "Connection Refused".to_string()];
    assert_eq!(source_chain(&parts), "error sending request | connection refused");
    assert_eq!(source_chain(&Vec::new()), "");
}
