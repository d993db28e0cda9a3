use rustfox::editor::{
    add_kv_row, apply_curl, auth_mode, blank_endpoint, edit_kv_row, endpoint_from_curl, remove_kv_row, auth_value, body_raw, close_tab, kv_len, kv_row_values, loc_name,
    name_from_url_str, open_tab, set_auth_value, switch_auth, switch_body_mode, switch_body_mode_keep,
    to_test_row, AssertionOutcome, AuthField, CurlParsed, Endpoint, EndpointResult, KvEdit, KvSection,
    DEFAULT_REDIRECT_URI,
};
use rustfox::model::{ApiKeyLocation, AuthSpec, BodySpec, HttpMethod, KeyValue, RequestSpec};

fn ep_with_path(path: &str) -> Endpoint {
    Endpoint {
        name: "测试接口".into(),
        method: HttpMethod::GET,
        path: path.to_string(),
        request: RequestSpec::default(),
    }
}

#[test]
fn body_mode_switch_preserves_raw() {
    let cur = BodySpec::Json { raw: "{\"a\":1}".into() };
    let text = switch_body_mode(&cur, "text");
    assert!(matches!(text, BodySpec::Text { raw } if raw == "{\"a\":1}"));
    let none = switch_body_mode(&cur, "none");
    assert!(matches!(none, BodySpec::Empty));
    let ue = switch_body_mode(&cur, "urlencoded");
    assert!(matches!(ue, BodySpec::UrlEncoded { fields } if fields.is_empty()));
}

#[test]
fn body_mode_switch_keeps_raw_across_none() {
    let mut raw_keep = String::new();
    let mut fields_keep: Vec<KeyValue> = Vec::new();
    let cur = BodySpec::Json { raw: "{\"a\":1}".into() };
    let none = switch_body_mode_keep(&cur, "none", &mut raw_keep, &mut fields_keep);
    assert!(matches!(none, BodySpec::Empty));
    let back = switch_body_mode_keep(&none, "json", &mut raw_keep, &mut fields_keep);
    assert!(matches!(back, BodySpec::Json { raw } if raw == "{\"a\":1}"));
    let text = switch_body_mode_keep(&cur, "text", &mut raw_keep, &mut fields_keep);
    assert!(matches!(&text, BodySpec::Text { raw } if raw == "{\"a\":1}"));
    let none2 = switch_body_mode_keep(&text, "none", &mut raw_keep, &mut fields_keep);
    let text_back = switch_body_mode_keep(&none2, "text", &mut raw_keep, &mut fields_keep);
    assert!(matches!(text_back, BodySpec::Text { raw } if raw == "{\"a\":1}"));
}

#[test]
fn body_mode_switch_keeps_fields_across_none() {
    let mut raw_keep = String::new();
    let mut fields_keep: Vec<KeyValue> = Vec::new();
    let cur = BodySpec::UrlEncoded {
        fields: vec![KeyValue {
            key: "name".into(),
            value: "fox".into(),
            enabled: true,
            description: String::new(),
        }],
    };
    let none = switch_body_mode_keep(&cur, "none", &mut raw_keep, &mut fields_keep);
    let back = switch_body_mode_keep(&none, "urlencoded", &mut raw_keep, &mut fields_keep);
    assert!(matches!(
        back,
        BodySpec::UrlEncoded { fields } if fields.len() == 1 && fields[0].key == "name" && fields[0].value == "fox"
    ));
}

#[test]
fn auth_switch_preserves_fields() {
    let cur = AuthSpec::Basic { username: "u".into(), password: "p".into() };
    let back = switch_auth(&cur, "basic");
    assert!(matches!(
        back,
        AuthSpec::Basic { username, password } if username == "u" && password == "p"
    ));
    let bearer = switch_auth(&cur, "bearer");
    assert!(matches!(bearer, AuthSpec::Bearer { token } if token.is_empty()));
    let none = switch_auth(&cur, "none");
    assert!(matches!(none, AuthSpec::NoAuth));
}

#[test]
fn auth_switch_new_kinds_start_empty() {
    let cur = AuthSpec::NoAuth;
    assert!(matches!(
        switch_auth(&cur, "apikey"),
        AuthSpec::ApiKey { key, value, location: ApiKeyLocation::Header } if key.is_empty() && value.is_empty()
    ));
    assert!(matches!(
        switch_auth(&cur, "oauth2"),
        AuthSpec::OAuth2 { redirect_uri, token: None, client_id, .. } if redirect_uri == DEFAULT_REDIRECT_URI && client_id.is_empty()
    ));
}

#[test]
fn auth_switch_to_own_mode_is_identity() {
    let samples = vec![
        AuthSpec::Bearer { token: "t".into() },
        AuthSpec::Basic { username: "u".into(), password: "p".into() },
        AuthSpec::ApiKey { key: "k".into(), value: "v".into(), location: ApiKeyLocation::Query },
    ];
    for a in samples {
        let mode = auth_mode(&a);
        let b = switch_auth(&a, mode);
        assert_eq!(auth_mode(&b), mode);
        for f in [AuthField::BearerToken, AuthField::BasicUser, AuthField::BasicPass, AuthField::ApiKeyName, AuthField::ApiKeyValue] {
            assert_eq!(auth_value(&a, f), auth_value(&b, f));
        }
    }
    assert_eq!(auth_mode(&AuthSpec::NoAuth), "none");
}

#[test]
fn apply_curl_overwrites_draft_fields() {
    let mut ep = ep_with_path("/old");
    ep.name = "新建接口".into();
    // The command `curl -X POST -H "Content-Type: application/json" -u u:p
    // -d '{"a":1}' https://api.example.com/users`, as parsed.
    let parsed = CurlParsed {
        method: HttpMethod::POST,
        url: "https://api.example.com/users".into(),
        headers: vec![KeyValue::new("Content-Type", "application/json")],
        auth: AuthSpec::Basic { username: "u".into(), password: "p".into() },
        body: Some(BodySpec::Json { raw: "{\"a\":1}".into() }),
    };
    apply_curl(&mut ep, &parsed);
    assert_eq!(ep.method, HttpMethod::POST);
    assert_eq!(ep.path, "https://api.example.com/users");
    assert_eq!(ep.request.headers.len(), 1);
    assert!(matches!(ep.request.auth, AuthSpec::Basic { .. }));
    assert!(matches!(
        &ep.request.body,
        BodySpec::Json { raw } if raw.trim() == "{\"a\":1}"
    ));
    assert_eq!(ep.name, "users");
}

#[test]
fn apply_curl_keeps_custom_name() {
    let mut ep = ep_with_path("/old");
    ep.name = "我的接口".into();
    let parsed = CurlParsed {
        method: HttpMethod::GET,
        url: "https://api.example.com/users".into(),
        headers: Vec::new(),
        auth: AuthSpec::NoAuth,
        body: None,
    };
    apply_curl(&mut ep, &parsed);
    assert_eq!(ep.name, "我的接口");
}

#[test]
fn apply_curl_without_body_keeps_draft_body() {
    let mut ep = ep_with_path("/old");
    ep.name = "  ".into();
    ep.request.body = BodySpec::Text { raw: "keep".into() };
    let parsed = CurlParsed {
        method: HttpMethod::DELETE,
        url: "https://h/".into(),
        headers: Vec::new(),
        auth: AuthSpec::NoAuth,
        body: None,
    };
    apply_curl(&mut ep, &parsed);
    assert!(matches!(&ep.request.body, BodySpec::Text { raw } if raw == "keep"));
    assert_eq!(ep.name, "h");
    assert_eq!(body_raw(&ep), "keep");
}

#[test]
fn names_from_urls() {
    assert_eq!(name_from_url_str("https://api.example.com/users/"), "users");
    assert_eq!(name_from_url_str("https://api.example.com/a/b"), "b");
    assert_eq!(name_from_url_str("///"), "导入接口");
    assert_eq!(name_from_url_str(""), "导入接口");
    assert_eq!(name_from_url_str("plain"), "plain");
}

#[test]
fn close_active_tab_moves_to_last() {
    let mut tabs: Vec<u128> = vec![1, 2, 3];
    let next = close_tab(&mut tabs, Some(2), 2);
    assert_eq!(tabs, vec![1, 3]);
    assert_eq!(next, Some(3));
    let next = close_tab(&mut tabs, Some(1), 3);
    assert_eq!(tabs, vec![1]);
    assert_eq!(next, Some(1));
    let next = close_tab(&mut tabs, Some(1), 1);
    assert!(tabs.is_empty());
    assert_eq!(next, None);
}

#[test]
fn kv_rows_by_section() {
    let mut ep = ep_with_path("/p");
    ep.request.params = vec![KeyValue::new("q", "1")];
    ep.request.headers = vec![KeyValue::new("A", "x"), KeyValue::new("B", "y")];
    assert_eq!(kv_len(&ep, KvSection::Params), 1);
    assert_eq!(kv_len(&ep, KvSection::Headers), 2);
    assert_eq!(kv_len(&ep, KvSection::UrlEncoded), 0);
    assert_eq!(kv_row_values(&ep, KvSection::Headers, 1).unwrap().key, "B");
    assert!(kv_row_values(&ep, KvSection::Headers, 2).is_none());
    assert!(kv_row_values(&ep, KvSection::UrlEncoded, 0).is_none());
    ep.request.body = BodySpec::UrlEncoded { fields: vec![KeyValue::new("f", "v")] };
    assert_eq!(kv_row_values(&ep, KvSection::UrlEncoded, 0).unwrap().value, "v");
}

#[test]
fn auth_fields_read_and_write() {
    let mut a = AuthSpec::Basic { username: "u".into(), password: "p".into() };
    set_auth_value(&mut a, AuthField::BasicPass, "secret".into());
    assert_eq!(auth_value(&a, AuthField::BasicPass), "secret");
    assert_eq!(auth_value(&a, AuthField::BasicUser), "u");
    set_auth_value(&mut a, AuthField::BearerToken, "ignored".into());
    assert_eq!(auth_value(&a, AuthField::BearerToken), "");
    assert_eq!(auth_mode(&a), "basic");
    assert_eq!(loc_name(ApiKeyLocation::Header), "header");
    assert_eq!(loc_name(ApiKeyLocation::Query), "query");
}

#[test]
fn test_rows_list_failures() {
    let r = EndpointResult {
        endpoint_name: "用户".into(),
        method: "GET".into(),
        path: "/users".into(),
        ok: false,
        status: Some(500),
        duration_ms: Some(12),
        request_error: None,
        outcomes: vec![
            AssertionOutcome { description: "状态码 200".into(), passed: false, reason: Some("实际 500".into()) },
            AssertionOutcome { description: "有 id".into(), passed: true, reason: None },
            AssertionOutcome { description: "耗时".into(), passed: false, reason: None },
        ],
    };
    let row = to_test_row(&r);
    assert_eq!(row.name, "用户");
    assert!(!row.skipped);
    assert_eq!(row.status, Some(500));
    assert_eq!(row.failures, vec!["状态码 200：实际 500".to_string(), "耗时".to_string()]);
    let skipped = EndpointResult {
        endpoint_name: "x".into(),
        method: "GET".into(),
        path: "/x".into(),
        ok: false,
        status: None,
        duration_ms: None,
        request_error: Some("该接口无测试配置".into()),
        outcomes: Vec::new(),
    };
    assert!(to_test_row(&skipped).skipped);
}

#[test]
fn open_tab_once_and_close_restores() {
    let mut tabs: Vec<u128> = vec![7, 8];
    assert_eq!(open_tab(&mut tabs, 9), 9);
    assert_eq!(tabs, vec![7, 8, 9]);
    assert_eq!(open_tab(&mut tabs, 8), 8);
    assert_eq!(tabs, vec![7, 8, 9]);
    let next = close_tab(&mut tabs, Some(9), 9);
    assert_eq!(tabs, vec![7, 8]);
    assert_eq!(next, Some(8));
}

#[test]
fn text_body_survives_switch_to_none() {
    let mut raw_keep = "stale".to_string();
    let mut fields_keep: Vec<KeyValue> = Vec::new();
    let cur = BodySpec::Text { raw: String::new() };
    let none = switch_body_mode_keep(&cur, "none", &mut raw_keep, &mut fields_keep);
    assert!(matches!(none, BodySpec::Empty));
    assert_eq!(raw_keep, "");
    let back = switch_body_mode_keep(&none, "text", &mut raw_keep, &mut fields_keep);
    assert!(matches!(back, BodySpec::Text { raw } if raw.is_empty()));
}

#[test]
fn blank_draft_takes_name_from_curl() {
    let mut ep = blank_endpoint();
    assert_eq!(ep.name, "新建接口");
    assert_eq!(ep.method, HttpMethod::GET);
    assert_eq!(ep.path, "/api/new");
    assert!(matches!(ep.request.body, BodySpec::Empty));
    let parsed = CurlParsed {
        method: HttpMethod::PUT,
        url: "https://api.example.com/items/42".into(),
        headers: Vec::new(),
        auth: AuthSpec::NoAuth,
        body: None,
    };
    apply_curl(&mut ep, &parsed);
    assert_eq!(ep.name, "42");
    assert_eq!(ep.method, HttpMethod::PUT);
}

#[test]
fn table_rows_edited_added_removed() {
    let mut ep = ep_with_path("/p");
    add_kv_row(&mut ep, KvSection::Headers);
    assert_eq!(ep.request.headers.len(), 1);
    assert!(ep.request.headers[0].enabled && ep.request.headers[0].key.is_empty());
    edit_kv_row(&mut ep, KvSection::Headers, 0, KvEdit::Key("Accept".into()));
    edit_kv_row(&mut ep, KvSection::Headers, 0, KvEdit::Value("*/*".into()));
    edit_kv_row(&mut ep, KvSection::Headers, 0, KvEdit::Enabled(false));
    edit_kv_row(&mut ep, KvSection::Headers, 0, KvEdit::Description("all".into()));
    edit_kv_row(&mut ep, KvSection::Headers, 5, KvEdit::Key("ignored".into()));
    let h = &ep.request.headers[0];
    assert_eq!((h.key.as_str(), h.value.as_str(), h.enabled, h.description.as_str()), ("Accept", "*/*", false, "all"));
    assert_eq!(ep.request.headers.len(), 1);
    assert!(ep.request.params.is_empty());
    remove_kv_row(&mut ep, KvSection::Headers, 3);
    assert_eq!(ep.request.headers.len(), 1);
    remove_kv_row(&mut ep, KvSection::Headers, 0);
    assert!(ep.request.headers.is_empty());
}

#[test]
fn form_table_turns_body_into_form() {
    let mut ep = ep_with_path("/p");
    ep.request.body = BodySpec::Json { raw: "{}".into() };
    edit_kv_row(&mut ep, KvSection::UrlEncoded, 0, KvEdit::Key("k".into()));
    assert!(matches!(&ep.request.body, BodySpec::UrlEncoded { fields } if fields.is_empty()));
    add_kv_row(&mut ep, KvSection::UrlEncoded);
    edit_kv_row(&mut ep, KvSection::UrlEncoded, 0, KvEdit::Value("v".into()));
    assert!(matches!(&ep.request.body, BodySpec::UrlEncoded { fields } if fields.len() == 1 && fields[0].value == "v"));
    assert_eq!(kv_len(&ep, KvSection::UrlEncoded), 1);
}

#[test]
fn imported_curl_becomes_endpoint() {
    let parsed = CurlParsed {
        method: HttpMethod::POST,
        url: "https://api.example.com/users/".into(),
        headers: vec![KeyValue::new("X-Trace", "1")],
        auth: AuthSpec::Bearer { token: "t".into() },
        body: None,
    };
    let ep = endpoint_from_curl(&parsed);
    assert_eq!(ep.name, "users");
    assert_eq!(ep.method, HttpMethod::POST);
    assert_eq!(ep.path, "https://api.example.com/users/");
    assert_eq!(ep.request.headers.len(), 1);
    assert!(matches!(ep.request.body, BodySpec::Empty));
    assert!(matches!(&ep.request.auth, AuthSpec::Bearer { token } if token == "t"));
    assert!(ep.request.params.is_empty());
}
