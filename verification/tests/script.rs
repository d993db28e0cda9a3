use rustfox::client::HttpResponseData;
use rustfox::model::{AppError, BodySpec, HttpMethod, KeyValue, RequestSpec};
use rustfox::script::{
    body_text, build_script, classify_eval_error, drive_step, init_error, DriveAction,
    PromiseOutcome, ScriptInput, ScriptRequestData, ScriptResponseData, ScriptState, PRELUDE,
    SCRIPT_TIMEOUT_MESSAGE,
};
use rustfox::string_map::StringMap;

fn input(response: Option<ScriptResponseData>) -> ScriptInput {
    let mut environment = StringMap::new();
    environment.insert("base".to_string(), "http://h".to_string());
    ScriptInput {
        code: String::new(),
        environment,
        request: ScriptRequestData {
            method: "GET".into(),
            url: "http://h/x".into(),
            headers: vec![("Accept".into(), "*/*".into()), ("X-Dup".into(), "1".into()), ("x-dup".into(), "2".into())],
            body: String::new(),
        },
        response,
    }
}

#[test]
fn from_spec_builds_request_snapshot() {
    let spec = RequestSpec {
        headers: vec![KeyValue::new("A", "1"), {
            let mut kv = KeyValue::new("B", "2");
            kv.enabled = false;
            kv
        }],
        body: BodySpec::Json { raw: r#"{"a":1}"#.to_string() },
        ..Default::default()
    };
    let snapshot = ScriptRequestData::from_spec(HttpMethod::POST, "http://localhost/api", &spec);
    assert_eq!(snapshot.method, "POST");
    assert_eq!(snapshot.headers.len(), 1);
    assert_eq!(snapshot.body, r#"{"a":1}"#);
}

#[test]
fn from_response_builds_response_snapshot() {
    let resp = HttpResponseData {
        status: 404,
        headers: vec![("Content-Type".to_string(), "application/json".to_string())],
        body: br#"{"error":"nope"}"#.to_vec(),
        duration_ms: 12,
        size_bytes: 15,
        cookies: Vec::new(),
        truncated: false,
    };
    let snapshot = ScriptResponseData::from_response(&resp);
    assert_eq!(snapshot.status, 404);
    assert_eq!(snapshot.body, r#"{"error":"nope"}"#);
}

#[test]
fn form_body_text_is_urlencoded() {
    let spec = RequestSpec {
        body: BodySpec::UrlEncoded { fields: vec![KeyValue::new("a", "1 2"), KeyValue::new("b", "&")] },
        ..Default::default()
    };
    assert_eq!(body_text(&spec), "a=1+2&b=%26");
    assert_eq!(body_text(&RequestSpec::default()), "");
}

#[test]
fn script_wraps_user_code() {
    let s = build_script("pm.test('x', () => {});");
    assert!(s.starts_with(PRELUDE));
    assert!(s.contains("try {\npm.test('x', () => {});\n    await Promise.all(pm.__pendingTests);"));
    assert!(s.ends_with("await __sandbox_promise;\n"));
}

#[test]
fn header_set_get_remove() {
    let mut st = ScriptState::new(&input(None));
    st.header_upsert("x-dup", "9");
    assert_eq!(st.headers[1], ("X-Dup".to_string(), "9".to_string()));
    assert_eq!(st.headers[2], ("x-dup".to_string(), "2".to_string()));
    assert_eq!(st.header_get("X-DUP").as_deref(), Some("9"));
    st.header_upsert("Authorization", "Bearer t");
    assert_eq!(st.headers.len(), 4);
    assert_eq!(st.header_get("authorization").as_deref(), Some("Bearer t"));
    assert!(st.header_has("ACCEPT"));
    st.header_remove("X-DUP");
    assert!(!st.header_has("x-dup"));
    assert!(st.header_get("x-dup").is_none());
    assert_eq!(st.headers.len(), 2);
}

#[test]
fn environment_helpers() {
    let mut st = ScriptState::new(&input(None));
    assert_eq!(st.env_get("base").as_deref(), Some("http://h"));
    st.env_set("token".into(), "abc".into());
    assert!(st.env_has("token"));
    assert_eq!(st.env_get("token").as_deref(), Some("abc"));
    st.env_unset("base");
    assert!(!st.env_has("base"));
    assert_eq!(st.env_all().len(), 1);
    let req = st.req_headers_all();
    assert_eq!(req.len(), 3);
    assert_eq!(st.resp_code(), 0);
    assert_eq!(st.resp_text(), "");
    assert_eq!(st.resp_headers_all().len(), 0);
}

#[test]
fn response_helpers() {
    let resp = ScriptResponseData {
        status: 201,
        headers: vec![("A".into(), "1".into()), ("A".into(), "2".into())],
        body: "created".into(),
    };
    let st = ScriptState::new(&input(Some(resp)));
    assert_eq!(st.resp_code(), 201);
    assert_eq!(st.resp_text(), "created");
    assert_eq!(st.resp_headers_all().get("A").as_deref(), Some("2"));
}

#[test]
fn finish_reports_tests_logs_or_error() {
    let mut st = ScriptState::new(&input(None));
    st.log("log", "hello");
    st.record_test("ok".into(), true, String::new());
    st.record_test("bad".into(), false, "expected 1".into());
    st.env_set("k".into(), "v".into());
    let res = st.finish().unwrap();
    assert_eq!(res.logs, vec!["[log] hello".to_string()]);
    assert_eq!(res.tests.len(), 2);
    assert!(res.tests[0].passed && res.tests[0].error.is_none());
    assert!(!res.tests[1].passed);
    assert_eq!(res.tests[1].error.as_deref(), Some("expected 1"));
    assert_eq!(res.environment.get("k").as_deref(), Some("v"));

    let mut st = ScriptState::new(&input(None));
    st.fail("boom".into());
    match st.finish() {
        Err(AppError::ScriptError(m)) => assert_eq!(m, "boom"),
        _ => panic!("脚本错误应被报告"),
    }
}

#[test]
fn runtime_error_is_mapped_to_script_error() {
    match classify_eval_error(false, "ReferenceError: x") {
        AppError::ScriptError(m) => assert_eq!(m, "脚本执行失败：ReferenceError: x"),
        _ => panic!(),
    }
    match classify_eval_error(true, "interrupted") {
        AppError::ScriptError(m) => assert_eq!(m, SCRIPT_TIMEOUT_MESSAGE),
        _ => panic!(),
    }
    match init_error("oom") {
        AppError::ScriptError(m) => assert_eq!(m, "脚本环境初始化失败：oom"),
        _ => panic!(),
    }
}

#[test]
fn promise_driving_steps() {
    assert!(matches!(drive_step(false, PromiseOutcome::Settled, false), DriveAction::Done));
    assert!(matches!(drive_step(false, PromiseOutcome::Pending, false), DriveAction::Wait));
    assert!(matches!(
        drive_step(true, PromiseOutcome::Settled, true),
        DriveAction::Stop(AppError::ScriptError(m)) if m == "脚本执行超时（超过 2 秒）"
    ));
    assert!(matches!(
        drive_step(false, PromiseOutcome::Failed("x".into()), true),
        DriveAction::Stop(AppError::ScriptError(m)) if m == SCRIPT_TIMEOUT_MESSAGE
    ));
    assert!(matches!(
        drive_step(false, PromiseOutcome::Failed("x".into()), false),
        DriveAction::Stop(AppError::ScriptError(m)) if m == "脚本执行失败：x"
    ));
}
