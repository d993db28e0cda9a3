//! State behind the user-script API (`pm.*`, `console.*`).
//!
//! The JavaScript engine runs elsewhere; every call a script makes into the
//! host lands in one of [`ScriptState`]'s methods, and the outcome of a run is
//! read from it.

use vstd::prelude::*;
use crate::client::{cat, enabled_headers, form_pairs, form_rows, header_lookup, header_rows, HttpResponseData, payload_spec};
use crate::codec::{pair_views, urlencode_pairs, form_urlencoded, utf8_lossy};
use crate::model::{kv_views, script_error, AppError, BodySpec, BodySpecView, HttpMethod, RequestSpec};
use crate::string_map::{entries_map, StringMap};
use crate::text::{chars_of, eq_ci_vec, eq_ignore_case};

verus! {

/// Time a script may run, in milliseconds.
pub const SCRIPT_TIMEOUT_MS: u64 = 2000;

/// Message of a script that ran out of time.
pub const SCRIPT_TIMEOUT_MESSAGE: &'static str = "脚本执行超时（超过 2 秒）";

/// Host API that scripts see: Postman-style `pm.*` and `console.*`, all
/// backed by the `__*` host functions.
pub const PRELUDE: &'static str = r#"
function __sx_stringify(v) {
    if (v === null) return 'null';
    if (v === undefined) return 'undefined';
    if (typeof v === 'string') return v;
    if (typeof v === 'function') return '[Function]';
    try { return JSON.stringify(v); } catch (e) { return String(v); }
}

function __sx_deep_equal(a, b) {
    if (a === b) return true;
    if (typeof a !== 'object' || typeof b !== 'object' || a === null || b === null) return false;
    var aArr = a instanceof Array, bArr = b instanceof Array;
    if (aArr !== bArr) return false;
    if (aArr) {
        if (a.length !== b.length) return false;
        for (var i = 0; i < a.length; i++) {
            if (!__sx_deep_equal(a[i], b[i])) return false;
        }
        return true;
    }
    var ka = Object.keys(a), kb = Object.keys(b);
    if (ka.length !== kb.length) return false;
    for (var i = 0; i < ka.length; i++) {
        var k = ka[i];
        if (!Object.prototype.hasOwnProperty.call(b, k)) return false;
        if (!__sx_deep_equal(a[k], b[k])) return false;
    }
    return true;
}

function __sx_fail(expected, actual) {
    throw new Error('期望值为 ' + __sx_stringify(expected) + '，实际为 ' + __sx_stringify(actual));
}

function __sx_expect(actual) {
    var chain = {
        to: {
            eql: function (expected) {
                if (!__sx_deep_equal(actual, expected)) __sx_fail(expected, actual);
            },
            equal: function (expected) {
                if (actual !== expected) __sx_fail(expected, actual);
            },
            include: function (expected) {
                if (actual === undefined || actual === null ||
                    typeof actual.indexOf !== 'function' || actual.indexOf(expected) < 0) {
                    __sx_fail(expected, actual);
                }
            },
            have: {
                property: function (name) {
                    if (actual === null || typeof actual !== 'object' || !(name in actual)) {
                        __sx_fail('属性 ' + name, actual);
                    }
                }
            },
            be: {
                true: function () { if (actual !== true) __sx_fail(true, actual); },
                false: function () { if (actual !== false) __sx_fail(false, actual); },
                null: function () { if (actual !== null) __sx_fail(null, actual); },
                undefined: function () { if (actual !== undefined) __sx_fail(undefined, actual); }
            }
        }
    };
    return chain;
}

var console = {
    log: function () {
        var args = Array.prototype.slice.call(arguments);
        args.unshift('log');
        __sx_log_impl.apply(null, args);
    },
    info: function () {
        var args = Array.prototype.slice.call(arguments);
        args.unshift('info');
        __sx_log_impl.apply(null, args);
    },
    warn: function () {
        var args = Array.prototype.slice.call(arguments);
        args.unshift('warn');
        __sx_log_impl.apply(null, args);
    },
    error: function () {
        var args = Array.prototype.slice.call(arguments);
        args.unshift('error');
        __sx_log_impl.apply(null, args);
    }
};

function __sx_log_impl(level) {
    var parts = [];
    for (var i = 1; i < arguments.length; i++) { parts.push(__sx_stringify(arguments[i])); }
    __log(level, parts.join(' '));
}

var pm = {
    environment: {
        get: function (key) { return __env_get(key); },
        set: function (key, value) { __env_set(key, __sx_stringify(value)); },
        unset: function (key) { __env_unset(key); },
        has: function (key) { return __env_has(key); },
        all: function () { return __env_all(); }
    },
    request: {
        method: __req_method(),
        url: __req_url(),
        body: __req_body(),
        headers: {
            add: function (header) {
                if (!header || header.key === undefined) {
                    throw new Error('pm.request.headers.add 需要传入 { key, value } 对象');
                }
                __req_header_upsert(String(header.key), __sx_stringify(header.value));
            },
            upsert: function (key, value) { __req_header_upsert(String(key), __sx_stringify(value)); },
            get: function (key) { return __req_header_get(String(key)); },
            remove: function (key) { __req_header_remove(String(key)); },
            has: function (key) { return __req_header_has(String(key)); },
            all: function () { return __req_headers_all(); }
        }
    },
    response: {
        json: function () {
            var text = __resp_text();
            if (text === '') { throw new Error('响应体为空，无法解析 JSON'); }
            try { return JSON.parse(text); } catch (e) { throw new Error('响应体不是合法 JSON'); }
        },
        text: function () { return __resp_text(); },
        code: __resp_code(),
        headers: __resp_headers_all()
    },
    test: function (name, fn) {
        try {
            var result = fn();
            if (result && typeof result.then === 'function') {
                pm.__pendingTests.push(result);
                result.then(
                    function () { __test(name, true, ''); },
                    function (err) { __test(name, false, __sx_stringify(err && err.message || err)); }
                );
            } else {
                __test(name, true, '');
            }
        } catch (err) {
            __test(name, false, __sx_stringify(err && err.message || err));
        }
    },
    expect: __sx_expect,
    __pendingTests: []
};
"#;

/// Code run around the user's script: it runs inside an async function
/// (top-level `await` works), pending async tests are awaited, and a thrown
/// error is handed to the host.
pub open spec fn script_spec(user_code: Seq<char>) -> Seq<char> {
    PRELUDE@ + "\nvar __sandbox_promise = (async function () {\n  try {\n"@ + user_code
        + "\n    await Promise.all(pm.__pendingTests);\n  } catch (e) {\n    __sx_error(String(e && (e.message || e.stack) || e));\n  }\n})();\nawait __sandbox_promise;\n"@
}

/// The full program to evaluate for a user script.
pub fn build_script(user_code: &str) -> (r: String)
    ensures
        r@ == script_spec(user_code@),
{
    let a = cat(PRELUDE, "\nvar __sandbox_promise = (async function () {\n  try {\n");
    let b = cat(a.as_str(), user_code);
    cat(
        b.as_str(),
        "\n    await Promise.all(pm.__pendingTests);\n  } catch (e) {\n    __sx_error(String(e && (e.message || e.stack) || e));\n  }\n})();\nawait __sandbox_promise;\n",
    )
}

/// Copy of a list of string pairs.
pub fn copy_pairs(v: &Vec<(String, String)>) -> (r: Vec<(String, String)>)
    ensures
        r@ == v@,
{
    let mut r: Vec<(String, String)> = Vec::new();
    let mut i: usize = 0;
    while i < v.len()
        invariant
            i <= v.len(),
            r@ == v@.take(i as int),
        decreases v.len() - i,
    {
        r.push((v[i].0.clone(), v[i].1.clone()));
        assert(v@.take(i + 1) == v@.take(i as int).push(v@[i as int]));
        i = i + 1;
    }
    assert(v@.take(v.len() as int) == v@);
    r
}

/// Copy of a list of strings.
pub fn copy_strings(v: &Vec<String>) -> (r: Vec<String>)
    ensures
        r@ == v@,
{
    let mut r: Vec<String> = Vec::new();
    let mut i: usize = 0;
    while i < v.len()
        invariant
            i <= v.len(),
            r@ == v@.take(i as int),
        decreases v.len() - i,
    {
        r.push(v[i].clone());
        assert(v@.take(i + 1) == v@.take(i as int).push(v@[i as int]));
        i = i + 1;
    }
    assert(v@.take(v.len() as int) == v@);
    r
}

/// The text form of a request body that scripts see.
pub open spec fn body_text_spec(body: BodySpecView) -> Seq<char> {
    match body {
        BodySpecView::Json { raw } => raw,
        BodySpecView::Text { raw } => raw,
        BodySpecView::UrlEncoded { fields } => form_urlencoded(form_rows(fields)),
        _ => Seq::empty(),
    }
}

/// The body as text: JSON and text unchanged, form fields url-encoded,
/// nothing for multipart or no body.
pub fn body_text(spec: &RequestSpec) -> (r: String)
    ensures
        r@ == body_text_spec(spec.body@),
{
    match &spec.body {
        BodySpec::Json { raw } => raw.clone(),
        BodySpec::Text { raw } => raw.clone(),
        BodySpec::UrlEncoded { fields } => {
            let pairs = form_pairs(fields);
            urlencode_pairs(&pairs)
        },
        _ => String::new(),
    }
}

/// Request snapshot visible to scripts.
pub struct ScriptRequestData {
    pub method: String,
    pub url: String,
    pub headers: Vec<(String, String)>,
    pub body: String,
}

impl Default for ScriptRequestData {
    fn default() -> (r: Self)
        ensures
            r.method@.len() == 0,
            r.url@.len() == 0,
            r.headers@.len() == 0,
            r.body@.len() == 0,
    {
        ScriptRequestData {
            method: String::new(),
            url: String::new(),
            headers: Vec::new(),
            body: String::new(),
        }
    }
}

impl ScriptRequestData {
    /// Snapshot of a request: method name, URL, enabled headers (names
    /// trimmed) and the body as text.
    pub fn from_spec(method: HttpMethod, url: &str, spec: &RequestSpec) -> (r: Self)
        ensures
            r.method@ == method.name(),
            r.url@ == url@,
            pair_views(r.headers@) == header_rows(spec@.headers),
            r.body@ == body_text_spec(spec.body@),
    {
        ScriptRequestData {
            method: method.as_str().to_owned(),
            url: url.to_owned(),
            headers: enabled_headers(&spec.headers),
            body: body_text(spec),
        }
    }

    /// The two snapshots hold the same values.
    pub open spec fn same(self, other: Self) -> bool {
        self.method == other.method && self.url == other.url && self.headers@ == other.headers@
            && self.body == other.body
    }

    /// Copy of this snapshot.
    pub fn copy(&self) -> (r: Self)
        ensures
            r.same(*self),
    {
        ScriptRequestData {
            method: self.method.clone(),
            url: self.url.clone(),
            headers: copy_pairs(&self.headers),
            body: self.body.clone(),
        }
    }
}

/// Response snapshot visible to post-response scripts.
pub struct ScriptResponseData {
    pub status: u16,
    pub headers: Vec<(String, String)>,
    pub body: String,
}

impl ScriptResponseData {
    /// Snapshot of a response: status, headers, body as text.
    pub fn from_response(resp: &HttpResponseData) -> (r: Self)
        ensures
            r.status == resp.status,
            r.headers@ == resp.headers@,
            r.body@ == utf8_lossy(resp.body@),
            vstd::utf8::valid_utf8(resp.body@) ==> r.body@ == vstd::utf8::decode_utf8(resp.body@),
    {
        ScriptResponseData {
            status: resp.status,
            headers: copy_pairs(&resp.headers),
            body: resp.body_text(),
        }
    }

    /// The two snapshots hold the same values.
    pub open spec fn same(self, other: Self) -> bool {
        self.status == other.status && self.headers@ == other.headers@ && self.body == other.body
    }

    /// Copy of this snapshot.
    pub fn copy(&self) -> (r: Self)
        ensures
            r.same(*self),
    {
        ScriptResponseData {
            status: self.status,
            headers: copy_pairs(&self.headers),
            body: self.body.clone(),
        }
    }
}

/// Input of one script run; with a response it is a post-response script.
pub struct ScriptInput {
    pub code: String,
    pub environment: StringMap,
    pub request: ScriptRequestData,
    pub response: Option<ScriptResponseData>,
}

/// Outcome of one `pm.test`.
pub struct TestResult {
    pub name: String,
    pub passed: bool,
    pub error: Option<String>,
}

/// What a run hands back: environment and headers as the script left them.
pub struct ScriptResult {
    pub environment: StringMap,
    pub headers: Vec<(String, String)>,
    pub tests: Vec<TestResult>,
    pub logs: Vec<String>,
}

/// Index of the first header whose name equals `key` ignoring ASCII case,
/// or the number of headers.
pub open spec fn first_ci(hs: Seq<(Seq<char>, Seq<char>)>, key: Seq<char>, i: int) -> int
    decreases hs.len() - i,
{
    if i >= hs.len() {
        hs.len() as int
    } else if eq_ignore_case(hs[i].0, key) {
        i
    } else {
        first_ci(hs, key, i + 1)
    }
}

/// Headers after setting `key` to `value`: the first matching header gets
/// the value, or a new header is appended.
pub open spec fn upsert_spec(hs: Seq<(Seq<char>, Seq<char>)>, key: Seq<char>, value: Seq<char>) -> Seq<
    (Seq<char>, Seq<char>),
> {
    let i = first_ci(hs, key, 0);
    if i < hs.len() {
        hs.update(i, (hs[i].0, value))
    } else {
        hs.push((key, value))
    }
}

/// Headers whose name does not match `key`.
pub open spec fn remove_spec(hs: Seq<(Seq<char>, Seq<char>)>, key: Seq<char>) -> Seq<
    (Seq<char>, Seq<char>),
>
    decreases hs.len(),
{
    if hs.len() == 0 {
        Seq::empty()
    } else {
        let r = remove_spec(hs.drop_last(), key);
        if eq_ignore_case(hs.last().0, key) {
            r
        } else {
            r.push(hs.last())
        }
    }
}

/// Some header name matches `key`.
pub open spec fn has_spec(hs: Seq<(Seq<char>, Seq<char>)>, key: Seq<char>) -> bool {
    exists|i: int| 0 <= i < hs.len() && eq_ignore_case(#[trigger] hs[i].0, key)
}

/// Number of header names that match `key`.
pub open spec fn count_ci(hs: Seq<(Seq<char>, Seq<char>)>, key: Seq<char>) -> nat
    decreases hs.len(),
{
    if hs.len() == 0 {
        0
    } else {
        count_ci(hs.drop_last(), key) + if eq_ignore_case(hs.last().0, key) {
            1nat
        } else {
            0nat
        }
    }
}

/// Position of the first header matching `key`.
fn find_ci(hs: &Vec<(String, String)>, key: &str) -> (r: usize)
    ensures
        r as int == first_ci(pair_views(hs@), key@, 0),
        r <= hs@.len(),
{
    let ghost all = pair_views(hs@);
    let k = chars_of(key);
    let mut i: usize = 0;
    while i < hs.len()
        invariant
            i <= hs@.len(),
            all == pair_views(hs@),
            k@ == key@,
            first_ci(all, key@, 0) == first_ci(all, key@, i as int),
        decreases hs.len() - i,
    {
        let name = chars_of(hs[i].0.as_str());
        if eq_ci_vec(&name, &k) {
            return i;
        }
        i = i + 1;
    }
    i
}

/// Mutable state of one script run.
pub struct ScriptState {
    pub environment: StringMap,
    pub headers: Vec<(String, String)>,
    pub request: ScriptRequestData,
    pub response: Option<ScriptResponseData>,
    pub tests: Vec<TestResult>,
    pub logs: Vec<String>,
    pub error: Option<String>,
}

impl ScriptState {
    /// Fresh state: the input's environment and request headers, no tests,
    /// no logs, no error.
    pub fn new(input: &ScriptInput) -> (r: Self)
        ensures
            r.environment@ == input.environment@,
            r.headers@ == input.request.headers@,
            r.request.same(input.request),
            match (r.response, input.response) {
                (Some(a), Some(b)) => a.same(b),
                (None, None) => true,
                _ => false,
            },
            r.tests@.len() == 0,
            r.logs@.len() == 0,
            r.error is None,
    {
        ScriptState {
            environment: input.environment.copy(),
            headers: copy_pairs(&input.request.headers),
            request: input.request.copy(),
            response: match &input.response {
                Some(resp) => Some(resp.copy()),
                None => None,
            },
            tests: Vec::new(),
            logs: Vec::new(),
            error: None,
        }
    }

    /// Set a request header: overwrite the first one of that name (any
    /// ASCII case), or append it.
    pub fn header_upsert(&mut self, key: &str, value: &str)
        ensures
            pair_views(final(self).headers@) == upsert_spec(pair_views(old(self).headers@), key@, value@),
            final(self).environment == old(self).environment,
            final(self).tests == old(self).tests,
            final(self).logs == old(self).logs,
            final(self).error == old(self).error,
            final(self).request == old(self).request,
            final(self).response == old(self).response,
    {
        let ghost h0 = self.headers@;
        let i = find_ci(&self.headers, key);
        if i < self.headers.len() {
            let name = self.headers[i].0.clone();
            self.headers.set(i, (name, value.to_owned()));
            assert(pair_views(self.headers@) =~= upsert_spec(pair_views(h0), key@, value@));
        } else {
            self.headers.push((key.to_owned(), value.to_owned()));
            assert(pair_views(self.headers@) =~= upsert_spec(pair_views(h0), key@, value@));
        }
    }

    /// Value of the first header of that name (any ASCII case).
    pub fn header_get(&self, key: &str) -> (r: Option<String>)
        ensures
            match r {
                Some(v) => header_lookup(pair_views(self.headers@), key@) == Some(v@),
                None => header_lookup(pair_views(self.headers@), key@) is None,
            },
    {
        crate::client::find_header(&self.headers, key)
    }

    /// Drop every header of that name (any ASCII case).
    pub fn header_remove(&mut self, key: &str)
        ensures
            pair_views(final(self).headers@) == remove_spec(pair_views(old(self).headers@), key@),
            final(self).environment == old(self).environment,
            final(self).tests == old(self).tests,
            final(self).logs == old(self).logs,
            final(self).error == old(self).error,
            final(self).request == old(self).request,
            final(self).response == old(self).response,
    {
        let ghost h0 = pair_views(self.headers@);
        let k = chars_of(key);
        let mut kept: Vec<(String, String)> = Vec::new();
        let mut i: usize = 0;
        while i < self.headers.len()
            invariant
                i <= self.headers@.len(),
                h0 == pair_views(self.headers@),
                k@ == key@,
                pair_views(kept@) == remove_spec(h0.take(i as int), key@),
            decreases self.headers.len() - i,
        {
            let name = chars_of(self.headers[i].0.as_str());
            let ghost before = kept@;
            assert(h0.take(i + 1).drop_last() =~= h0.take(i as int));
            if !eq_ci_vec(&name, &k) {
                kept.push((self.headers[i].0.clone(), self.headers[i].1.clone()));
                assert(pair_views(kept@) =~= pair_views(before).push(h0[i as int]));
            }
            i = i + 1;
        }
        assert(h0.take(h0.len() as int) =~= h0);
        self.headers = kept;
    }

    /// Whether a header of that name (any ASCII case) is set.
    pub fn header_has(&self, key: &str) -> (r: bool)
        ensures
            r == has_spec(pair_views(self.headers@), key@),
    {
        let i = find_ci(&self.headers, key);
        proof {
            lemma_first_ci(pair_views(self.headers@), key@, 0);
        }
        i < self.headers.len()
    }

    /// `console.*`: record `[level] text`.
    pub fn log(&mut self, level: &str, text: &str)
        ensures
            final(self).logs@.len() == old(self).logs@.len() + 1,
            final(self).logs@.drop_last() == old(self).logs@,
            final(self).logs@.last()@ == "["@ + level@ + "] "@ + text@,
            final(self).headers == old(self).headers,
            final(self).environment == old(self).environment,
            final(self).tests == old(self).tests,
            final(self).error == old(self).error,
            final(self).request == old(self).request,
            final(self).response == old(self).response,
    {
        let a = cat("[", level);
        let b = cat(a.as_str(), "] ");
        let line = cat(b.as_str(), text);
        self.logs.push(line);
    }

    /// `pm.test` finished: record its outcome; an empty message means none.
    pub fn record_test(&mut self, name: String, passed: bool, error: String)
        ensures
            final(self).tests@.len() == old(self).tests@.len() + 1,
            final(self).tests@.drop_last() == old(self).tests@,
            final(self).tests@.last().name@ == name@,
            final(self).tests@.last().passed == passed,
            match final(self).tests@.last().error {
                Some(e) => error@.len() > 0 && e@ == error@,
                None => error@.len() == 0,
            },
            final(self).headers == old(self).headers,
            final(self).environment == old(self).environment,
            final(self).logs == old(self).logs,
            final(self).error == old(self).error,
            final(self).request == old(self).request,
            final(self).response == old(self).response,
    {
        let err = if error.as_str().unicode_len() > 0 {
            Some(error)
        } else {
            None
        };
        self.tests.push(TestResult { name, passed, error: err });
    }

    /// The script threw: remember its message.
    pub fn fail(&mut self, msg: String)
        ensures
            final(self).error == Some(msg),
            final(self).headers == old(self).headers,
            final(self).environment == old(self).environment,
            final(self).tests == old(self).tests,
            final(self).logs == old(self).logs,
            final(self).request == old(self).request,
            final(self).response == old(self).response,
    {
        self.error = Some(msg);
    }

    /// `pm.environment.get`.
    pub fn env_get(&self, key: &str) -> (r: Option<String>)
        ensures
            match r {
                Some(v) => self.environment@.contains_key(key@) && v@ == self.environment@[key@],
                None => !self.environment@.contains_key(key@),
            },
    {
        self.environment.get(key)
    }

    /// `pm.environment.set`.
    pub fn env_set(&mut self, key: String, value: String)
        ensures
            final(self).environment@ == old(self).environment@.insert(key@, value@),
            final(self).headers == old(self).headers,
            final(self).tests == old(self).tests,
            final(self).logs == old(self).logs,
            final(self).error == old(self).error,
            final(self).request == old(self).request,
            final(self).response == old(self).response,
    {
        self.environment.insert(key, value);
    }

    /// `pm.environment.unset`.
    pub fn env_unset(&mut self, key: &str)
        ensures
            final(self).environment@ == old(self).environment@.remove(key@),
            final(self).headers == old(self).headers,
            final(self).tests == old(self).tests,
            final(self).logs == old(self).logs,
            final(self).error == old(self).error,
            final(self).request == old(self).request,
            final(self).response == old(self).response,
    {
        self.environment.remove(key);
    }

    /// `pm.environment.has`.
    pub fn env_has(&self, key: &str) -> (r: bool)
        ensures
            r == self.environment@.contains_key(key@),
    {
        self.environment.contains_key(key)
    }

    /// `pm.environment.all`.
    pub fn env_all(&self) -> (r: StringMap)
        ensures
            r@ == self.environment@,
    {
        self.environment.copy()
    }

    /// `pm.request.headers.all`: the request's headers as they were before the script ran, as a map
    /// (a later header of the same name wins).
    pub fn req_headers_all(&self) -> (r: StringMap)
        ensures
            r@ == entries_map(self.request.headers@),
    {
        StringMap::from_pairs(&self.request.headers)
    }

    /// `pm.response.text()`: the response body, or empty without a response.
    pub fn resp_text(&self) -> (r: String)
        ensures
            r@ == match self.response {
                Some(resp) => resp.body@,
                None => Seq::<char>::empty(),
            },
    {
        match &self.response {
            Some(resp) => resp.body.clone(),
            None => String::new(),
        }
    }

    /// `pm.response.code`: the status, or 0 without a response.
    pub fn resp_code(&self) -> (r: i32)
        ensures
            r == match self.response {
                Some(resp) => resp.status as i32,
                None => 0i32,
            },
    {
        match &self.response {
            Some(resp) => resp.status as i32,
            None => 0,
        }
    }

    /// `pm.response.headers`: the response headers as a map, empty without
    /// a response.
    pub fn resp_headers_all(&self) -> (r: StringMap)
        ensures
            r@ == match self.response {
                Some(resp) => entries_map(resp.headers@),
                None => Map::<Seq<char>, Seq<char>>::empty(),
            },
    {
        match &self.response {
            Some(resp) => StringMap::from_pairs(&resp.headers),
            None => StringMap::new(),
        }
    }

    /// Outcome of the run: the script's error, or environment, headers,
    /// tests and logs.
    pub fn finish(self) -> (r: Result<ScriptResult, AppError>)
        ensures
            match self.error {
                Some(e) => r matches Err(AppError::ScriptError(m)) && m@ == e@,
                None => r matches Ok(res) && res.environment@ == self.environment@ && res.headers
                    == self.headers && res.tests == self.tests && res.logs == self.logs,
            },
    {
        match self.error {
            Some(e) => Err(script_error(e)),
            None => Ok(
                ScriptResult {
                    environment: self.environment,
                    headers: self.headers,
                    tests: self.tests,
                    logs: self.logs,
                },
            ),
        }
    }
}

/// `first_ci` points at a match exactly when one exists, and at the first.
pub proof fn lemma_first_ci(hs: Seq<(Seq<char>, Seq<char>)>, key: Seq<char>, i: int)
    requires
        0 <= i <= hs.len(),
    ensures
        i <= first_ci(hs, key, i) <= hs.len(),
        first_ci(hs, key, i) < hs.len() ==> eq_ignore_case(hs[first_ci(hs, key, i)].0, key),
        forall|j: int| i <= j < first_ci(hs, key, i) ==> !eq_ignore_case(#[trigger] hs[j].0, key),
        (first_ci(hs, key, i) < hs.len()) == (exists|j: int|
            i <= j < hs.len() && eq_ignore_case(#[trigger] hs[j].0, key)),
    decreases hs.len() - i,
{
    if i < hs.len() && !eq_ignore_case(hs[i].0, key) {
        lemma_first_ci(hs, key, i + 1);
    }
}

/// `header_lookup` gives the value at the first matching position.
pub proof fn lemma_lookup_first(hs: Seq<(Seq<char>, Seq<char>)>, key: Seq<char>, i: int)
    requires
        0 <= i <= hs.len(),
    ensures
        header_lookup(hs.skip(i), key) == if first_ci(hs, key, i) < hs.len() {
            Some(hs[first_ci(hs, key, i)].1)
        } else {
            None::<Seq<char>>
        },
    decreases hs.len() - i,
{
    if i < hs.len() {
        assert(hs.skip(i)[0] == hs[i]);
        assert(hs.skip(i).drop_first() =~= hs.skip(i + 1));
        if !eq_ignore_case(hs[i].0, key) {
            lemma_lookup_first(hs, key, i + 1);
        }
    }
}

/// Reading a header back after setting it gives the value set.
pub proof fn law_header_upsert_then_get(hs: Seq<(Seq<char>, Seq<char>)>, key: Seq<char>, value: Seq<char>)
    ensures
        header_lookup(upsert_spec(hs, key, value), key) == Some(value),
{
    let u = upsert_spec(hs, key, value);
    lemma_first_ci(hs, key, 0);
    let i = first_ci(hs, key, 0);
    assert(eq_ignore_case(key, key));
    lemma_first_ci(u, key, 0);
    let j = first_ci(u, key, 0);
    assert(u[i].0 == if i < hs.len() { hs[i].0 } else { key });
    assert(eq_ignore_case(u[i].0, key));
    assert forall|t: int| 0 <= t < i implies !eq_ignore_case(#[trigger] u[t].0, key) by {
        assert(u[t] == hs[t]);
    }
    if j < i {
        assert(u[j] == hs[j]);
    }
    assert(j == i);
    lemma_lookup_first(u, key, 0);
    assert(u.skip(0) =~= u);
}

/// After a header is removed no header of that name is left.
pub proof fn law_header_remove_then_absent(hs: Seq<(Seq<char>, Seq<char>)>, key: Seq<char>)
    ensures
        !has_spec(remove_spec(hs, key), key),
    decreases hs.len(),
{
    if hs.len() > 0 {
        law_header_remove_then_absent(hs.drop_last(), key);
        let r = remove_spec(hs.drop_last(), key);
        if !eq_ignore_case(hs.last().0, key) {
            assert forall|i: int| 0 <= i < r.push(hs.last()).len() implies !eq_ignore_case(
                #[trigger] r.push(hs.last())[i].0,
                key,
            ) by {
                if i < r.len() {
                    assert(r.push(hs.last())[i] == r[i]);
                }
            }
        }
    }
}

/// A header is present exactly when reading it gives a value.
pub proof fn law_header_has_iff_get(hs: Seq<(Seq<char>, Seq<char>)>, key: Seq<char>)
    ensures
        has_spec(hs, key) <==> header_lookup(hs, key) is Some,
{
    lemma_first_ci(hs, key, 0);
    lemma_lookup_first(hs, key, 0);
    assert(hs.skip(0) =~= hs);
}

/// Counting matches over a sequence whose names are unchanged gives the same count.
proof fn lemma_count_same_names(a: Seq<(Seq<char>, Seq<char>)>, b: Seq<(Seq<char>, Seq<char>)>, key: Seq<char>)
    requires
        a.len() == b.len(),
        forall|i: int| 0 <= i < a.len() ==> #[trigger] a[i].0 == b[i].0,
    ensures
        count_ci(a, key) == count_ci(b, key),
    decreases a.len(),
{
    if a.len() > 0 {
        assert forall|i: int| 0 <= i < a.drop_last().len() implies #[trigger] a.drop_last()[i].0
            == b.drop_last()[i].0 by {
            assert(a.drop_last()[i] == a[i] && b.drop_last()[i] == b[i]);
        }
        lemma_count_same_names(a.drop_last(), b.drop_last(), key);
        assert(a.last().0 == b[b.len() - 1].0);
    }
}

/// No match at all gives count zero, and some match a positive count.
proof fn lemma_count_zero(hs: Seq<(Seq<char>, Seq<char>)>, key: Seq<char>)
    ensures
        (count_ci(hs, key) == 0) == !has_spec(hs, key),
    decreases hs.len(),
{
    if hs.len() > 0 {
        lemma_count_zero(hs.drop_last(), key);
        let t = hs.drop_last();
        if has_spec(t, key) {
            let i = choose|i: int| 0 <= i < t.len() && eq_ignore_case(#[trigger] t[i].0, key);
            assert(hs[i] == t[i]);
        }
        if has_spec(hs, key) && !eq_ignore_case(hs.last().0, key) {
            let i = choose|i: int| 0 <= i < hs.len() && eq_ignore_case(#[trigger] hs[i].0, key);
            assert(t[i] == hs[i]);
        }
    }
}

/// Setting a header never duplicates its name: one match after setting an
/// absent header, the same number of matches otherwise.
pub proof fn law_header_upsert_no_duplicate(hs: Seq<(Seq<char>, Seq<char>)>, key: Seq<char>, value: Seq<char>)
    ensures
        count_ci(upsert_spec(hs, key, value), key) == if count_ci(hs, key) == 0 {
            1
        } else {
            count_ci(hs, key)
        },
{
    lemma_first_ci(hs, key, 0);
    lemma_count_zero(hs, key);
    let i = first_ci(hs, key, 0);
    let u = upsert_spec(hs, key, value);
    if i < hs.len() {
        lemma_count_same_names(u, hs, key);
    } else {
        assert(u.drop_last() =~= hs);
        assert(eq_ignore_case(key, key));
    }
}

/// Reading an environment variable back after setting it gives the value set;
/// other variables are untouched.
pub proof fn law_env_set_then_get(env: Map<Seq<char>, Seq<char>>, key: Seq<char>, value: Seq<char>, other: Seq<char>)
    ensures
        env.insert(key, value).contains_key(key),
        env.insert(key, value)[key] == value,
        other != key ==> env.insert(key, value).contains_key(other) == env.contains_key(other),
        other != key && env.contains_key(other) ==> env.insert(key, value)[other] == env[other],
{
}

/// After unsetting an environment variable it is absent; others are untouched.
pub proof fn law_env_unset_then_absent(env: Map<Seq<char>, Seq<char>>, key: Seq<char>, other: Seq<char>)
    ensures
        !env.remove(key).contains_key(key),
        other != key ==> env.remove(key).contains_key(other) == env.contains_key(other),
{
}

/// The error of a script that could not be evaluated: the timeout message
/// once the deadline has passed, otherwise `脚本执行失败：` and the detail.
pub fn classify_eval_error(timed_out: bool, detail: &str) -> (r: AppError)
    ensures
        r matches AppError::ScriptError(m) && m@ == if timed_out {
            SCRIPT_TIMEOUT_MESSAGE@
        } else {
            "脚本执行失败："@ + detail@
        },
{
    if timed_out {
        script_error(SCRIPT_TIMEOUT_MESSAGE.to_owned())
    } else {
        script_error(cat("脚本执行失败：", detail))
    }
}

/// The error of an engine that could not be set up.
pub fn init_error(detail: &str) -> (r: AppError)
    ensures
        r matches AppError::ScriptError(m) && m@ == "脚本环境初始化失败："@ + detail@,
{
    script_error(cat("脚本环境初始化失败：", detail))
}

/// What one poll of the script's promise gave.
pub enum PromiseOutcome {
    /// The promise settled.
    Settled,
    /// Still waiting on pending jobs.
    Pending,
    /// The promise was rejected or the engine failed, with this detail.
    Failed(String),
}

/// What to do after a poll.
pub enum DriveAction {
    /// The script has finished.
    Done,
    /// Sleep briefly and poll again.
    Wait,
    /// Stop with this error.
    Stop(AppError),
}

/// One step of driving a script's promise: past the deadline it times out;
/// a settled promise is done; a pending one waits; a failure reports its
/// detail, or the timeout if the deadline passed meanwhile.
pub fn drive_step(past_deadline: bool, outcome: PromiseOutcome, past_deadline_now: bool) -> (r: DriveAction)
    ensures
        past_deadline ==> (r matches DriveAction::Stop(AppError::ScriptError(m)) && m@
            == SCRIPT_TIMEOUT_MESSAGE@),
        !past_deadline ==> match outcome {
            PromiseOutcome::Settled => r is Done,
            PromiseOutcome::Pending => r is Wait,
            PromiseOutcome::Failed(d) => r matches DriveAction::Stop(AppError::ScriptError(m))
                && m@ == if past_deadline_now {
                SCRIPT_TIMEOUT_MESSAGE@
            } else {
                "脚本执行失败："@ + d@
            },
        },
{
    if past_deadline {
        return DriveAction::Stop(script_error(SCRIPT_TIMEOUT_MESSAGE.to_owned()));
    }
    match outcome {
        PromiseOutcome::Settled => DriveAction::Done,
        PromiseOutcome::Pending => DriveAction::Wait,
        PromiseOutcome::Failed(d) => DriveAction::Stop(classify_eval_error(past_deadline_now, d.as_str())),
    }
}

/// What scripts see as the request body is the text of the bytes the
/// request sends: when the body sends bytes, they are the UTF-8 encoding of
/// that text; when it sends nothing, the text is empty.
pub proof fn law_body_text_is_sent_text(body: BodySpecView)
    ensures
        payload_spec(body) matches Some((bytes, _)) ==> vstd::utf8::encode_utf8(body_text_spec(body)) == bytes,
        payload_spec(body) is None ==> body_text_spec(body).len() == 0,
{
}

} // verus!
