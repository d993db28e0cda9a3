//! HTTP request building and response parsing.
//!
//! The transfer itself is done by the caller; this module decides what is
//! sent (URL with query, headers, body) and how what came back is read.

use vstd::prelude::*;
use crate::codec::{
    base64_encode, base64_standard, form_urlencoded, lossy_text, pair_views, parse_url_with_pairs,
    to_lower, unicode_lower, url_with_pairs, urlencode_pairs, utf8_lossy,
};
use crate::model::{
    kv_views, ApiKeyLocation, AppError, AuthSpec, AuthSpecView, BodySpec, BodySpecView, KeyValue,
    KeyValueView, RequestSpec, RequestSpecView,
};
use crate::text::{
    chars_of, contains_seq, contains_str, eq_ci_vec, eq_ignore_case, string_of, sub_vec, trim,
    trim_bounds, trim_str,
};

verus! {

/// Default timeout, in milliseconds.
pub const DEFAULT_TIMEOUT_MS: u64 = 30_000;

/// Largest response body kept, in bytes.
pub const MAX_BODY_BYTES: usize = 20 * 1024 * 1024;

/// A cookie set by the response.
pub struct CookieData {
    pub name: String,
    pub value: String,
}

/// A received response.
pub struct HttpResponseData {
    pub status: u16,
    pub headers: Vec<(String, String)>,
    pub body: Vec<u8>,
    pub duration_ms: u64,
    pub size_bytes: usize,
    pub cookies: Vec<CookieData>,
    pub truncated: bool,
}

/// Value of the first header whose name equals `name` ignoring ASCII case.
pub open spec fn header_lookup(hs: Seq<(Seq<char>, Seq<char>)>, name: Seq<char>) -> Option<
    Seq<char>,
>
    decreases hs.len(),
{
    if hs.len() == 0 {
        None
    } else if eq_ignore_case(hs[0].0, name) {
        Some(hs[0].1)
    } else {
        header_lookup(hs.drop_first(), name)
    }
}

/// First header value whose name matches `name` (ASCII case-insensitively).
pub fn find_header(hs: &Vec<(String, String)>, name: &str) -> (r: Option<String>)
    ensures
        match r {
            Some(v) => header_lookup(pair_views(hs@), name@) == Some(v@),
            None => header_lookup(pair_views(hs@), name@) is None,
        },
{
    let ghost all = pair_views(hs@);
    let n = chars_of(name);
    let mut i: usize = 0;
    assert(all.skip(0) =~= all);
    while i < hs.len()
        invariant
            i <= hs@.len(),
            all == pair_views(hs@),
            n@ == name@,
            header_lookup(all, name@) == header_lookup(all.skip(i as int), name@),
        decreases hs.len() - i,
    {
        let k = chars_of(hs[i].0.as_str());
        proof {
            assert(all.skip(i as int)[0] == all[i as int]);
            assert(all.skip(i as int).drop_first() == all.skip(i + 1));
        }
        if eq_ci_vec(&k, &n) {
            return Some(hs[i].1.clone());
        }
        i = i + 1;
    }
    None
}

impl HttpResponseData {
    /// The body decoded as UTF-8, invalid sequences replaced.
    pub fn body_text(&self) -> (r: String)
        ensures
            r@ == utf8_lossy(self.body@),
            vstd::utf8::valid_utf8(self.body@) ==> r@ == vstd::utf8::decode_utf8(self.body@),
    {
        lossy_text(self.body.as_slice())
    }

    /// The `Content-Type` header (first one, any case), or the empty string.
    pub fn content_type(&self) -> (r: String)
        ensures
            r@ == match header_lookup(pair_views(self.headers@), "content-type"@) {
                Some(v) => v,
                None => Seq::<char>::empty(),
            },
    {
        match find_header(&self.headers, "content-type") {
            Some(v) => v,
            None => String::new(),
        }
    }
}

/// Whether some header name, trimmed, equals `name` ignoring ASCII case.
pub open spec fn has_header_spec(hs: Seq<(Seq<char>, Seq<char>)>, name: Seq<char>) -> bool {
    exists|i: int| 0 <= i < hs.len() && eq_ignore_case(trim(#[trigger] hs[i].0), name)
}

/// Whether a header is already present (ASCII case-insensitive, name trimmed).
pub fn has_header(headers: &Vec<(String, String)>, name: &str) -> (r: bool)
    ensures
        r == has_header_spec(pair_views(headers@), name@),
{
    let ghost all = pair_views(headers@);
    let n = chars_of(name);
    let mut i: usize = 0;
    while i < headers.len()
        invariant
            i <= headers@.len(),
            all == pair_views(headers@),
            n@ == name@,
            forall|j: int| 0 <= j < i ==> !eq_ignore_case(trim(#[trigger] all[j].0), name@),
        decreases headers.len() - i,
    {
        let k = trim_str(headers[i].0.as_str());
        let kv = chars_of(k.as_str());
        if eq_ci_vec(&kv, &n) {
            assert(all[i as int].0 == headers@[i as int].0@);
            return true;
        }
        i = i + 1;
    }
    false
}

/// Enabled rows as header pairs, names trimmed.
pub open spec fn header_rows(s: Seq<KeyValueView>) -> Seq<(Seq<char>, Seq<char>)>
    decreases s.len(),
{
    if s.len() == 0 {
        Seq::empty()
    } else {
        let r = header_rows(s.drop_last());
        let kv = s.last();
        if kv.enabled {
            r.push((trim(kv.key), kv.value))
        } else {
            r
        }
    }
}

/// Enabled rows whose trimmed key is not empty, as query pairs.
pub open spec fn query_rows(s: Seq<KeyValueView>) -> Seq<(Seq<char>, Seq<char>)>
    decreases s.len(),
{
    if s.len() == 0 {
        Seq::empty()
    } else {
        let r = query_rows(s.drop_last());
        let kv = s.last();
        if kv.enabled && trim(kv.key).len() > 0 {
            r.push((trim(kv.key), kv.value))
        } else {
            r
        }
    }
}

/// Enabled rows as name/value pairs, unchanged.
pub open spec fn form_rows(s: Seq<KeyValueView>) -> Seq<(Seq<char>, Seq<char>)>
    decreases s.len(),
{
    if s.len() == 0 {
        Seq::empty()
    } else {
        let r = form_rows(s.drop_last());
        let kv = s.last();
        if kv.enabled {
            r.push((kv.key, kv.value))
        } else {
            r
        }
    }
}

proof fn lemma_views_step(v: Seq<KeyValue>, i: int)
    requires
        0 <= i < v.len(),
    ensures
        kv_views(v.take(i + 1)).drop_last() == kv_views(v.take(i)),
        kv_views(v.take(i + 1)).last() == v[i]@,
        kv_views(v.take(i + 1)).len() > 0,
{
    assert(kv_views(v.take(i + 1)).drop_last() =~= kv_views(v.take(i)));
}

proof fn lemma_views_full(v: Seq<KeyValue>)
    ensures
        kv_views(v.take(v.len() as int)) == kv_views(v),
{
    assert(v.take(v.len() as int) =~= v);
}

/// Enabled rows as header pairs, names trimmed.
pub fn enabled_headers(rows: &Vec<KeyValue>) -> (r: Vec<(String, String)>)
    ensures
        pair_views(r@) == header_rows(kv_views(rows@)),
{
    let mut out: Vec<(String, String)> = Vec::new();
    let mut i: usize = 0;
    while i < rows.len()
        invariant
            i <= rows@.len(),
            pair_views(out@) == header_rows(kv_views(rows@.take(i as int))),
        decreases rows.len() - i,
    {
        proof {
            lemma_views_step(rows@, i as int);
        }
        let ghost before = out@;
        if rows[i].enabled {
            let k = trim_str(rows[i].key.as_str());
            out.push((k, rows[i].value.clone()));
            assert(pair_views(out@) =~= pair_views(before).push((trim(rows@[i as int].key@), rows@[i as int].value@)));
        }
        i = i + 1;
    }
    proof {
        lemma_views_full(rows@);
    }
    out
}

/// Enabled rows with a non-empty trimmed key, as query pairs.
pub fn query_pairs(rows: &Vec<KeyValue>) -> (r: Vec<(String, String)>)
    ensures
        pair_views(r@) == query_rows(kv_views(rows@)),
{
    let mut out: Vec<(String, String)> = Vec::new();
    let mut i: usize = 0;
    while i < rows.len()
        invariant
            i <= rows@.len(),
            pair_views(out@) == query_rows(kv_views(rows@.take(i as int))),
        decreases rows.len() - i,
    {
        proof {
            lemma_views_step(rows@, i as int);
        }
        let ghost before = out@;
        if rows[i].enabled {
            let k = trim_str(rows[i].key.as_str());
            if k.as_str().unicode_len() > 0 {
                out.push((k, rows[i].value.clone()));
                assert(pair_views(out@) =~= pair_views(before).push((trim(rows@[i as int].key@), rows@[i as int].value@)));
            }
        }
        i = i + 1;
    }
    proof {
        lemma_views_full(rows@);
    }
    out
}

/// Enabled rows as form pairs.
pub fn form_pairs(rows: &Vec<KeyValue>) -> (r: Vec<(String, String)>)
    ensures
        pair_views(r@) == form_rows(kv_views(rows@)),
{
    let mut out: Vec<(String, String)> = Vec::new();
    let mut i: usize = 0;
    while i < rows.len()
        invariant
            i <= rows@.len(),
            pair_views(out@) == form_rows(kv_views(rows@.take(i as int))),
        decreases rows.len() - i,
    {
        proof {
            lemma_views_step(rows@, i as int);
        }
        let ghost before = out@;
        if rows[i].enabled {
            out.push((rows[i].key.clone(), rows[i].value.clone()));
            assert(pair_views(out@) =~= pair_views(before).push((rows@[i as int].key@, rows@[i as int].value@)));
        }
        i = i + 1;
    }
    proof {
        lemma_views_full(rows@);
    }
    out
}

/// String concatenation.
pub fn cat(a: &str, b: &str) -> (r: String)
    ensures
        r@ == a@ + b@,
{
    a.to_owned().concat(b)
}

/// Rendered request body and its default content type.
pub enum Payload {
    /// Nothing is sent.
    NoBody,
    /// These bytes are sent, with this `content-type` unless one is set.
    Bytes(Vec<u8>, Option<&'static str>),
}

/// What the body specification sends: its bytes and its content type.
pub open spec fn payload_spec(body: BodySpecView) -> Option<(Seq<u8>, Seq<char>)> {
    match body {
        BodySpecView::Json { raw } => Some((vstd::utf8::encode_utf8(raw), "application/json"@)),
        BodySpecView::Text { raw } => Some((vstd::utf8::encode_utf8(raw), "text/plain"@)),
        BodySpecView::UrlEncoded { fields } => Some(
            (
                vstd::utf8::encode_utf8(form_urlencoded(form_rows(fields))),
                "application/x-www-form-urlencoded"@,
            ),
        ),
        _ => None,
    }
}

/// Render the body: JSON and text as they are, form fields url-encoded,
/// multipart not sent.
pub fn build_payload(spec: &RequestSpec) -> (r: Payload)
    ensures
        match r {
            Payload::NoBody => payload_spec(spec.body@) is None,
            Payload::Bytes(b, ct) => ct.is_some() && payload_spec(spec.body@) == Some(
                (b@, ct.unwrap()@),
            ),
        },
{
    match &spec.body {
        BodySpec::Empty => Payload::NoBody,
        BodySpec::Json { raw } => Payload::Bytes(
            vstd::slice::slice_to_vec(raw.as_str().as_bytes()),
            Some("application/json"),
        ),
        BodySpec::Text { raw } => Payload::Bytes(
            vstd::slice::slice_to_vec(raw.as_str().as_bytes()),
            Some("text/plain"),
        ),
        BodySpec::UrlEncoded { fields } => {
            let pairs = form_pairs(fields);
            let body = urlencode_pairs(&pairs);
            Payload::Bytes(
                vstd::slice::slice_to_vec(body.as_str().as_bytes()),
                Some("application/x-www-form-urlencoded"),
            )
        },
        BodySpec::Multipart { .. } => Payload::NoBody,
    }
}

/// Headers that authentication adds.
pub open spec fn auth_headers(auth: AuthSpecView) -> Seq<(Seq<char>, Seq<char>)> {
    match auth {
        AuthSpecView::Bearer { token } => if token.len() == 0 {
            Seq::empty()
        } else {
            seq![("Authorization"@, "Bearer "@ + token)]
        },
        AuthSpecView::Basic { username, password } => seq![
            (
                "Authorization"@,
                "Basic "@ + base64_standard(vstd::utf8::encode_utf8(username + ":"@ + password)),
            ),
        ],
        AuthSpecView::ApiKey { key, value, location } => if key.len() == 0 || location
            == ApiKeyLocation::Query {
            Seq::empty()
        } else {
            seq![(key, value)]
        },
        _ => Seq::empty(),
    }
}

/// Query rows that authentication adds.
pub open spec fn auth_query(auth: AuthSpecView) -> Seq<KeyValueView> {
    match auth {
        AuthSpecView::ApiKey { key, value, location } => if key.len() > 0 && location
            == ApiKeyLocation::Query {
            seq![KeyValueView { key, value, enabled: true, description: Seq::empty() }]
        } else {
            Seq::empty()
        },
        _ => Seq::empty(),
    }
}

/// Turn the authentication into a header or a query row.
pub fn apply_auth(headers: &mut Vec<(String, String)>, query: &mut Vec<KeyValue>, auth: &AuthSpec)
    ensures
        pair_views(final(headers)@) == pair_views(old(headers)@) + auth_headers(auth@),
        kv_views(final(query)@) == kv_views(old(query)@) + auth_query(auth@),
{
    let ghost h0 = headers@;
    let ghost q0 = query@;
    match auth {
        AuthSpec::Bearer { token } => {
            if token.as_str().unicode_len() > 0 {
                headers.push(("Authorization".to_owned(), cat("Bearer ", token.as_str())));
                assert(pair_views(headers@) =~= pair_views(h0) + auth_headers(auth@));
            } else {
                assert(pair_views(headers@) =~= pair_views(h0) + auth_headers(auth@));
            }
        },
        AuthSpec::Basic { username, password } => {
            let user_colon = cat(username.as_str(), ":");
            let raw = cat(user_colon.as_str(), password.as_str());
            let encoded = base64_encode(raw.as_str().as_bytes());
            headers.push(("Authorization".to_owned(), cat("Basic ", encoded.as_str())));
            assert(pair_views(headers@) =~= pair_views(h0) + auth_headers(auth@));
        },
        AuthSpec::ApiKey { key, value, location } => {
            if key.as_str().unicode_len() > 0 {
                match location {
                    ApiKeyLocation::Header => {
                        headers.push((key.clone(), value.clone()));
                    },
                    ApiKeyLocation::Query => {
                        query.push(KeyValue::new(key.as_str(), value.as_str()));
                    },
                }
            }
            assert(pair_views(headers@) =~= pair_views(h0) + auth_headers(auth@));
        },
        _ => {
            assert(pair_views(headers@) =~= pair_views(h0) + auth_headers(auth@));
        },
    }
    assert(kv_views(query@) =~= kv_views(q0) + auth_query(auth@));
}

/// Everything needed to send a request.
pub struct PreparedRequest {
    /// Final URL, query included.
    pub url: String,
    /// Headers to send, in order (names not empty).
    pub headers: Vec<(String, String)>,
    /// Body bytes, if any.
    pub body: Option<Vec<u8>>,
    /// Timeout in milliseconds.
    pub timeout_ms: u64,
}

/// Header pairs whose name is not empty.
pub open spec fn named_rows(s: Seq<(Seq<char>, Seq<char>)>) -> Seq<(Seq<char>, Seq<char>)>
    decreases s.len(),
{
    if s.len() == 0 {
        Seq::empty()
    } else {
        let r = named_rows(s.drop_last());
        if s.last().0.len() > 0 {
            r.push(s.last())
        } else {
            r
        }
    }
}

/// Headers with an empty name dropped.
pub fn named_headers(hs: &Vec<(String, String)>) -> (r: Vec<(String, String)>)
    ensures
        pair_views(r@) == named_rows(pair_views(hs@)),
{
    let mut out: Vec<(String, String)> = Vec::new();
    let mut i: usize = 0;
    while i < hs.len()
        invariant
            i <= hs@.len(),
            pair_views(out@) == named_rows(pair_views(hs@.take(i as int))),
        decreases hs.len() - i,
    {
        proof {
            assert(pair_views(hs@.take(i + 1)).drop_last() =~= pair_views(hs@.take(i as int)));
        }
        let ghost before = out@;
        if hs[i].0.as_str().unicode_len() > 0 {
            out.push((hs[i].0.clone(), hs[i].1.clone()));
            assert(pair_views(out@) =~= pair_views(before).push((hs@[i as int].0@, hs@[i as int].1@)));
        }
        i = i + 1;
    }
    assert(hs@.take(hs.len() as int) =~= hs@);
    out
}

/// Headers after authentication, before empty names are dropped.
pub open spec fn all_headers(spec: RequestSpecView) -> Seq<(Seq<char>, Seq<char>)> {
    header_rows(spec.headers) + auth_headers(spec.auth)
}

/// Headers sent: non-empty names, then the body's content type unless one is set.
pub open spec fn sent_headers(spec: RequestSpecView) -> Seq<(Seq<char>, Seq<char>)> {
    let hs = named_rows(all_headers(spec));
    match payload_spec(spec.body) {
        Some((_, ct)) => if has_header_spec(all_headers(spec), "content-type"@) {
            hs
        } else {
            hs.push(("content-type"@, ct))
        },
        None => hs,
    }
}

/// Query pairs sent: the parameters, then authentication's.
pub open spec fn sent_query(spec: RequestSpecView) -> Seq<(Seq<char>, Seq<char>)> {
    query_rows(spec.params) + query_rows(auth_query(spec.auth))
}

/// Prepare a request: the URL with its query, the headers, the body and the
/// timeout (30 s when none is given). An unparsable URL is refused.
pub fn prepare_request(url: &str, spec: &RequestSpec, timeout_ms: Option<u64>) -> (r: Result<
    PreparedRequest,
    AppError,
>)
    ensures
        match url_with_pairs(url@, sent_query(spec@)) {
            Ok(u) => r matches Ok(p) && {
                &&& p.url@ == u
                &&& pair_views(p.headers@) == sent_headers(spec@)
                &&& p.timeout_ms == match timeout_ms {
                    Some(t) => t,
                    None => DEFAULT_TIMEOUT_MS,
                }
                &&& match payload_spec(spec.body@) {
                    Some((b, _)) => p.body matches Some(v) && v@ == b,
                    None => p.body is None,
                }
            },
            Err(e) => r matches Err(AppError::Validation(m)) && m@ == "URL 无效："@ + e,
        },
{
    let timeout = match timeout_ms {
        Some(t) => t,
        None => DEFAULT_TIMEOUT_MS,
    };
    let mut query_extra: Vec<KeyValue> = Vec::new();
    let mut headers = enabled_headers(&spec.headers);
    apply_auth(&mut headers, &mut query_extra, &spec.auth);
    let mut pairs = query_pairs(&spec.params);
    let extra = query_pairs(&query_extra);
    let ghost p0 = pairs@;
    let mut j: usize = 0;
    while j < extra.len()
        invariant
            j <= extra@.len(),
            pair_views(pairs@) == pair_views(p0) + pair_views(extra@.take(j as int)),
        decreases extra.len() - j,
    {
        let ghost before = pairs@;
        pairs.push((extra[j].0.clone(), extra[j].1.clone()));
        assert(pair_views(pairs@) =~= pair_views(before).push((extra@[j as int].0@, extra@[j as int].1@)));
        assert(pair_views(extra@.take(j + 1)) =~= pair_views(extra@.take(j as int)).push(
            (extra@[j as int].0@, extra@[j as int].1@),
        ));
        j = j + 1;
    }
    assert(extra@.take(extra.len() as int) =~= extra@);
    assert(kv_views(query_extra@) =~= auth_query(spec.auth@));
    let full = match parse_url_with_pairs(url, &pairs) {
        Ok(u) => u,
        Err(e) => {
            return Err(AppError::Validation(cat("URL 无效：", e.as_str())));
        },
    };
    let payload = build_payload(spec);
    let mut sent = named_headers(&headers);
    let body = match payload {
        Payload::NoBody => None,
        Payload::Bytes(b, ct) => {
            if let Some(c) = ct {
                if !has_header(&headers, "content-type") {
                    sent.push(("content-type".to_owned(), c.to_owned()));
                }
            }
            Some(b)
        },
    };
    Ok(PreparedRequest { url: full, headers: sent, body, timeout_ms: timeout })
}

/// Index of the first `c` in `s`, or `s.len()` when there is none.
pub open spec fn find_char(s: Seq<char>, c: char, i: int) -> int
    decreases s.len() - i,
{
    if i >= s.len() {
        s.len() as int
    } else if s[i] == c {
        i
    } else {
        find_char(s, c, i + 1)
    }
}

/// Position of the first `c` in `v`, or its length.
pub fn find_char_vec(v: &Vec<char>, c: char) -> (r: usize)
    ensures
        r as int == find_char(v@, c, 0),
        r <= v.len(),
{
    let mut i: usize = 0;
    while i < v.len() && v[i] != c
        invariant
            i <= v.len(),
            find_char(v@, c, 0) == find_char(v@, c, i as int),
        decreases v.len() - i,
    {
        i = i + 1;
    }
    i
}

/// The cookie a `Set-Cookie` value sets: the part before the first `;`,
/// trimmed, split at its first `=`.
pub open spec fn cookie_spec(value: Seq<char>) -> Option<(Seq<char>, Seq<char>)> {
    let first = trim(value.take(find_char(value, ';', 0)));
    let e = find_char(first, '=', 0);
    if e >= first.len() {
        None
    } else {
        Some((first.take(e), first.skip(e + 1)))
    }
}

/// Parse one `Set-Cookie` header value.
pub fn parse_set_cookie(value: &str) -> (r: Option<CookieData>)
    ensures
        match cookie_spec(value@) {
            Some((n, v)) => r matches Some(c) && c.name@ == n && c.value@ == v,
            None => r is None,
        },
{
    let all = chars_of(value);
    let semi = find_char_vec(&all, ';');
    let seg = sub_vec(&all, 0, semi);
    let (a, b) = trim_bounds(&seg);
    let first = sub_vec(&seg, a, b);
    assert(first@ == trim(value@.take(find_char(value@, ';', 0))));
    let eq = find_char_vec(&first, '=');
    if eq >= first.len() {
        return None;
    }
    let name = sub_vec(&first, 0, eq);
    let val = sub_vec(&first, eq + 1, first.len());
    assert(name@ == first@.take(eq as int));
    assert(val@ == first@.skip(eq + 1));
    Some(CookieData { name: string_of(&name), value: string_of(&val) })
}

/// Append a received chunk, keeping at most `limit` bytes; true when
/// something was cut.
pub fn append_chunk(body: &mut Vec<u8>, chunk: &[u8], limit: usize) -> (truncated: bool)
    requires
        old(body)@.len() <= limit,
    ensures
        truncated == (old(body)@.len() + chunk@.len() > limit),
        truncated ==> final(body)@ == old(body)@ + chunk@.take(limit - old(body)@.len()),
        !truncated ==> final(body)@ == old(body)@ + chunk@,
        final(body)@.len() <= limit,
{
    let ghost b0 = body@;
    let room = limit - body.len();
    let cut = chunk.len() > room;
    let n = if cut {
        room
    } else {
        chunk.len()
    };
    let mut i: usize = 0;
    while i < n
        invariant
            n <= chunk@.len(),
            i <= n,
            body@ == b0 + chunk@.take(i as int),
        decreases n - i,
    {
        body.push(chunk[i]);
        assert(chunk@.take(i + 1) == chunk@.take(i as int).push(chunk@[i as int]));
        i = i + 1;
    }
    assert(chunk@.take(chunk@.len() as int) == chunk@);
    cut
}

/// What is known of a transport error.
pub struct HttpErrorInfo {
    pub is_timeout: bool,
    pub is_connect: bool,
    pub is_builder: bool,
    /// The error and its causes, lower-cased, joined by ` | `.
    pub chain: String,
}

/// The user-facing description of a transport error.
pub open spec fn describe_spec(info_timeout: bool, info_connect: bool, info_builder: bool, chain: Seq<char>) -> Seq<char> {
    if info_timeout {
        "连接超时：服务器未在限定时间内响应（默认 30 秒）"@
    } else if contains_seq(chain, "lookup"@) || contains_seq(chain, "name or service not known"@)
        || contains_seq(chain, "dns"@) || (contains_seq(chain, "resolve"@) && !contains_seq(
        chain,
        "certificate"@,
    )) {
        "DNS 解析失败：域名不存在或网络不可用"@
    } else if info_connect {
        "连接失败：目标拒绝连接或网络不可达"@
    } else if contains_seq(chain, "certificate"@) || contains_seq(chain, "tls"@) {
        "TLS 证书错误：证书无效、已过期或不受信任"@
    } else if info_builder {
        "HTTP 请求构建失败"@
    } else {
        "请求失败，服务端未返回有效响应"@
    }
}

/// Describe a transport error in words (timeout, DNS, connection, TLS).
pub fn describe_http_error(e: &HttpErrorInfo) -> (r: String)
    ensures
        r@ == describe_spec(e.is_timeout, e.is_connect, e.is_builder, e.chain@),
{
    let c = e.chain.as_str();
    if e.is_timeout {
        "连接超时：服务器未在限定时间内响应（默认 30 秒）".to_owned()
    } else if contains_str(c, "lookup") || contains_str(c, "name or service not known")
        || contains_str(c, "dns") || (contains_str(c, "resolve") && !contains_str(
        c,
        "certificate",
    )) {
        "DNS 解析失败：域名不存在或网络不可用".to_owned()
    } else if e.is_connect {
        "连接失败：目标拒绝连接或网络不可达".to_owned()
    } else if contains_str(c, "certificate") || contains_str(c, "tls") {
        "TLS 证书错误：证书无效、已过期或不受信任".to_owned()
    } else if e.is_builder {
        "HTTP 请求构建失败".to_owned()
    } else {
        "请求失败，服务端未返回有效响应".to_owned()
    }
}

/// Texts joined by a separator.
pub open spec fn join(parts: Seq<Seq<char>>, sep: Seq<char>) -> Seq<char>
    decreases parts.len(),
{
    if parts.len() == 0 {
        Seq::empty()
    } else if parts.len() == 1 {
        parts[0]
    } else {
        join(parts.drop_last(), sep) + sep + parts.last()
    }
}

/// The lower-cased texts of an error and its causes, joined by ` | `.
pub fn source_chain(parts: &Vec<String>) -> (r: String)
    ensures
        r@ == join(parts@.map_values(|p: String| unicode_lower(p@)), " | "@),
{
    let ghost lows = parts@.map_values(|p: String| unicode_lower(p@));
    let mut out = String::new();
    let mut i: usize = 0;
    while i < parts.len()
        invariant
            i <= parts@.len(),
            lows == parts@.map_values(|p: String| unicode_lower(p@)),
            out@ == join(lows.take(i as int), " | "@),
        decreases parts.len() - i,
    {
        let low = to_lower(parts[i].as_str());
        assert(lows.take(i + 1).drop_last() =~= lows.take(i as int));
        if i == 0 {
            out = low;
            assert(lows.take(1) =~= seq![lows[0]]);
        } else {
            let with_sep = cat(out.as_str(), " | ");
            out = cat(with_sep.as_str(), low.as_str());
        }
        i = i + 1;
    }
    assert(lows.take(parts.len() as int) =~= lows);
    out
}

/// Query pairs always have a name: a row whose trimmed name is blank adds
/// nothing to the query, and every pair the rows give has a non-empty name.
pub proof fn law_query_names_not_blank(rows: Seq<KeyValueView>, blank: KeyValueView)
    requires
        trim(blank.key).len() == 0,
    ensures
        query_rows(rows.push(blank)) == query_rows(rows),
        forall|i: int| 0 <= i < query_rows(rows).len() ==> (#[trigger] query_rows(rows)[i]).0.len() > 0,
    decreases rows.len(),
{
    assert(rows.push(blank).drop_last() =~= rows);
    if rows.len() > 0 {
        law_query_names_not_blank(rows.drop_last(), blank);
    }
}

/// Every pair appended to a request's URL has a non-empty name, whether it
/// comes from the parameters or from an API key.
pub proof fn law_sent_query_names_not_blank(spec: RequestSpecView)
    ensures
        forall|i: int| 0 <= i < sent_query(spec).len() ==> (#[trigger] sent_query(spec)[i]).0.len() > 0,
{
    let blank = KeyValueView { key: Seq::empty(), value: Seq::empty(), enabled: true, description: Seq::empty() };
    assert(trim(blank.key).len() == 0);
    law_query_names_not_blank(spec.params, blank);
    law_query_names_not_blank(auth_query(spec.auth), blank);
    let a = query_rows(spec.params);
    let b = query_rows(auth_query(spec.auth));
    assert forall|i: int| 0 <= i < sent_query(spec).len() implies (#[trigger] sent_query(spec)[i]).0.len() > 0 by {
        if i < a.len() {
            assert(sent_query(spec)[i] == a[i]);
        } else {
            assert(sent_query(spec)[i] == b[i - a.len()]);
        }
    }
}

/// Adding a row to the parameters adds its pair at the end of the query
/// (name trimmed, value as typed) when it is enabled and named, and adds
/// nothing otherwise.
pub proof fn law_query_row_added(rows: Seq<KeyValueView>, kv: KeyValueView)
    ensures
        kv.enabled && trim(kv.key).len() > 0 ==> query_rows(rows.push(kv)) == query_rows(rows).push(
            (trim(kv.key), kv.value),
        ),
        !kv.enabled ==> query_rows(rows.push(kv)) == query_rows(rows),
{
    assert(rows.push(kv).drop_last() =~= rows);
}

} // verus!
