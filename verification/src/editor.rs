//! Request editor: switching body and auth modes, row access, applying an
//! imported cURL command, tabs, and test result rows.

use vstd::prelude::*;
use crate::client::cat;
use crate::model::{
    copy_kvs, kv_views, ApiKeyLocation, AuthSpec, AuthSpecView, BodySpec, BodySpecView, HttpMethod,
    KeyValue, KeyValueView, RequestSpec, RequestSpecView,
};
use crate::text::{chars_of, contains_seq, contains_str, str_eq, string_of, sub_vec, trim, trim_str};

verus! {

/// Default OAuth2 redirect address.
pub const DEFAULT_REDIRECT_URI: &'static str = "http://127.0.0.1:9090/callback";

/// Raw text of a JSON or text body, empty otherwise.
pub open spec fn raw_of(b: BodySpecView) -> Seq<char> {
    match b {
        BodySpecView::Json { raw } => raw,
        BodySpecView::Text { raw } => raw,
        _ => Seq::empty(),
    }
}

/// Body after switching to `mode`: raw text carried between JSON and text,
/// form fields kept only when already a form.
pub open spec fn switch_body_spec(cur: BodySpecView, mode: Seq<char>) -> BodySpecView {
    if mode == "json"@ {
        BodySpecView::Json { raw: raw_of(cur) }
    } else if mode == "text"@ {
        BodySpecView::Text { raw: raw_of(cur) }
    } else if mode == "urlencoded"@ {
        BodySpecView::UrlEncoded {
            fields: match cur {
                BodySpecView::UrlEncoded { fields } => fields,
                _ => Seq::empty(),
            },
        }
    } else {
        BodySpecView::Empty
    }
}

fn raw_text(b: &BodySpec) -> (r: String)
    ensures
        r@ == raw_of(b@),
{
    match b {
        BodySpec::Json { raw } => raw.clone(),
        BodySpec::Text { raw } => raw.clone(),
        _ => String::new(),
    }
}

/// Switch the body mode, keeping the raw text where it fits.
pub fn switch_body_mode(current: &BodySpec, mode: &str) -> (r: BodySpec)
    ensures
        r@ == switch_body_spec(current@, mode@),
{
    proof {
        reveal_strlit("json");
        reveal_strlit("text");
        reveal_strlit("urlencoded");
    }
    let raw = raw_text(current);
    if str_eq(mode, "json") {
        BodySpec::Json { raw }
    } else if str_eq(mode, "text") {
        BodySpec::Text { raw }
    } else if str_eq(mode, "urlencoded") {
        let fields = match current {
            BodySpec::UrlEncoded { fields } => copy_kvs(fields),
            _ => Vec::new(),
        };
        assert(kv_views(fields@) == match current@ {
            BodySpecView::UrlEncoded { fields } => fields,
            _ => Seq::<KeyValueView>::empty(),
        }) by {
            if !(current@ is UrlEncoded) {
                assert(kv_views(fields@) =~= Seq::<KeyValueView>::empty());
            }
        }
        BodySpec::UrlEncoded { fields }
    } else {
        BodySpec::Empty
    }
}

/// Raw text remembered after leaving `cur`.
pub open spec fn kept_raw(cur: BodySpecView, keep: Seq<char>) -> Seq<char> {
    match cur {
        BodySpecView::Json { raw } => raw,
        BodySpecView::Text { raw } => raw,
        _ => keep,
    }
}

/// Form fields remembered after leaving `cur`.
pub open spec fn kept_fields(cur: BodySpecView, keep: Seq<KeyValueView>) -> Seq<KeyValueView> {
    match cur {
        BodySpecView::UrlEncoded { fields } => fields,
        _ => keep,
    }
}

/// Body after switching to `mode` with remembered text and fields: an empty
/// target is filled back from them.
pub open spec fn switch_keep_spec(
    cur: BodySpecView,
    mode: Seq<char>,
    raw_keep: Seq<char>,
    fields_keep: Seq<KeyValueView>,
) -> BodySpecView {
    match switch_body_spec(cur, mode) {
        BodySpecView::Json { raw } => BodySpecView::Json {
            raw: if raw.len() == 0 && raw_keep.len() > 0 {
                raw_keep
            } else {
                raw
            },
        },
        BodySpecView::Text { raw } => BodySpecView::Text {
            raw: if raw.len() == 0 && raw_keep.len() > 0 {
                raw_keep
            } else {
                raw
            },
        },
        BodySpecView::UrlEncoded { fields } => BodySpecView::UrlEncoded {
            fields: if fields.len() == 0 && fields_keep.len() > 0 {
                fields_keep
            } else {
                fields
            },
        },
        other => other,
    }
}

/// Switch the body mode remembering what is left: the raw text and the form
/// fields of the body being left are kept, and an empty target is filled
/// back from them.
pub fn switch_body_mode_keep(
    current: &BodySpec,
    mode: &str,
    raw_keep: &mut String,
    fields_keep: &mut Vec<KeyValue>,
) -> (r: BodySpec)
    ensures
        final(raw_keep)@ == kept_raw(current@, old(raw_keep)@),
        kv_views(final(fields_keep)@) == kept_fields(current@, kv_views(old(fields_keep)@)),
        r@ == switch_keep_spec(current@, mode@, final(raw_keep)@, kv_views(final(fields_keep)@)),
{
    match current {
        BodySpec::Json { raw } => {
            *raw_keep = raw.clone();
        },
        BodySpec::Text { raw } => {
            *raw_keep = raw.clone();
        },
        BodySpec::UrlEncoded { fields } => {
            *fields_keep = copy_kvs(fields);
        },
        _ => {},
    }
    let next = switch_body_mode(current, mode);
    match next {
        BodySpec::Json { raw } => {
            if raw.as_str().unicode_len() == 0 && raw_keep.as_str().unicode_len() > 0 {
                BodySpec::Json { raw: raw_keep.clone() }
            } else {
                BodySpec::Json { raw }
            }
        },
        BodySpec::Text { raw } => {
            if raw.as_str().unicode_len() == 0 && raw_keep.as_str().unicode_len() > 0 {
                BodySpec::Text { raw: raw_keep.clone() }
            } else {
                BodySpec::Text { raw }
            }
        },
        BodySpec::UrlEncoded { fields } => {
            if fields.len() == 0 && fields_keep.len() > 0 {
                BodySpec::UrlEncoded { fields: copy_kvs(fields_keep) }
            } else {
                BodySpec::UrlEncoded { fields }
            }
        },
        other => other,
    }
}

/// Mode name of a JSON, text or form body.
pub open spec fn body_mode_name(b: BodySpecView) -> Seq<char> {
    match b {
        BodySpecView::Json { .. } => "json"@,
        BodySpecView::Text { .. } => "text"@,
        _ => "urlencoded"@,
    }
}

/// Switching a JSON, text or form body to no body and back to its mode
/// restores it, whatever was remembered before.
pub proof fn law_body_survives_none(cur: BodySpecView, raw_keep: Seq<char>, fields_keep: Seq<KeyValueView>)
    requires
        cur is Json || cur is Text || cur is UrlEncoded,
    ensures
        ({
            let rk1 = kept_raw(cur, raw_keep);
            let fk1 = kept_fields(cur, fields_keep);
            let none = switch_keep_spec(cur, "none"@, rk1, fk1);
            let rk2 = kept_raw(none, rk1);
            let fk2 = kept_fields(none, fk1);
            none == BodySpecView::Empty && switch_keep_spec(none, body_mode_name(cur), rk2, fk2) == cur
        }),
{
    reveal_strlit("none");
    reveal_strlit("json");
    reveal_strlit("text");
    reveal_strlit("urlencoded");
    assert("none"@[0] != "json"@[0]);
    assert("none"@[0] != "text"@[0]);
    assert("none"@ != "json"@);
    assert("none"@ != "text"@);
    assert("none"@ != "urlencoded"@);
    assert("text"@ != "json"@);
    assert("urlencoded"@ != "json"@);
    assert("urlencoded"@ != "text"@);
    match cur {
        BodySpecView::Json { raw } => {
            if raw.len() == 0 {
                assert(raw =~= Seq::<char>::empty());
            }
        },
        BodySpecView::Text { raw } => {
            if raw.len() == 0 {
                assert(raw =~= Seq::<char>::empty());
            }
        },
        BodySpecView::UrlEncoded { fields } => {
            if fields.len() == 0 {
                assert(fields =~= Seq::<KeyValueView>::empty());
            }
        },
        _ => {},
    }
}

/// Auth after switching to `mode`: the same kind keeps its fields, another
/// kind starts empty (an API key in a header, OAuth2 with the default
/// redirect address).
pub open spec fn switch_auth_spec(cur: AuthSpecView, mode: Seq<char>) -> AuthSpecView {
    if mode == "bearer"@ {
        match cur {
            AuthSpecView::Bearer { token } => AuthSpecView::Bearer { token },
            _ => AuthSpecView::Bearer { token: Seq::empty() },
        }
    } else if mode == "basic"@ {
        match cur {
            AuthSpecView::Basic { username, password } => AuthSpecView::Basic { username, password },
            _ => AuthSpecView::Basic { username: Seq::empty(), password: Seq::empty() },
        }
    } else if mode == "apikey"@ {
        match cur {
            AuthSpecView::ApiKey { key, value, location } => AuthSpecView::ApiKey {
                key,
                value,
                location,
            },
            _ => AuthSpecView::ApiKey {
                key: Seq::empty(),
                value: Seq::empty(),
                location: ApiKeyLocation::Header,
            },
        }
    } else if mode == "oauth2"@ {
        match cur {
            AuthSpecView::OAuth2 { .. } => cur,
            _ => AuthSpecView::OAuth2 {
                client_id: Seq::empty(),
                client_secret: Seq::empty(),
                auth_url: Seq::empty(),
                token_url: Seq::empty(),
                scope: Seq::empty(),
                redirect_uri: DEFAULT_REDIRECT_URI@,
                token: None,
            },
        }
    } else {
        AuthSpecView::NoAuth
    }
}

/// Switch the authentication mode, keeping fields of the same kind.
pub fn switch_auth(current: &AuthSpec, mode: &str) -> (r: AuthSpec)
    ensures
        r@ == switch_auth_spec(current@, mode@),
{
    proof {
        reveal_strlit("bearer");
        reveal_strlit("basic");
        reveal_strlit("apikey");
        reveal_strlit("oauth2");
    }
    if str_eq(mode, "bearer") {
        match current {
            AuthSpec::Bearer { .. } => current.clone(),
            _ => AuthSpec::Bearer { token: String::new() },
        }
    } else if str_eq(mode, "basic") {
        match current {
            AuthSpec::Basic { .. } => current.clone(),
            _ => AuthSpec::Basic { username: String::new(), password: String::new() },
        }
    } else if str_eq(mode, "apikey") {
        match current {
            AuthSpec::ApiKey { .. } => current.clone(),
            _ => AuthSpec::ApiKey {
                key: String::new(),
                value: String::new(),
                location: ApiKeyLocation::Header,
            },
        }
    } else if str_eq(mode, "oauth2") {
        match current {
            AuthSpec::OAuth2 { .. } => current.clone(),
            _ => AuthSpec::OAuth2 {
                client_id: String::new(),
                client_secret: String::new(),
                auth_url: String::new(),
                token_url: String::new(),
                scope: String::new(),
                redirect_uri: DEFAULT_REDIRECT_URI.to_owned(),
                token: None,
            },
        }
    } else {
        AuthSpec::NoAuth
    }
}

/// Name of the authentication mode.
pub open spec fn auth_mode_spec(a: AuthSpecView) -> Seq<char> {
    match a {
        AuthSpecView::NoAuth => "none"@,
        AuthSpecView::Bearer { .. } => "bearer"@,
        AuthSpecView::Basic { .. } => "basic"@,
        AuthSpecView::ApiKey { .. } => "apikey"@,
        AuthSpecView::OAuth2 { .. } => "oauth2"@,
    }
}

/// Name of the authentication mode (as `switch_auth` takes it).
pub fn auth_mode(auth: &AuthSpec) -> (r: &'static str)
    ensures
        r@ == auth_mode_spec(auth@),
{
    match auth {
        AuthSpec::NoAuth => "none",
        AuthSpec::Bearer { .. } => "bearer",
        AuthSpec::Basic { .. } => "basic",
        AuthSpec::ApiKey { .. } => "apikey",
        AuthSpec::OAuth2 { .. } => "oauth2",
    }
}

/// Switching to the mode an auth already has gives it back unchanged.
pub proof fn law_switch_auth_same_mode(a: AuthSpecView)
    ensures
        auth_mode_spec(a) != "none"@ ==> switch_auth_spec(a, auth_mode_spec(a)) == a,
        auth_mode_spec(a) == "none"@ ==> switch_auth_spec(a, auth_mode_spec(a)) == AuthSpecView::NoAuth,
{
    reveal_strlit("none");
    reveal_strlit("bearer");
    reveal_strlit("basic");
    reveal_strlit("apikey");
    reveal_strlit("oauth2");
    assert("bearer"@[0] != "apikey"@[0]);
    assert("bearer"@[0] != "oauth2"@[0]);
    assert("apikey"@[0] != "oauth2"@[0]);
    assert("basic"@[0] != "bearer"@[0] || "basic"@[1] != "bearer"@[1]);
    match a {
        AuthSpecView::NoAuth => {},
        AuthSpecView::Bearer { .. } => {
            assert(auth_mode_spec(a) == "bearer"@);
        },
        AuthSpecView::Basic { .. } => {
            assert(auth_mode_spec(a) == "basic"@);
            assert("basic"@ != "bearer"@);
        },
        AuthSpecView::ApiKey { .. } => {
            assert("apikey"@ != "bearer"@);
            assert("apikey"@ != "basic"@);
        },
        AuthSpecView::OAuth2 { .. } => {
            assert("oauth2"@ != "bearer"@);
            assert("oauth2"@ != "basic"@);
            assert("oauth2"@ != "apikey"@);
        },
    }
}

/// Name of an API key location.
pub fn loc_name(loc: ApiKeyLocation) -> (r: &'static str)
    ensures
        r@ == if loc == ApiKeyLocation::Header {
            "header"@
        } else {
            "query"@
        },
{
    if loc == ApiKeyLocation::Header {
        "header"
    } else {
        "query"
    }
}

/// The parts of an endpoint that the editor works on.
pub struct Endpoint {
    pub name: String,
    pub method: HttpMethod,
    pub path: String,
    pub request: RequestSpec,
}

/// A new endpoint draft: `新建接口`, `GET /api/new`, an empty request.
pub fn blank_endpoint() -> (r: Endpoint)
    ensures
        r.name@ == "新建接口"@,
        r.method == HttpMethod::GET,
        r.path@ == "/api/new"@,
        r.request.params@.len() == 0,
        r.request.headers@.len() == 0,
        r.request.path_variables@.len() == 0,
        r.request.body is Empty,
        r.request.auth is NoAuth,
{
    Endpoint {
        name: "新建接口".to_owned(),
        method: HttpMethod::GET,
        path: "/api/new".to_owned(),
        request: RequestSpec::default(),
    }
}

/// Raw text of the endpoint's JSON or text body, empty otherwise.
pub fn body_raw(ep: &Endpoint) -> (r: String)
    ensures
        r@ == raw_of(ep.request.body@),
{
    raw_text(&ep.request.body)
}

/// Which list of rows an editor table shows.
#[derive(PartialEq, Eq, Structural, Clone, Copy, Debug)]
pub enum KvSection {
    Params,
    Headers,
    UrlEncoded,
}

/// Rows of a section of a request (form rows only when the body is a form).
pub open spec fn rows_in(r: RequestSpecView, section: KvSection) -> Seq<KeyValueView> {
    match section {
        KvSection::Params => r.params,
        KvSection::Headers => r.headers,
        KvSection::UrlEncoded => match r.body {
            BodySpecView::UrlEncoded { fields } => fields,
            _ => Seq::empty(),
        },
    }
}

/// Rows of a section of an endpoint.
pub open spec fn section_rows(ep: Endpoint, section: KvSection) -> Seq<KeyValueView> {
    rows_in(ep.request@, section)
}

/// Row `index` of a section, if there is one.
pub fn kv_row_values(ep: &Endpoint, section: KvSection, index: usize) -> (r: Option<KeyValue>)
    ensures
        match r {
            Some(kv) => index < section_rows(*ep, section).len() && kv@ == section_rows(
                *ep,
                section,
            )[index as int],
            None => index >= section_rows(*ep, section).len(),
        },
{
    let rows: &Vec<KeyValue> = match section {
        KvSection::Params => &ep.request.params,
        KvSection::Headers => &ep.request.headers,
        KvSection::UrlEncoded => match &ep.request.body {
            BodySpec::UrlEncoded { fields } => fields,
            _ => {
                return None;
            },
        },
    };
    if index < rows.len() {
        Some(rows[index].clone())
    } else {
        None
    }
}

/// Number of rows of a section.
pub fn kv_len(ep: &Endpoint, section: KvSection) -> (r: usize)
    ensures
        r == section_rows(*ep, section).len(),
{
    match section {
        KvSection::Params => ep.request.params.len(),
        KvSection::Headers => ep.request.headers.len(),
        KvSection::UrlEncoded => match &ep.request.body {
            BodySpec::UrlEncoded { fields } => fields.len(),
            _ => 0,
        },
    }
}

/// The request with a section's rows replaced; for the form section the
/// body becomes a form holding them.
pub open spec fn with_section_rows(r: RequestSpecView, section: KvSection, rows: Seq<KeyValueView>) -> RequestSpecView {
    match section {
        KvSection::Params => RequestSpecView {
            params: rows,
            headers: r.headers,
            path_variables: r.path_variables,
            body: r.body,
            auth: r.auth,
        },
        KvSection::Headers => RequestSpecView {
            params: r.params,
            headers: rows,
            path_variables: r.path_variables,
            body: r.body,
            auth: r.auth,
        },
        KvSection::UrlEncoded => RequestSpecView {
            params: r.params,
            headers: r.headers,
            path_variables: r.path_variables,
            body: BodySpecView::UrlEncoded { fields: rows },
            auth: r.auth,
        },
    }
}

/// One edit made in a row of an editor table.
pub enum KvEdit {
    Enabled(bool),
    Key(String),
    Value(String),
    Description(String),
}

/// A row after an edit.
pub open spec fn edited(kv: KeyValueView, e: KvEdit) -> KeyValueView {
    match e {
        KvEdit::Enabled(b) => KeyValueView { key: kv.key, value: kv.value, enabled: b, description: kv.description },
        KvEdit::Key(k) => KeyValueView { key: k@, value: kv.value, enabled: kv.enabled, description: kv.description },
        KvEdit::Value(v) => KeyValueView { key: kv.key, value: v@, enabled: kv.enabled, description: kv.description },
        KvEdit::Description(d) => KeyValueView { key: kv.key, value: kv.value, enabled: kv.enabled, description: d@ },
    }
}

fn rows_of(ep: &Endpoint, section: KvSection) -> (r: Vec<KeyValue>)
    ensures
        kv_views(r@) == section_rows(*ep, section),
{
    match section {
        KvSection::Params => copy_kvs(&ep.request.params),
        KvSection::Headers => copy_kvs(&ep.request.headers),
        KvSection::UrlEncoded => match &ep.request.body {
            BodySpec::UrlEncoded { fields } => copy_kvs(fields),
            _ => {
                let v: Vec<KeyValue> = Vec::new();
                assert(kv_views(v@) =~= Seq::<KeyValueView>::empty());
                v
            },
        },
    }
}

fn put_rows(ep: &mut Endpoint, section: KvSection, rows: Vec<KeyValue>)
    ensures
        final(ep).request@ == with_section_rows(old(ep).request@, section, kv_views(rows@)),
        final(ep).name == old(ep).name,
        final(ep).method == old(ep).method,
        final(ep).path == old(ep).path,
{
    match section {
        KvSection::Params => {
            ep.request.params = rows;
        },
        KvSection::Headers => {
            ep.request.headers = rows;
        },
        KvSection::UrlEncoded => {
            ep.request.body = BodySpec::UrlEncoded { fields: rows };
        },
    }
}

/// Edit row `index` of a section (nothing when there is no such row; the
/// form section turns the body into a form either way).
pub fn edit_kv_row(ep: &mut Endpoint, section: KvSection, index: usize, edit: KvEdit)
    ensures
        final(ep).request@ == with_section_rows(
            old(ep).request@,
            section,
            if index < section_rows(*old(ep), section).len() {
                section_rows(*old(ep), section).update(
                    index as int,
                    edited(section_rows(*old(ep), section)[index as int], edit),
                )
            } else {
                section_rows(*old(ep), section)
            },
        ),
        final(ep).name == old(ep).name,
        final(ep).method == old(ep).method,
        final(ep).path == old(ep).path,
{
    let mut rows = rows_of(ep, section);
    if index < rows.len() {
        let old_row = rows[index].clone();
        let row = match edit {
            KvEdit::Enabled(b) => KeyValue {
                key: old_row.key,
                value: old_row.value,
                enabled: b,
                description: old_row.description,
            },
            KvEdit::Key(k) => KeyValue {
                key: k,
                value: old_row.value,
                enabled: old_row.enabled,
                description: old_row.description,
            },
            KvEdit::Value(v) => KeyValue {
                key: old_row.key,
                value: v,
                enabled: old_row.enabled,
                description: old_row.description,
            },
            KvEdit::Description(d) => KeyValue {
                key: old_row.key,
                value: old_row.value,
                enabled: old_row.enabled,
                description: d,
            },
        };
        let ghost before = rows@;
        rows.set(index, row);
        assert(kv_views(rows@) =~= kv_views(before).update(index as int, row@));
    }
    put_rows(ep, section, rows);
}

/// Remove row `index` of a section (nothing when there is no such row; the
/// form section turns the body into a form either way).
pub fn remove_kv_row(ep: &mut Endpoint, section: KvSection, index: usize)
    ensures
        final(ep).request@ == with_section_rows(
            old(ep).request@,
            section,
            if index < section_rows(*old(ep), section).len() {
                section_rows(*old(ep), section).remove(index as int)
            } else {
                section_rows(*old(ep), section)
            },
        ),
        final(ep).name == old(ep).name,
        final(ep).method == old(ep).method,
        final(ep).path == old(ep).path,
{
    let mut rows = rows_of(ep, section);
    if index < rows.len() {
        let ghost before = rows@;
        rows.remove(index);
        assert(kv_views(rows@) =~= kv_views(before).remove(index as int));
    }
    put_rows(ep, section, rows);
}

/// Append an empty, enabled row to a section.
pub fn add_kv_row(ep: &mut Endpoint, section: KvSection)
    ensures
        final(ep).request@ == with_section_rows(
            old(ep).request@,
            section,
            section_rows(*old(ep), section).push(
                KeyValueView {
                    key: Seq::empty(),
                    value: Seq::empty(),
                    enabled: true,
                    description: Seq::empty(),
                },
            ),
        ),
        final(ep).name == old(ep).name,
        final(ep).method == old(ep).method,
        final(ep).path == old(ep).path,
{
    let mut rows = rows_of(ep, section);
    let ghost before = rows@;
    proof {
        reveal_strlit("");
    }
    let row = KeyValue::new("", "");
    assert(row.key@ =~= Seq::<char>::empty());
    assert(row.value@ =~= Seq::<char>::empty());
    rows.push(row);
    assert(kv_views(rows@) =~= kv_views(before).push(rows@.last()@));
    put_rows(ep, section, rows);
}

/// Writing a table's rows gives them back when that table is read, and
/// leaves the other tables as they were.
pub proof fn law_section_rows_isolated(
    r: RequestSpecView,
    section: KvSection,
    rows: Seq<KeyValueView>,
    other: KvSection,
)
    ensures
        rows_in(with_section_rows(r, section, rows), section) == rows,
        other != section ==> rows_in(with_section_rows(r, section, rows), other) == rows_in(r, other),
        with_section_rows(r, section, rows).auth == r.auth,
        with_section_rows(r, section, rows).path_variables == r.path_variables,
{
}

/// An authentication field shown in the editor.
#[derive(PartialEq, Eq, Structural, Clone, Copy, Debug)]
pub enum AuthField {
    BearerToken,
    BasicUser,
    BasicPass,
    ApiKeyName,
    ApiKeyValue,
    OAuth2ClientId,
    OAuth2ClientSecret,
    OAuth2AuthUrl,
    OAuth2TokenUrl,
    OAuth2Scope,
    OAuth2RedirectUri,
}

/// Value of a field for this kind of auth; empty when the field does not
/// belong to it.
pub open spec fn auth_value_spec(a: AuthSpecView, f: AuthField) -> Seq<char> {
    match (a, f) {
        (AuthSpecView::Bearer { token }, AuthField::BearerToken) => token,
        (AuthSpecView::Basic { username, .. }, AuthField::BasicUser) => username,
        (AuthSpecView::Basic { password, .. }, AuthField::BasicPass) => password,
        (AuthSpecView::ApiKey { key, .. }, AuthField::ApiKeyName) => key,
        (AuthSpecView::ApiKey { value, .. }, AuthField::ApiKeyValue) => value,
        (AuthSpecView::OAuth2 { client_id, .. }, AuthField::OAuth2ClientId) => client_id,
        (AuthSpecView::OAuth2 { client_secret, .. }, AuthField::OAuth2ClientSecret) => client_secret,
        (AuthSpecView::OAuth2 { auth_url, .. }, AuthField::OAuth2AuthUrl) => auth_url,
        (AuthSpecView::OAuth2 { token_url, .. }, AuthField::OAuth2TokenUrl) => token_url,
        (AuthSpecView::OAuth2 { scope, .. }, AuthField::OAuth2Scope) => scope,
        (AuthSpecView::OAuth2 { redirect_uri, .. }, AuthField::OAuth2RedirectUri) => redirect_uri,
        _ => Seq::empty(),
    }
}

/// Whether the field belongs to this kind of auth.
pub open spec fn field_applies(a: AuthSpecView, f: AuthField) -> bool {
    match (a, f) {
        (AuthSpecView::Bearer { .. }, AuthField::BearerToken) => true,
        (AuthSpecView::Basic { .. }, AuthField::BasicUser) => true,
        (AuthSpecView::Basic { .. }, AuthField::BasicPass) => true,
        (AuthSpecView::ApiKey { .. }, AuthField::ApiKeyName) => true,
        (AuthSpecView::ApiKey { .. }, AuthField::ApiKeyValue) => true,
        (AuthSpecView::OAuth2 { .. }, AuthField::OAuth2ClientId) => true,
        (AuthSpecView::OAuth2 { .. }, AuthField::OAuth2ClientSecret) => true,
        (AuthSpecView::OAuth2 { .. }, AuthField::OAuth2AuthUrl) => true,
        (AuthSpecView::OAuth2 { .. }, AuthField::OAuth2TokenUrl) => true,
        (AuthSpecView::OAuth2 { .. }, AuthField::OAuth2Scope) => true,
        (AuthSpecView::OAuth2 { .. }, AuthField::OAuth2RedirectUri) => true,
        _ => false,
    }
}

/// Value of an authentication field (empty when it does not apply).
pub fn auth_value(auth: &AuthSpec, field: AuthField) -> (r: String)
    ensures
        r@ == auth_value_spec(auth@, field),
{
    match (auth, field) {
        (AuthSpec::Bearer { token }, AuthField::BearerToken) => token.clone(),
        (AuthSpec::Basic { username, .. }, AuthField::BasicUser) => username.clone(),
        (AuthSpec::Basic { password, .. }, AuthField::BasicPass) => password.clone(),
        (AuthSpec::ApiKey { key, .. }, AuthField::ApiKeyName) => key.clone(),
        (AuthSpec::ApiKey { value, .. }, AuthField::ApiKeyValue) => value.clone(),
        (AuthSpec::OAuth2 { client_id, .. }, AuthField::OAuth2ClientId) => client_id.clone(),
        (AuthSpec::OAuth2 { client_secret, .. }, AuthField::OAuth2ClientSecret) => client_secret.clone(),
        (AuthSpec::OAuth2 { auth_url, .. }, AuthField::OAuth2AuthUrl) => auth_url.clone(),
        (AuthSpec::OAuth2 { token_url, .. }, AuthField::OAuth2TokenUrl) => token_url.clone(),
        (AuthSpec::OAuth2 { scope, .. }, AuthField::OAuth2Scope) => scope.clone(),
        (AuthSpec::OAuth2 { redirect_uri, .. }, AuthField::OAuth2RedirectUri) => redirect_uri.clone(),
        _ => String::new(),
    }
}

/// Set an authentication field; a field of another kind of auth is ignored.
pub fn set_auth_value(auth: &mut AuthSpec, field: AuthField, v: String)
    ensures
        auth_mode_spec(final(auth)@) == auth_mode_spec(old(auth)@),
        field_applies(old(auth)@, field) ==> auth_value_spec(final(auth)@, field) == v@,
        !field_applies(old(auth)@, field) ==> final(auth)@ == old(auth)@,
        forall|g: AuthField| g != field ==> auth_value_spec(#[trigger] final(auth)@, g) == auth_value_spec(old(auth)@, g),
{
    match (auth, field) {
        (AuthSpec::Bearer { token }, AuthField::BearerToken) => *token = v,
        (AuthSpec::Basic { username, .. }, AuthField::BasicUser) => *username = v,
        (AuthSpec::Basic { password, .. }, AuthField::BasicPass) => *password = v,
        (AuthSpec::ApiKey { key, .. }, AuthField::ApiKeyName) => *key = v,
        (AuthSpec::ApiKey { value, .. }, AuthField::ApiKeyValue) => *value = v,
        (AuthSpec::OAuth2 { client_id, .. }, AuthField::OAuth2ClientId) => *client_id = v,
        (AuthSpec::OAuth2 { client_secret, .. }, AuthField::OAuth2ClientSecret) => *client_secret = v,
        (AuthSpec::OAuth2 { auth_url, .. }, AuthField::OAuth2AuthUrl) => *auth_url = v,
        (AuthSpec::OAuth2 { token_url, .. }, AuthField::OAuth2TokenUrl) => *token_url = v,
        (AuthSpec::OAuth2 { scope, .. }, AuthField::OAuth2Scope) => *scope = v,
        (AuthSpec::OAuth2 { redirect_uri, .. }, AuthField::OAuth2RedirectUri) => *redirect_uri = v,
        _ => {},
    }
}

/// A parsed cURL command.
pub struct CurlParsed {
    pub method: HttpMethod,
    pub url: String,
    pub headers: Vec<KeyValue>,
    pub auth: AuthSpec,
    pub body: Option<BodySpec>,
}

/// `s` without trailing `/` characters.
pub open spec fn strip_slashes(s: Seq<char>) -> Seq<char>
    decreases s.len(),
{
    if s.len() > 0 && s.last() == '/' {
        strip_slashes(s.drop_last())
    } else {
        s
    }
}

/// Position just after the last `/` of `s` (0 when there is none).
pub open spec fn after_last_slash(s: Seq<char>) -> int
    decreases s.len(),
{
    if s.len() == 0 {
        0
    } else if s.last() == '/' {
        s.len() as int
    } else {
        after_last_slash(s.drop_last())
    }
}

/// Name taken from a URL: its last non-empty path segment, or `导入接口`.
pub open spec fn name_from_url(url: Seq<char>) -> Seq<char> {
    let t = strip_slashes(url);
    if t.len() == 0 {
        "导入接口"@
    } else {
        t.skip(after_last_slash(t))
    }
}

proof fn lemma_after_last_slash(s: Seq<char>)
    ensures
        0 <= after_last_slash(s) <= s.len(),
    decreases s.len(),
{
    if s.len() > 0 && s.last() != '/' {
        lemma_after_last_slash(s.drop_last());
    }
}

/// Name taken from a URL (last path segment).
pub fn name_from_url_str(url: &str) -> (r: String)
    ensures
        r@ == name_from_url(url@),
{
    let v = chars_of(url);
    let mut e = v.len();
    assert(v@.take(v.len() as int) =~= v@);
    while e > 0 && v[e - 1] == '/'
        invariant
            e <= v.len(),
            strip_slashes(v@) == strip_slashes(v@.take(e as int)),
        decreases e,
    {
        assert(v@.take(e as int).drop_last() =~= v@.take(e - 1));
        e = e - 1;
    }
    assert(v@.take(v.len() as int) =~= v@);
    let t = sub_vec(&v, 0, e);
    assert(t@ =~= v@.take(e as int));
    assert(strip_slashes(t@) == t@);
    if e == 0 {
        return "导入接口".to_owned();
    }
    let mut b = e;
    assert(t@.take(e as int) =~= t@);
    while b > 0 && t[b - 1] != '/'
        invariant
            b <= e == t.len(),
            after_last_slash(t@) == after_last_slash(t@.take(b as int)),
        decreases b,
    {
        assert(t@.take(b as int).drop_last() =~= t@.take(b - 1));
        b = b - 1;
    }
    assert(t@.take(e as int) =~= t@);
    proof {
        if b > 0 {
            assert(t@.take(b as int).last() == '/');
        }
    }
    let seg = sub_vec(&t, b, e);
    assert(seg@ =~= t@.skip(b as int));
    string_of(&seg)
}

/// Apply an imported cURL command to an endpoint draft: method, URL,
/// headers and auth are replaced, the body too when the command has one; a
/// blank or default name is replaced by the URL's last segment.
pub fn apply_curl(ep: &mut Endpoint, parsed: &CurlParsed)
    ensures
        final(ep).method == parsed.method,
        final(ep).path@ == parsed.url@,
        kv_views(final(ep).request.headers@) == kv_views(parsed.headers@),
        final(ep).request.auth@ == parsed.auth@,
        final(ep).request.body@ == match parsed.body {
            Some(b) => b@,
            None => old(ep).request.body@,
        },
        kv_views(final(ep).request.params@) == kv_views(old(ep).request.params@),
        kv_views(final(ep).request.path_variables@) == kv_views(old(ep).request.path_variables@),
        final(ep).name@ == if trim(old(ep).name@).len() == 0 || trim(old(ep).name@) == "新建接口"@ {
            name_from_url(parsed.url@)
        } else {
            old(ep).name@
        },
{
    ep.method = parsed.method;
    ep.path = parsed.url.clone();
    ep.request.headers = copy_kvs(&parsed.headers);
    ep.request.auth = parsed.auth.clone();
    match &parsed.body {
        Some(body) => {
            ep.request.body = body.clone();
        },
        None => {},
    }
    let t = trim_str(ep.name.as_str());
    if t.as_str().unicode_len() == 0 || str_eq(t.as_str(), "新建接口") {
        ep.name = name_from_url_str(parsed.url.as_str());
    }
}

/// A new endpoint from an imported cURL command: named after the URL's last
/// segment, with the command's method, URL, headers, body (none without
/// one) and auth.
pub fn endpoint_from_curl(parsed: &CurlParsed) -> (r: Endpoint)
    ensures
        r.name@ == name_from_url(parsed.url@),
        r.method == parsed.method,
        r.path@ == parsed.url@,
        kv_views(r.request.headers@) == kv_views(parsed.headers@),
        r.request.body@ == match parsed.body {
            Some(b) => b@,
            None => BodySpecView::Empty,
        },
        r.request.auth@ == parsed.auth@,
        r.request.params@.len() == 0,
        r.request.path_variables@.len() == 0,
{
    Endpoint {
        name: name_from_url_str(parsed.url.as_str()),
        method: parsed.method,
        path: parsed.url.clone(),
        request: RequestSpec {
            params: Vec::new(),
            headers: copy_kvs(&parsed.headers),
            path_variables: Vec::new(),
            body: match &parsed.body {
                Some(b) => b.clone(),
                None => BodySpec::Empty,
            },
            auth: parsed.auth.clone(),
        },
    }
}

/// Tabs after opening `id`: appended unless already open.
pub open spec fn open_tab_spec(tabs: Seq<u128>, id: u128) -> Seq<u128> {
    if tabs.contains(id) {
        tabs
    } else {
        tabs.push(id)
    }
}

/// Open an endpoint's tab (once) and make it the active one, which is returned.
pub fn open_tab(tabs: &mut Vec<u128>, id: u128) -> (active: u128)
    ensures
        final(tabs)@ == open_tab_spec(old(tabs)@, id),
        active == id,
{
    let mut i: usize = 0;
    let mut found = false;
    while i < tabs.len()
        invariant
            i <= tabs@.len(),
            found == exists|k: int| 0 <= k < i && tabs@[k] == id,
        decreases tabs.len() - i,
    {
        if tabs[i] == id {
            found = true;
        }
        i = i + 1;
    }
    if !found {
        tabs.push(id);
    }
    id
}

/// Tabs other than `id`.
pub open spec fn other_than(id: u128) -> spec_fn(u128) -> bool {
    |t: u128| t != id
}

/// Tabs after closing `id`, with the new active tab: the closed one leaves
/// the list; if it was active, the last remaining tab becomes active (none
/// when no tab remains).
pub open spec fn close_tab_spec(tabs: Seq<u128>, active: Option<u128>, id: u128) -> (Seq<u128>, Option<u128>) {
    let rest = tabs.filter(other_than(id));
    let next = if active == Some(id) {
        if rest.len() > 0 {
            Some(rest.last())
        } else {
            None
        }
    } else {
        active
    };
    (rest, next)
}

/// Close a tab; the new active tab is returned.
pub fn close_tab(tabs: &mut Vec<u128>, active: Option<u128>, id: u128) -> (r: Option<u128>)
    ensures
        (final(tabs)@, r) == close_tab_spec(old(tabs)@, active, id),
{
    let ghost t0 = tabs@;
    let mut kept: Vec<u128> = Vec::new();
    let mut i: usize = 0;
    while i < tabs.len()
        invariant
            t0 == tabs@,
            i <= t0.len(),
            kept@ == t0.take(i as int).filter(other_than(id)),
        decreases tabs.len() - i,
    {
        let x = tabs[i];
        proof {
            assert(t0.take(i + 1).drop_last() =~= t0.take(i as int));
            reveal(Seq::filter);
        }
        if x != id {
            kept.push(x);
        }
        i = i + 1;
    }
    assert(t0.take(t0.len() as int) =~= t0);
    assert(kept@ == t0.filter(other_than(id)));
    *tabs = kept;
    let was_active = match active {
        Some(cur) => cur == id,
        None => false,
    };
    if was_active {
        if tabs.len() > 0 {
            Some(tabs[tabs.len() - 1])
        } else {
            None
        }
    } else {
        active
    }
}

/// Closing a tab removes it, and the new active tab is one of the tabs left.
pub proof fn law_close_tab(tabs: Seq<u128>, active: Option<u128>, id: u128)
    requires
        active matches Some(a) ==> tabs.contains(a),
    ensures
        !close_tab_spec(tabs, active, id).0.contains(id),
        close_tab_spec(tabs, active, id).1 matches Some(a) ==> close_tab_spec(tabs, active, id).0.contains(a),
{
    let pred = other_than(id);
    let rest = tabs.filter(pred);
    if rest.contains(id) {
        let k = choose|k: int| 0 <= k < rest.len() && rest[k] == id;
        tabs.lemma_filter_pred(pred, k);
    }
    if let Some(a) = active {
        if a != id {
            let i = choose|i: int| 0 <= i < tabs.len() && tabs[i] == a;
            tabs.lemma_filter_contains(pred, i);
        } else if rest.len() > 0 {
            assert(rest[rest.len() - 1] == rest.last());
        }
    }
}

/// Opening a tab keeps tabs distinct and makes it present; closing a tab
/// that was just opened (and was not open before) gives the tabs back.
pub proof fn law_open_close_tab(tabs: Seq<u128>, id: u128)
    ensures
        open_tab_spec(tabs, id).contains(id),
        tabs.no_duplicates() ==> open_tab_spec(tabs, id).no_duplicates(),
        !tabs.contains(id) ==> close_tab_spec(open_tab_spec(tabs, id), Some(id), id).0 == tabs,
{
    let o = open_tab_spec(tabs, id);
    if !tabs.contains(id) {
        assert(o[o.len() - 1] == id);
        assert(tabs.filter(other_than(id)) == tabs) by {
            lemma_filter_keeps_all(tabs, id);
        }
        assert(o.drop_last() =~= tabs);
        reveal(Seq::filter);
        assert(o.filter(other_than(id)) == tabs.filter(other_than(id)));
    } else {
        let k = choose|k: int| 0 <= k < tabs.len() && tabs[k] == id;
        assert(o[k] == id);
    }
}

proof fn lemma_filter_keeps_all(tabs: Seq<u128>, id: u128)
    requires
        !tabs.contains(id),
    ensures
        tabs.filter(other_than(id)) == tabs,
    decreases tabs.len(),
{
    reveal(Seq::filter);
    if tabs.len() > 0 {
        assert(!tabs.drop_last().contains(id)) by {
            if tabs.drop_last().contains(id) {
                let k = choose|k: int| 0 <= k < tabs.drop_last().len() && tabs.drop_last()[k] == id;
                assert(tabs[k] == id);
            }
        }
        lemma_filter_keeps_all(tabs.drop_last(), id);
        assert(tabs[tabs.len() - 1] != id);
        assert(tabs.drop_last().push(tabs.last()) =~= tabs);
    } else {
        assert(tabs.filter(other_than(id)) =~= tabs);
    }
}

/// Outcome of one check of an endpoint test.
pub struct AssertionOutcome {
    pub description: String,
    pub passed: bool,
    pub reason: Option<String>,
}

/// Result of testing one endpoint.
pub struct EndpointResult {
    pub endpoint_name: String,
    pub method: String,
    pub path: String,
    pub ok: bool,
    pub status: Option<u16>,
    pub duration_ms: Option<u64>,
    pub request_error: Option<String>,
    pub outcomes: Vec<AssertionOutcome>,
}

/// One row of the test results table.
pub struct TestRowView {
    pub name: String,
    pub method: String,
    pub path: String,
    pub ok: bool,
    pub skipped: bool,
    pub status: Option<u16>,
    pub duration_ms: Option<u64>,
    pub error: Option<String>,
    pub failures: Vec<String>,
}

/// Failure lines: each failed check's description, with its reason after `：`.
pub open spec fn failure_lines(os: Seq<AssertionOutcome>) -> Seq<Seq<char>>
    decreases os.len(),
{
    if os.len() == 0 {
        Seq::empty()
    } else {
        let r = failure_lines(os.drop_last());
        let o = os.last();
        if o.passed {
            r
        } else {
            r.push(
                match o.reason {
                    Some(reason) => o.description@ + "："@ + reason@,
                    None => o.description@,
                },
            )
        }
    }
}

/// Views of a list of strings.
pub open spec fn string_views(v: Seq<String>) -> Seq<Seq<char>> {
    v.map_values(|s: String| s@)
}

/// A result row: skipped when the error says no test is configured;
/// failures list the failed checks.
pub fn to_test_row(r: &EndpointResult) -> (row: TestRowView)
    ensures
        row.name == r.endpoint_name,
        row.method == r.method,
        row.path == r.path,
        row.ok == r.ok,
        row.status == r.status,
        row.duration_ms == r.duration_ms,
        row.error == r.request_error,
        row.skipped == match r.request_error {
            Some(e) => contains_seq(e@, "无测试配置"@),
            None => false,
        },
        string_views(row.failures@) == failure_lines(r.outcomes@),
{
    let skipped = match &r.request_error {
        Some(e) => contains_str(e.as_str(), "无测试配置"),
        None => false,
    };
    let mut failures: Vec<String> = Vec::new();
    let mut i: usize = 0;
    while i < r.outcomes.len()
        invariant
            i <= r.outcomes@.len(),
            string_views(failures@) == failure_lines(r.outcomes@.take(i as int)),
        decreases r.outcomes.len() - i,
    {
        assert(r.outcomes@.take(i + 1).drop_last() =~= r.outcomes@.take(i as int));
        let ghost before = failures@;
        let o = &r.outcomes[i];
        if !o.passed {
            let line = match &o.reason {
                Some(reason) => {
                    let a = cat(o.description.as_str(), "：");
                    cat(a.as_str(), reason.as_str())
                },
                None => o.description.clone(),
            };
            failures.push(line);
            assert(string_views(failures@) =~= string_views(before).push(failures@.last()@));
        }
        i = i + 1;
    }
    assert(r.outcomes@.take(r.outcomes.len() as int) =~= r.outcomes@);
    TestRowView {
        name: r.endpoint_name.clone(),
        method: r.method.clone(),
        path: r.path.clone(),
        ok: r.ok,
        skipped,
        status: r.status,
        duration_ms: r.duration_ms,
        error: match &r.request_error {
            Some(e) => Some(e.clone()),
            None => None,
        },
        failures,
    }
}

/// Switching between the raw modes keeps the text typed: a text body
/// becomes a JSON body with the same text and back, and switching to the
/// mode a body already has changes nothing.
pub proof fn law_raw_text_carried(t: Seq<char>, f: Seq<KeyValueView>)
    ensures
        switch_body_spec((BodySpecView::Text { raw: t }), "json"@) == (BodySpecView::Json { raw: t }),
        switch_body_spec((BodySpecView::Json { raw: t }), "text"@) == (BodySpecView::Text { raw: t }),
        switch_body_spec((BodySpecView::Json { raw: t }), "json"@) == (BodySpecView::Json { raw: t }),
        switch_body_spec((BodySpecView::Text { raw: t }), "text"@) == (BodySpecView::Text { raw: t }),
        switch_body_spec((BodySpecView::UrlEncoded { fields: f }), "urlencoded"@) == (BodySpecView::UrlEncoded { fields: f }),
        switch_body_spec((BodySpecView::Text { raw: t }), "none"@) == BodySpecView::Empty,
        switch_body_spec((BodySpecView::Json { raw: t }), "urlencoded"@) == (BodySpecView::UrlEncoded { fields: Seq::empty() }),
{
    reveal_strlit("json");
    reveal_strlit("text");
    reveal_strlit("urlencoded");
    reveal_strlit("none");
    assert("text"@[0] != "json"@[0]);
    assert("none"@[0] != "json"@[0] && "none"@[0] != "text"@[0]);
    assert("text"@ != "json"@);
    assert("none"@ != "json"@ && "none"@ != "text"@);
    assert("none"@ != "urlencoded"@ && "urlencoded"@ != "json"@ && "urlencoded"@ != "text"@);
}

} // verus!
