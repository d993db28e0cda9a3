//! Request model shared by the HTTP client, the script sandbox and the editor.

use vstd::prelude::*;

verus! {

/// One key/value row (query parameter, header, form field, path variable).
pub struct KeyValue {
    pub key: String,
    pub value: String,
    pub enabled: bool,
    pub description: String,
}

/// Mathematical value of a [`KeyValue`].
pub struct KeyValueView {
    pub key: Seq<char>,
    pub value: Seq<char>,
    pub enabled: bool,
    pub description: Seq<char>,
}

impl View for KeyValue {
    type V = KeyValueView;

    open spec fn view(&self) -> KeyValueView {
        KeyValueView {
            key: self.key@,
            value: self.value@,
            enabled: self.enabled,
            description: self.description@,
        }
    }
}

impl Clone for KeyValue {
    fn clone(&self) -> (r: Self)
        ensures
            r == *self,
    {
        KeyValue {
            key: self.key.clone(),
            value: self.value.clone(),
            enabled: self.enabled,
            description: self.description.clone(),
        }
    }
}

impl KeyValue {
    /// An enabled row with an empty description.
    pub fn new(key: &str, value: &str) -> (r: KeyValue)
        ensures
            r.key@ == key@,
            r.value@ == value@,
            r.enabled,
            r.description@ == Seq::<char>::empty(),
    {
        KeyValue {
            key: key.to_owned(),
            value: value.to_owned(),
            enabled: true,
            description: String::new(),
        }
    }
}

/// The views of a list of rows.
pub open spec fn kv_views(v: Seq<KeyValue>) -> Seq<KeyValueView> {
    v.map_values(|kv: KeyValue| kv@)
}

/// Copy of a list of rows.
pub fn copy_kvs(v: &Vec<KeyValue>) -> (r: Vec<KeyValue>)
    ensures
        r@ == v@,
{
    let mut r: Vec<KeyValue> = Vec::new();
    let mut i: usize = 0;
    while i < v.len()
        invariant
            i <= v.len(),
            r@ == v@.take(i as int),
        decreases v.len() - i,
    {
        r.push(v[i].clone());
        assert(v@.take(i + 1) == v@.take(i as int).push(v@[i as int]));
        i = i + 1;
    }
    assert(v@.take(v.len() as int) == v@);
    r
}

/// HTTP request method.
#[derive(PartialEq, Eq, Structural, Clone, Copy, Debug)]
pub enum HttpMethod {
    GET,
    POST,
    PUT,
    DELETE,
    PATCH,
    HEAD,
    OPTIONS,
}

impl HttpMethod {
    /// Upper-case method name.
    pub open spec fn name(self) -> Seq<char> {
        match self {
            HttpMethod::GET => "GET"@,
            HttpMethod::POST => "POST"@,
            HttpMethod::PUT => "PUT"@,
            HttpMethod::DELETE => "DELETE"@,
            HttpMethod::PATCH => "PATCH"@,
            HttpMethod::HEAD => "HEAD"@,
            HttpMethod::OPTIONS => "OPTIONS"@,
        }
    }

    /// Upper-case method name, as sent on the wire.
    pub fn as_str(&self) -> (r: &'static str)
        ensures
            r@ == self.name(),
    {
        match self {
            HttpMethod::GET => "GET",
            HttpMethod::POST => "POST",
            HttpMethod::PUT => "PUT",
            HttpMethod::DELETE => "DELETE",
            HttpMethod::PATCH => "PATCH",
            HttpMethod::HEAD => "HEAD",
            HttpMethod::OPTIONS => "OPTIONS",
        }
    }
}

/// Where an API key travels.
#[derive(PartialEq, Eq, Structural, Clone, Copy, Debug)]
pub enum ApiKeyLocation {
    Header,
    Query,
}

/// An OAuth2 access token; `expires_at` is a Unix timestamp in seconds.
pub struct OAuth2Token {
    pub access_token: String,
    pub token_type: String,
    pub refresh_token: Option<String>,
    pub expires_at: i64,
}

/// Mathematical value of an [`OAuth2Token`].
pub struct OAuth2TokenView {
    pub access_token: Seq<char>,
    pub token_type: Seq<char>,
    pub refresh_token: Option<Seq<char>>,
    pub expires_at: i64,
}

/// The view of an optional string.
pub open spec fn opt_view(o: Option<String>) -> Option<Seq<char>> {
    match o {
        Some(s) => Some(s@),
        None => None,
    }
}

impl View for OAuth2Token {
    type V = OAuth2TokenView;

    open spec fn view(&self) -> OAuth2TokenView {
        OAuth2TokenView {
            access_token: self.access_token@,
            token_type: self.token_type@,
            refresh_token: opt_view(self.refresh_token),
            expires_at: self.expires_at,
        }
    }
}

/// The view of an optional token.
pub open spec fn opt_token_view(o: Option<OAuth2Token>) -> Option<OAuth2TokenView> {
    match o {
        Some(t) => Some(t@),
        None => None,
    }
}

impl Clone for OAuth2Token {
    fn clone(&self) -> (r: Self)
        ensures
            r == *self,
    {
        OAuth2Token {
            access_token: self.access_token.clone(),
            token_type: self.token_type.clone(),
            refresh_token: match &self.refresh_token {
                Some(t) => Some(t.clone()),
                None => None,
            },
            expires_at: self.expires_at,
        }
    }
}

/// Request authentication.
pub enum AuthSpec {
    /// No authentication.
    NoAuth,
    Bearer { token: String },
    Basic { username: String, password: String },
    ApiKey { key: String, value: String, location: ApiKeyLocation },
    OAuth2 {
        client_id: String,
        client_secret: String,
        auth_url: String,
        token_url: String,
        scope: String,
        redirect_uri: String,
        token: Option<OAuth2Token>,
    },
}

/// Mathematical value of an [`AuthSpec`].
pub enum AuthSpecView {
    NoAuth,
    Bearer { token: Seq<char> },
    Basic { username: Seq<char>, password: Seq<char> },
    ApiKey { key: Seq<char>, value: Seq<char>, location: ApiKeyLocation },
    OAuth2 {
        client_id: Seq<char>,
        client_secret: Seq<char>,
        auth_url: Seq<char>,
        token_url: Seq<char>,
        scope: Seq<char>,
        redirect_uri: Seq<char>,
        token: Option<OAuth2TokenView>,
    },
}

impl View for AuthSpec {
    type V = AuthSpecView;

    open spec fn view(&self) -> AuthSpecView {
        match self {
            AuthSpec::NoAuth => AuthSpecView::NoAuth,
            AuthSpec::Bearer { token } => AuthSpecView::Bearer { token: token@ },
            AuthSpec::Basic { username, password } => AuthSpecView::Basic {
                username: username@,
                password: password@,
            },
            AuthSpec::ApiKey { key, value, location } => AuthSpecView::ApiKey {
                key: key@,
                value: value@,
                location: *location,
            },
            AuthSpec::OAuth2 {
                client_id,
                client_secret,
                auth_url,
                token_url,
                scope,
                redirect_uri,
                token,
            } => AuthSpecView::OAuth2 {
                client_id: client_id@,
                client_secret: client_secret@,
                auth_url: auth_url@,
                token_url: token_url@,
                scope: scope@,
                redirect_uri: redirect_uri@,
                token: opt_token_view(*token),
            },
        }
    }
}

impl Clone for AuthSpec {
    fn clone(&self) -> (r: Self)
        ensures
            r == *self,
    {
        match self {
            AuthSpec::NoAuth => AuthSpec::NoAuth,
            AuthSpec::Bearer { token } => AuthSpec::Bearer { token: token.clone() },
            AuthSpec::Basic { username, password } => AuthSpec::Basic {
                username: username.clone(),
                password: password.clone(),
            },
            AuthSpec::ApiKey { key, value, location } => AuthSpec::ApiKey {
                key: key.clone(),
                value: value.clone(),
                location: *location,
            },
            AuthSpec::OAuth2 {
                client_id,
                client_secret,
                auth_url,
                token_url,
                scope,
                redirect_uri,
                token,
            } => AuthSpec::OAuth2 {
                client_id: client_id.clone(),
                client_secret: client_secret.clone(),
                auth_url: auth_url.clone(),
                token_url: token_url.clone(),
                scope: scope.clone(),
                redirect_uri: redirect_uri.clone(),
                token: match token {
                    Some(t) => Some(t.clone()),
                    None => None,
                },
            },
        }
    }
}

/// Request body.
pub enum BodySpec {
    /// No body.
    Empty,
    Json { raw: String },
    Text { raw: String },
    UrlEncoded { fields: Vec<KeyValue> },
    Multipart { fields: Vec<KeyValue> },
}

/// Mathematical value of a [`BodySpec`].
pub enum BodySpecView {
    Empty,
    Json { raw: Seq<char> },
    Text { raw: Seq<char> },
    UrlEncoded { fields: Seq<KeyValueView> },
    Multipart { fields: Seq<KeyValueView> },
}

impl View for BodySpec {
    type V = BodySpecView;

    open spec fn view(&self) -> BodySpecView {
        match self {
            BodySpec::Empty => BodySpecView::Empty,
            BodySpec::Json { raw } => BodySpecView::Json { raw: raw@ },
            BodySpec::Text { raw } => BodySpecView::Text { raw: raw@ },
            BodySpec::UrlEncoded { fields } => BodySpecView::UrlEncoded {
                fields: kv_views(fields@),
            },
            BodySpec::Multipart { fields } => BodySpecView::Multipart { fields: kv_views(fields@) },
        }
    }
}

impl Clone for BodySpec {
    fn clone(&self) -> (r: Self)
        ensures
            r@ == self@,
    {
        match self {
            BodySpec::Empty => BodySpec::Empty,
            BodySpec::Json { raw } => BodySpec::Json { raw: raw.clone() },
            BodySpec::Text { raw } => BodySpec::Text { raw: raw.clone() },
            BodySpec::UrlEncoded { fields } => BodySpec::UrlEncoded { fields: copy_kvs(fields) },
            BodySpec::Multipart { fields } => BodySpec::Multipart { fields: copy_kvs(fields) },
        }
    }
}

/// Everything a request carries besides its method and URL.
pub struct RequestSpec {
    pub params: Vec<KeyValue>,
    pub headers: Vec<KeyValue>,
    pub path_variables: Vec<KeyValue>,
    pub body: BodySpec,
    pub auth: AuthSpec,
}

/// Mathematical value of a [`RequestSpec`].
pub struct RequestSpecView {
    pub params: Seq<KeyValueView>,
    pub headers: Seq<KeyValueView>,
    pub path_variables: Seq<KeyValueView>,
    pub body: BodySpecView,
    pub auth: AuthSpecView,
}

impl View for RequestSpec {
    type V = RequestSpecView;

    open spec fn view(&self) -> RequestSpecView {
        RequestSpecView {
            params: kv_views(self.params@),
            headers: kv_views(self.headers@),
            path_variables: kv_views(self.path_variables@),
            body: self.body@,
            auth: self.auth@,
        }
    }
}

impl Clone for RequestSpec {
    fn clone(&self) -> (r: Self)
        ensures
            r@ == self@,
    {
        RequestSpec {
            params: copy_kvs(&self.params),
            headers: copy_kvs(&self.headers),
            path_variables: copy_kvs(&self.path_variables),
            body: self.body.clone(),
            auth: self.auth.clone(),
        }
    }
}

impl Default for RequestSpec {
    fn default() -> (r: Self)
        ensures
            r.params@.len() == 0,
            r.headers@.len() == 0,
            r.path_variables@.len() == 0,
            r.body is Empty,
            r.auth is NoAuth,
    {
        RequestSpec {
            params: Vec::new(),
            headers: Vec::new(),
            path_variables: Vec::new(),
            body: BodySpec::Empty,
            auth: AuthSpec::NoAuth,
        }
    }
}

/// Errors reported to the user.
#[derive(Debug)]
pub enum AppError {
    /// Input rejected before anything was sent.
    Validation(String),
    /// Transport failure, described in words.
    Http(String),
    /// User script failed or timed out.
    ScriptError(String),
    /// WebSocket failure.
    WsError(String),
    /// Local I/O failure.
    Io(String),
}

/// A script error with the given message.
pub fn script_error(msg: String) -> (r: AppError)
    ensures
        r matches AppError::ScriptError(m) && m@ == msg@,
{
    AppError::ScriptError(msg)
}

/// A WebSocket error with the given message.
pub fn ws_error(msg: String) -> (r: AppError)
    ensures
        r matches AppError::WsError(m) && m@ == msg@,
{
    AppError::WsError(msg)
}

/// Kind of a persisted WebSocket message.
#[derive(PartialEq, Eq, Structural, Clone, Copy, Debug)]
pub enum WsMessageType {
    Text,
    Binary,
    Ping,
}

} // verus!
