//! The documents of a workspace: requests, environments, responses and history.
use vstd::prelude::*;
use crate::error::opt_view;
use crate::text::owned;

verus! {

/// `hermes.workspace.yaml`: the identity of a workspace.
#[derive(Debug)]
pub struct WorkspaceConfig {
    pub id: String,
    pub name: String,
    pub version: u32,
}

#[derive(Debug, Clone, Copy, PartialEq, Eq, Structural)]
pub enum HttpMethod {
    Get,
    Post,
    Put,
    Patch,
    Delete,
    Head,
    Options,
}

/// The upper-case name under which a method is written in documents.
pub open spec fn method_name(m: HttpMethod) -> Seq<char> {
    match m {
        HttpMethod::Get => "GET"@,
        HttpMethod::Post => "POST"@,
        HttpMethod::Put => "PUT"@,
        HttpMethod::Patch => "PATCH"@,
        HttpMethod::Delete => "DELETE"@,
        HttpMethod::Head => "HEAD"@,
        HttpMethod::Options => "OPTIONS"@,
    }
}

impl HttpMethod {
    /// The upper-case name of the method.
    pub fn name(&self) -> (res: &'static str)
        ensures
            res@ == method_name(*self),
    {
        match self {
            HttpMethod::Get => "GET",
            HttpMethod::Post => "POST",
            HttpMethod::Put => "PUT",
            HttpMethod::Patch => "PATCH",
            HttpMethod::Delete => "DELETE",
            HttpMethod::Head => "HEAD",
            HttpMethod::Options => "OPTIONS",
        }
    }
}

/// A key/value row of a request (query parameter or header) or of an environment.
#[derive(Debug)]
pub struct KeyValueRow {
    pub id: String,
    pub key: String,
    pub value: String,
    pub enabled: bool,
    pub secret: bool,
}

pub struct RowView {
    pub id: Seq<char>,
    pub key: Seq<char>,
    pub value: Seq<char>,
    pub enabled: bool,
    pub secret: bool,
}

impl View for KeyValueRow {
    type V = RowView;

    open spec fn view(&self) -> RowView {
        RowView {
            id: self.id@,
            key: self.key@,
            value: self.value@,
            enabled: self.enabled,
            secret: self.secret,
        }
    }
}

pub open spec fn rows_view(rows: Seq<KeyValueRow>) -> Seq<RowView> {
    rows.map_values(|r: KeyValueRow| r@)
}

impl Clone for KeyValueRow {
    fn clone(&self) -> (res: Self)
        ensures
            res == *self,
    {
        KeyValueRow {
            id: self.id.clone(),
            key: self.key.clone(),
            value: self.value.clone(),
            enabled: self.enabled,
            secret: self.secret,
        }
    }
}

/// The value a row's `enabled` flag takes when a document leaves it out.
pub fn default_true() -> (res: bool)
    ensures
        res,
{
    true
}

#[derive(Debug)]
#[allow(inconsistent_fields)]
pub enum RequestBody {
    NoBody { content: Option<String> },
    Json { content: String },
    Text { content: String },
    Form { content: String },
    Binary { content: String },
}

pub enum BodyView {
    NoBody(Option<Seq<char>>),
    Json(Seq<char>),
    Text(Seq<char>),
    Form(Seq<char>),
    Binary(Seq<char>),
}

impl View for RequestBody {
    type V = BodyView;

    open spec fn view(&self) -> BodyView {
        match self {
            RequestBody::NoBody { content } => BodyView::NoBody(opt_view(*content)),
            RequestBody::Json { content } => BodyView::Json(content@),
            RequestBody::Text { content } => BodyView::Text(content@),
            RequestBody::Form { content } => BodyView::Form(content@),
            RequestBody::Binary { content } => BodyView::Binary(content@),
        }
    }
}

impl Default for RequestBody {
    fn default() -> (res: Self)
        ensures
            res@ == BodyView::NoBody(None),
    {
        RequestBody::NoBody { content: None }
    }
}

#[derive(Debug, Clone, Copy, PartialEq, Eq, Structural)]
pub enum ApiKeyPlacement {
    Header,
    Query,
}

#[derive(Debug)]
pub enum AuthConfig {
    NoAuth,
    Basic { username: String, password: String, password_secret: Option<String> },
    Bearer { token: String, token_secret: Option<String> },
    ApiKey {
        placement: ApiKeyPlacement,
        name: String,
        value: String,
        value_secret: Option<String>,
    },
    Oauth2ClientCredentials {
        token_url: String,
        client_id: String,
        client_secret: String,
        client_secret_ref: Option<String>,
        scopes: Vec<String>,
    },
}

impl Default for AuthConfig {
    fn default() -> (res: Self)
        ensures
            res is NoAuth,
    {
        AuthConfig::NoAuth
    }
}

#[derive(Debug)]
pub struct HermesRequest {
    pub id: String,
    pub name: String,
    pub method: HttpMethod,
    pub url: String,
    pub params: Vec<KeyValueRow>,
    pub headers: Vec<KeyValueRow>,
    pub body: RequestBody,
    pub auth: AuthConfig,
    pub description: Option<String>,
}

pub enum AuthView {
    NoAuth,
    Basic { username: Seq<char>, password: Seq<char>, password_secret: Option<Seq<char>> },
    Bearer { token: Seq<char>, token_secret: Option<Seq<char>> },
    ApiKey {
        placement: ApiKeyPlacement,
        name: Seq<char>,
        value: Seq<char>,
        value_secret: Option<Seq<char>>,
    },
    Oauth2ClientCredentials {
        token_url: Seq<char>,
        client_id: Seq<char>,
        client_secret: Seq<char>,
        client_secret_ref: Option<Seq<char>>,
        scopes: Seq<Seq<char>>,
    },
}

impl View for AuthConfig {
    type V = AuthView;

    open spec fn view(&self) -> AuthView {
        match self {
            AuthConfig::NoAuth => AuthView::NoAuth,
            AuthConfig::Basic { username, password, password_secret } => AuthView::Basic {
                username: username@,
                password: password@,
                password_secret: opt_view(*password_secret),
            },
            AuthConfig::Bearer { token, token_secret } => AuthView::Bearer {
                token: token@,
                token_secret: opt_view(*token_secret),
            },
            AuthConfig::ApiKey { placement, name, value, value_secret } => AuthView::ApiKey {
                placement: *placement,
                name: name@,
                value: value@,
                value_secret: opt_view(*value_secret),
            },
            AuthConfig::Oauth2ClientCredentials {
                token_url,
                client_id,
                client_secret,
                client_secret_ref,
                scopes,
            } => AuthView::Oauth2ClientCredentials {
                token_url: token_url@,
                client_id: client_id@,
                client_secret: client_secret@,
                client_secret_ref: opt_view(*client_secret_ref),
                scopes: scopes@.map_values(|s: String| s@),
            },
        }
    }
}

pub struct RequestView {
    pub id: Seq<char>,
    pub name: Seq<char>,
    pub method: HttpMethod,
    pub url: Seq<char>,
    pub params: Seq<RowView>,
    pub headers: Seq<RowView>,
    pub body: BodyView,
    pub auth: AuthView,
    pub description: Option<Seq<char>>,
}

impl View for HermesRequest {
    type V = RequestView;

    open spec fn view(&self) -> RequestView {
        RequestView {
            id: self.id@,
            name: self.name@,
            method: self.method,
            url: self.url@,
            params: rows_view(self.params@),
            headers: rows_view(self.headers@),
            body: self.body@,
            auth: self.auth@,
            description: opt_view(self.description),
        }
    }
}

/// A row with its id left out.
pub open spec fn row_shape(r: RowView) -> RowView {
    RowView { id: Seq::empty(), ..r }
}

/// A request with the ids of the request and of its rows left out: what an
/// import determines, the ids being fresh random ones.
pub open spec fn request_shape(r: RequestView) -> RequestView {
    RequestView {
        id: Seq::empty(),
        params: r.params.map_values(|x: RowView| row_shape(x)),
        headers: r.headers.map_values(|x: RowView| row_shape(x)),
        ..r
    }
}

/// The text form of a random (version 4) UUID: 36 characters, lower-case
/// hexadecimal digits in groups of 8, 4, 4, 4 and 12 separated by `-`, with
/// the version digit `4`.
pub open spec fn is_uuid_text(s: Seq<char>) -> bool {
    &&& s.len() == 36
    &&& forall|i: int|
        0 <= i < 36 ==> if i == 8 || i == 13 || i == 18 || i == 23 {
            #[trigger] s[i] == '-'
        } else {
            ('0' <= s[i] <= '9') || ('a' <= s[i] <= 'f')
        }
    &&& s[14] == '4'
}

/// The request and each of its rows carry a fresh random id.
pub open spec fn has_fresh_ids(r: RequestView) -> bool {
    &&& is_uuid_text(r.id)
    &&& forall|i: int| 0 <= i < r.params.len() ==> is_uuid_text(#[trigger] r.params[i].id)
    &&& forall|i: int| 0 <= i < r.headers.len() ==> is_uuid_text(#[trigger] r.headers[i].id)
}

/// A fresh random id (`Uuid::new_v4().to_string()`). Contract: every outcome
/// has the text form of a version 4 UUID.
#[verifier::external_body]
pub(crate) fn new_id() -> (res: String)
    ensures
        is_uuid_text(res@),
{
    uuid::Uuid::new_v4().to_string()
}

#[derive(Debug)]
pub struct HermesEnvironment {
    pub id: String,
    pub name: String,
    pub values: Vec<KeyValueRow>,
}

/// A folder or a request file in the collections tree.
#[derive(Debug)]
pub enum TreeNode {
    Folder { name: String, path: String, children: Vec<TreeNode> },
    Request { name: String, path: String, method: HttpMethod, id: String },
}

#[derive(Debug)]
pub struct SendRequestInput {
    pub workspace_path: String,
    pub request: HermesRequest,
    pub environment_id: Option<String>,
}

#[derive(Debug)]
pub struct HermesResponse {
    pub status: u16,
    pub status_text: String,
    pub headers: Vec<KeyValueRow>,
    pub body: String,
    pub content_type: Option<String>,
    pub elapsed_ms: u128,
    pub size_bytes: usize,
}

/// One sent request with its response. `created_at` is the time of sending in RFC 3339.
#[derive(Debug)]
pub struct HistoryEntry {
    pub id: String,
    pub workspace_id: String,
    pub request_name: String,
    pub method: HttpMethod,
    pub url: String,
    pub status: Option<u16>,
    pub elapsed_ms: Option<u128>,
    pub created_at: String,
    pub request: HermesRequest,
    pub response: Option<HermesResponse>,
}

#[derive(Debug)]
pub struct ImportPreview {
    pub requests: Vec<HermesRequest>,
    pub warnings: Vec<String>,
}

#[derive(Debug)]
pub struct ImportResult {
    pub written: Vec<String>,
    pub warnings: Vec<String>,
}

/// The names of the secrets an environment keeps in the OS keychain.
#[derive(Debug)]
pub struct SecretMetadata {
    pub keys: Vec<String>,
}

pub fn copy_opt(o: &Option<String>) -> (res: Option<String>)
    ensures
        opt_view(res) == opt_view(*o),
{
    match o {
        Some(s) => Some(owned(s.as_str())),
        None => None,
    }
}

} // verus!

verus! {

pub fn copy_strings(v: &Vec<String>) -> (res: Vec<String>)
    ensures
        res@ == v@,
{
    let res = v.clone();
    assert(res@ =~= v@);
    res
}

pub fn copy_rows(v: &Vec<KeyValueRow>) -> (res: Vec<KeyValueRow>)
    ensures
        res@ == v@,
{
    let res = v.clone();
    assert(res@ =~= v@);
    res
}

impl Clone for RequestBody {
    fn clone(&self) -> (res: Self)
        ensures
            res == *self,
    {
        match self {
            RequestBody::NoBody { content } => RequestBody::NoBody { content: content.clone() },
            RequestBody::Json { content } => RequestBody::Json { content: content.clone() },
            RequestBody::Text { content } => RequestBody::Text { content: content.clone() },
            RequestBody::Form { content } => RequestBody::Form { content: content.clone() },
            RequestBody::Binary { content } => RequestBody::Binary { content: content.clone() },
        }
    }
}

impl Clone for AuthConfig {
    fn clone(&self) -> (res: Self)
        ensures
            res@ == self@,
    {
        match self {
            AuthConfig::NoAuth => AuthConfig::NoAuth,
            AuthConfig::Basic { username, password, password_secret } => AuthConfig::Basic {
                username: username.clone(),
                password: password.clone(),
                password_secret: copy_opt(password_secret),
            },
            AuthConfig::Bearer { token, token_secret } => AuthConfig::Bearer {
                token: token.clone(),
                token_secret: copy_opt(token_secret),
            },
            AuthConfig::ApiKey { placement, name, value, value_secret } => AuthConfig::ApiKey {
                placement: *placement,
                name: name.clone(),
                value: value.clone(),
                value_secret: copy_opt(value_secret),
            },
            AuthConfig::Oauth2ClientCredentials {
                token_url,
                client_id,
                client_secret,
                client_secret_ref,
                scopes,
            } => AuthConfig::Oauth2ClientCredentials {
                token_url: token_url.clone(),
                client_id: client_id.clone(),
                client_secret: client_secret.clone(),
                client_secret_ref: copy_opt(client_secret_ref),
                scopes: copy_strings(scopes),
            },
        }
    }
}

impl Clone for HermesRequest {
    fn clone(&self) -> (res: Self)
        ensures
            res@ == self@,
    {
        HermesRequest {
            id: self.id.clone(),
            name: self.name.clone(),
            method: self.method,
            url: self.url.clone(),
            params: copy_rows(&self.params),
            headers: copy_rows(&self.headers),
            body: self.body.clone(),
            auth: self.auth.clone(),
            description: copy_opt(&self.description),
        }
    }
}

impl Clone for HermesResponse {
    fn clone(&self) -> (res: Self)
        ensures
            res.status == self.status,
            res.status_text@ == self.status_text@,
            rows_view(res.headers@) == rows_view(self.headers@),
            res.body@ == self.body@,
            opt_view(res.content_type) == opt_view(self.content_type),
            res.elapsed_ms == self.elapsed_ms,
            res.size_bytes == self.size_bytes,
    {
        HermesResponse {
            status: self.status,
            status_text: self.status_text.clone(),
            headers: copy_rows(&self.headers),
            body: self.body.clone(),
            content_type: copy_opt(&self.content_type),
            elapsed_ms: self.elapsed_ms,
            size_bytes: self.size_bytes,
        }
    }
}

} // verus!
