//! What a request sends: the rows that take part, the headers it already
//! names, how its authentication and body are applied, its URL, and the rows
//! of a response. The network exchange itself is the caller's.
use vstd::prelude::*;
use crate::error::{AppError, opt_view};
use crate::models::{
    ApiKeyPlacement, AuthConfig, AuthView, BodyView, HermesRequest, HermesResponse, KeyValueRow,
    RequestBody,
    RowView, rows_view,
};
use crate::text::{
    blank, chars_of, concat, is_blank, join, join_strings, lower, lower_char, lower_of, owned,
    views,
};
use crate::variables::pair_views;

verus! {

/// A row takes part in a request when it is enabled and its key is not blank.
pub open spec fn is_active(r: RowView) -> bool {
    r.enabled && !is_blank(r.key)
}

/// The rows that take part, in order.
pub open spec fn active_of(rows: Seq<RowView>) -> Seq<RowView>
    decreases rows.len(),
{
    if rows.len() == 0 {
        Seq::empty()
    } else if is_active(rows.last()) {
        active_of(rows.drop_last()).push(rows.last())
    } else {
        active_of(rows.drop_last())
    }
}

/// Copies of the rows that take part (query parameters or headers), in order.
pub fn active_rows(rows: &Vec<KeyValueRow>) -> (res: Vec<KeyValueRow>)
    ensures
        rows_view(res@) == active_of(rows_view(rows@)),
{
    let ghost all = rows_view(rows@);
    let mut res: Vec<KeyValueRow> = Vec::new();
    let mut i: usize = 0;
    while i < rows.len()
        invariant
            i <= rows.len(),
            all == rows_view(rows@),
            rows_view(res@) == active_of(all.subrange(0, i as int)),
        decreases rows.len() - i,
    {
        proof {
            assert(all.subrange(0, i + 1).drop_last() == all.subrange(0, i as int));
            assert(all.subrange(0, i + 1).last() == rows@[i as int]@);
        }
        if rows[i].enabled && !blank(rows[i].key.as_str()) {
            let row = rows[i].clone();
            res.push(row);
            assert(rows_view(res@) == rows_view(res@).drop_last().push(row@));
        }
        i += 1;
    }
    assert(all.subrange(0, all.len() as int) == all);
    res
}

/// Equal but for the case of ASCII letters (`str::eq_ignore_ascii_case`).
pub open spec fn eq_ignore_ascii_case(a: Seq<char>, b: Seq<char>) -> bool {
    lower(a) == lower(b)
}

/// Some header of the list has the name `key`, ignoring ASCII case.
pub open spec fn names_header(headers: Seq<(Seq<char>, Seq<char>)>, key: Seq<char>) -> bool {
    exists|i: int| 0 <= i < headers.len() && eq_ignore_ascii_case(#[trigger] headers[i].0, key)
}

fn same_ignoring_case(a: &str, b: &str) -> (res: bool)
    ensures
        res == eq_ignore_ascii_case(a@, b@),
{
    let x = chars_of(a);
    let y = chars_of(b);
    if x.len() != y.len() {
        assert(lower(a@).len() != lower(b@).len());
        return false;
    }
    let mut i: usize = 0;
    while i < x.len()
        invariant
            x@ == a@,
            y@ == b@,
            x.len() == y.len(),
            i <= x.len(),
            forall|j: int| 0 <= j < i ==> lower_char(x@[j]) == lower_char(y@[j]),
        decreases x.len() - i,
    {
        if lower_of(x[i]) != lower_of(y[i]) {
            assert(lower(a@)[i as int] != lower(b@)[i as int]);
            return false;
        }
        i += 1;
    }
    assert(lower(a@) =~= lower(b@));
    true
}

/// Whether one of the (resolved) headers is named `key`, ignoring ASCII case.
pub fn has_header(headers: &Vec<(String, String)>, key: &str) -> (res: bool)
    ensures
        res == names_header(pair_views(headers@), key@),
{
    let ghost hs = pair_views(headers@);
    let mut i: usize = 0;
    while i < headers.len()
        invariant
            i <= headers.len(),
            hs == pair_views(headers@),
            forall|j: int| 0 <= j < i ==> !eq_ignore_ascii_case(#[trigger] hs[j].0, key@),
        decreases headers.len() - i,
    {
        if same_ignoring_case(headers[i].0.as_str(), key) {
            assert(eq_ignore_ascii_case(hs[i as int].0, key@));
            return true;
        }
        i += 1;
    }
    false
}

/// A token character of HTTP: what a header name is made of.
pub open spec fn is_token_char(c: char) -> bool {
    ||| ('0' <= c && c <= '9')
    ||| ('a' <= c && c <= 'z')
    ||| ('A' <= c && c <= 'Z')
    ||| c == '!' || c == '#' || c == '$' || c == '%' || c == '&' || c == '\''
    ||| c == '*' || c == '+' || c == '-' || c == '.' || c == '^' || c == '_'
    ||| c == '`' || c == '|' || c == '~'
}

/// A valid header name: 1 to 65535 token characters.
pub open spec fn is_header_name(s: Seq<char>) -> bool {
    &&& 0 < s.len() <= 65535
    &&& forall|i: int| 0 <= i < s.len() ==> is_token_char(#[trigger] s[i])
}

/// A character a header value may hold: a tab, or anything but the other
/// control characters of ASCII.
pub open spec fn is_value_char(c: char) -> bool {
    c == '\t' || (' ' <= c && c != '\u{7f}')
}

pub open spec fn is_header_value(s: Seq<char>) -> bool {
    forall|i: int| 0 <= i < s.len() ==> is_value_char(#[trigger] s[i])
}

/// `HeaderName::from_bytes` (the `http` crate, as reqwest re-exports it) on
/// the name's UTF-8 bytes. Claimed: it accepts exactly the names of 1 to
/// 65535 token characters, and its error displays as "invalid HTTP header name".
#[verifier::external_body]
fn header_name_check(name: &str) -> (res: Result<(), String>)
    ensures
        res is Ok <==> is_header_name(name@),
        res matches Err(d) ==> d@ == "invalid HTTP header name"@,
{
    match reqwest::header::HeaderName::from_bytes(name.as_bytes()) {
        Ok(_) => Ok(()),
        Err(e) => Err(e.to_string()),
    }
}

/// `HeaderValue::from_str` (the `http` crate, as reqwest re-exports it).
/// Claimed: it accepts exactly the texts whose bytes are a tab or at least a
/// space and not DEL, that is whose characters are value characters, and its
/// error displays as "failed to parse header value".
#[verifier::external_body]
fn header_value_check(value: &str) -> (res: Result<(), String>)
    ensures
        res is Ok <==> is_header_value(value@),
        res matches Err(d) ==> d@ == "failed to parse header value"@,
{
    match reqwest::header::HeaderValue::from_str(value) {
        Ok(_) => Ok(()),
        Err(e) => Err(e.to_string()),
    }
}

/// Checks a resolved header before it is sent: a refused name is reported
/// before a refused value, each with the library's detail text.
pub fn check_header(key: &str, value: &str) -> (res: Result<(), AppError>)
    ensures
        !is_header_name(key@) ==> (res matches Err(AppError::User { code, message, detail }) && code@
            == "invalid_header"@ && message@ == "Invalid header name '"@ + key@ + "'."@ && opt_view(
            detail,
        ) == Some("invalid HTTP header name"@)),
        is_header_name(key@) && !is_header_value(value@) ==> (res matches Err(
            AppError::User { code, message, detail },
        ) && code@ == "invalid_header"@ && message@ == "Invalid value for header '"@ + key@
            + "'."@ && opt_view(detail) == Some("failed to parse header value"@)),
        is_header_name(key@) && is_header_value(value@) ==> res is Ok,
{
    match header_name_check(key) {
        Err(detail) => {
            let m = concat("Invalid header name '", key);
            let message = concat(m.as_str(), "'.");
            return Err(AppError::with_detail("invalid_header", message, detail));
        },
        Ok(()) => {},
    }
    match header_value_check(value) {
        Err(detail) => {
            let m = concat("Invalid value for header '", key);
            let message = concat(m.as_str(), "'.");
            Err(AppError::with_detail("invalid_header", message, detail))
        },
        Ok(()) => Ok(()),
    }
}

/// How a request's authentication is applied, its texts not yet resolved.
#[derive(Debug)]
pub enum AuthPlan {
    NoAuth,
    Basic { username: String, password: String },
    Bearer { token: String },
    /// An API key sent as a header.
    HeaderKey { name: String, value: String },
    /// An API key sent as a query parameter, after the request's own.
    QueryKey { name: String, value: String },
    /// A client-credentials token request; its access token is then sent as a
    /// bearer token.
    TokenRequest { token_url: String, client_id: String, client_secret: String, scope: String },
}

pub enum AuthStep {
    NoAuth,
    Basic(Seq<char>, Seq<char>),
    Bearer(Seq<char>),
    HeaderKey(Seq<char>, Seq<char>),
    QueryKey(Seq<char>, Seq<char>),
    TokenRequest(Seq<char>, Seq<char>, Seq<char>, Seq<char>),
}

impl View for AuthPlan {
    type V = AuthStep;

    open spec fn view(&self) -> AuthStep {
        match self {
            AuthPlan::NoAuth => AuthStep::NoAuth,
            AuthPlan::Basic { username, password } => AuthStep::Basic(username@, password@),
            AuthPlan::Bearer { token } => AuthStep::Bearer(token@),
            AuthPlan::HeaderKey { name, value } => AuthStep::HeaderKey(name@, value@),
            AuthPlan::QueryKey { name, value } => AuthStep::QueryKey(name@, value@),
            AuthPlan::TokenRequest { token_url, client_id, client_secret, scope } =>
                AuthStep::TokenRequest(token_url@, client_id@, client_secret@, scope@),
        }
    }
}

/// The step an authentication setting calls for; the scopes of a token
/// request are sent as one text, separated by spaces.
pub open spec fn auth_step(a: AuthView) -> AuthStep {
    match a {
        AuthView::NoAuth => AuthStep::NoAuth,
        AuthView::Basic { username, password, .. } => AuthStep::Basic(username, password),
        AuthView::Bearer { token, .. } => AuthStep::Bearer(token),
        AuthView::ApiKey { placement, name, value, .. } => match placement {
            ApiKeyPlacement::Header => AuthStep::HeaderKey(name, value),
            ApiKeyPlacement::Query => AuthStep::QueryKey(name, value),
        },
        AuthView::Oauth2ClientCredentials { token_url, client_id, client_secret, scopes, .. } =>
            AuthStep::TokenRequest(token_url, client_id, client_secret, join(scopes, " "@)),
    }
}

/// The authentication step of a request.
pub fn auth_plan(auth: &AuthConfig) -> (res: AuthPlan)
    ensures
        res@ == auth_step(auth@),
{
    match auth {
        AuthConfig::NoAuth => AuthPlan::NoAuth,
        AuthConfig::Basic { username, password, .. } => AuthPlan::Basic {
            username: owned(username.as_str()),
            password: owned(password.as_str()),
        },
        AuthConfig::Bearer { token, .. } => AuthPlan::Bearer { token: owned(token.as_str()) },
        AuthConfig::ApiKey { placement, name, value, .. } => {
            let name = owned(name.as_str());
            let value = owned(value.as_str());
            match placement {
                ApiKeyPlacement::Header => AuthPlan::HeaderKey { name, value },
                ApiKeyPlacement::Query => AuthPlan::QueryKey { name, value },
            }
        },
        AuthConfig::Oauth2ClientCredentials { token_url, client_id, client_secret, scopes, .. } => {
            let scope = join_strings(scopes, " ");
            assert(views(scopes@) == scopes@.map_values(|s: String| s@));
            AuthPlan::TokenRequest {
                token_url: owned(token_url.as_str()),
                client_id: owned(client_id.as_str()),
                client_secret: owned(client_secret.as_str()),
                scope,
            }
        },
    }
}

/// The form fields of a client-credentials token request, in order.
pub fn token_form(client_id: &str, client_secret: &str, scope: &str) -> (res: Vec<
    (String, String),
>)
    ensures
        pair_views(res@) == seq![
            ("grant_type"@, "client_credentials"@),
            ("client_id"@, client_id@),
            ("client_secret"@, client_secret@),
            ("scope"@, scope@),
        ],
{
    let mut res: Vec<(String, String)> = Vec::new();
    res.push((owned("grant_type"), owned("client_credentials")));
    res.push((owned("client_id"), owned(client_id)));
    res.push((owned("client_secret"), owned(client_secret)));
    res.push((owned("scope"), owned(scope)));
    res
}

/// What a request's body sends, its texts not yet resolved.
#[derive(Debug)]
pub enum BodyPlan {
    /// No body.
    Empty,
    /// A text body, with the content type to add when there is one.
    Content { text: String, content_type: Option<String> },
    /// The bytes of the file at this path.
    File { path: String },
}

pub enum BodyStep {
    Empty,
    Content(Seq<char>, Option<Seq<char>>),
    File(Seq<char>),
}

impl View for BodyPlan {
    type V = BodyStep;

    open spec fn view(&self) -> BodyStep {
        match self {
            BodyPlan::Empty => BodyStep::Empty,
            BodyPlan::Content { text, content_type } => BodyStep::Content(
                text@,
                opt_view(*content_type),
            ),
            BodyPlan::File { path } => BodyStep::File(path@),
        }
    }
}

/// The content type a body adds: none where the headers already name one.
pub open spec fn added_type(headers: Seq<(Seq<char>, Seq<char>)>, t: Seq<char>) -> Option<
    Seq<char>,
> {
    if names_header(headers, "content-type"@) {
        None
    } else {
        Some(t)
    }
}

/// The step a body calls for, given the request's resolved headers.
pub open spec fn body_step(b: BodyView, headers: Seq<(Seq<char>, Seq<char>)>) -> BodyStep {
    match b {
        BodyView::NoBody(_) => BodyStep::Empty,
        BodyView::Json(c) => BodyStep::Content(c, added_type(headers, "application/json"@)),
        BodyView::Text(c) => BodyStep::Content(c, None),
        BodyView::Form(c) => BodyStep::Content(
            c,
            added_type(headers, "application/x-www-form-urlencoded"@),
        ),
        BodyView::Binary(c) => BodyStep::File(c),
    }
}

fn type_unless_named(headers: &Vec<(String, String)>, t: &str) -> (res: Option<String>)
    ensures
        opt_view(res) == added_type(pair_views(headers@), t@),
{
    if has_header(headers, "content-type") {
        None
    } else {
        Some(owned(t))
    }
}

/// The body step of a request whose resolved headers are `headers`.
pub fn body_plan(body: &RequestBody, headers: &Vec<(String, String)>) -> (res: BodyPlan)
    ensures
        res@ == body_step(body@, pair_views(headers@)),
{
    match body {
        RequestBody::NoBody { .. } => BodyPlan::Empty,
        RequestBody::Json { content } => BodyPlan::Content {
            text: owned(content.as_str()),
            content_type: type_unless_named(headers, "application/json"),
        },
        RequestBody::Text { content } => BodyPlan::Content {
            text: owned(content.as_str()),
            content_type: None,
        },
        RequestBody::Form { content } => BodyPlan::Content {
            text: owned(content.as_str()),
            content_type: type_unless_named(headers, "application/x-www-form-urlencoded"),
        },
        RequestBody::Binary { content } => BodyPlan::File { path: owned(content.as_str()) },
    }
}

#[verifier::external_type_specification]
#[verifier::external_body]
pub struct ExUrl(url::Url);

/// The query pairs a request adds to its URL, before resolution: its active
/// parameters in order, then an API key placed in the query.
pub open spec fn query_step(params: Seq<RowView>, auth: AuthView) -> Seq<(Seq<char>, Seq<char>)> {
    active_of(params).map_values(|r: RowView| (r.key, r.value)) + match auth_step(auth) {
        AuthStep::QueryKey(name, value) => seq![(name, value)],
        _ => Seq::empty(),
    }
}

/// The query pairs of a request, their texts not yet resolved.
pub fn query_plan(request: &HermesRequest) -> (res: Vec<(String, String)>)
    ensures
        pair_views(res@) == query_step(request@.params, request@.auth),
{
    let rows = active_rows(&request.params);
    let ghost rv = rows_view(rows@);
    let mut res: Vec<(String, String)> = Vec::new();
    let mut i: usize = 0;
    while i < rows.len()
        invariant
            i <= rows.len(),
            rv == rows_view(rows@),
            pair_views(res@) == rv.subrange(0, i as int).map_values(
                |r: RowView| (r.key, r.value),
            ),
        decreases rows.len() - i,
    {
        let pair = (owned(rows[i].key.as_str()), owned(rows[i].value.as_str()));
        res.push(pair);
        proof {
            assert(pair_views(res@) == pair_views(res@).drop_last().push((pair.0@, pair.1@)));
            assert(rv.subrange(0, i + 1).map_values(|r: RowView| (r.key, r.value))
                =~= rv.subrange(0, i as int).map_values(|r: RowView| (r.key, r.value)).push(
                (rv[i as int].key, rv[i as int].value),
            ));
        }
        i += 1;
    }
    assert(rv.subrange(0, rv.len() as int) == rv);
    let ghost before = pair_views(res@);
    match auth_plan(&request.auth) {
        AuthPlan::QueryKey { name, value } => {
            res.push((name, value));
            assert(pair_views(res@) =~= before + seq![(pair_views(res@).last())]);
        },
        _ => {
            assert(before + Seq::<(Seq<char>, Seq<char>)>::empty() == before);
        },
    }
    res
}

/// A parsed URL, seen as its text.
pub struct WebUrl {
    inner: url::Url,
    text: Ghost<Seq<char>>,
}

impl View for WebUrl {
    type V = Seq<char>;

    closed spec fn view(&self) -> Seq<char> {
        self.text@
    }
}

/// What `Url::parse` makes of a text: the text of the URL it parses to, or
/// the text of its error.
pub uninterp spec fn url_parse(text: Seq<char>) -> Result<Seq<char>, Seq<char>>;

/// The text of the URL `url` after `query_pairs_mut().append_pair(key, value)`.
pub uninterp spec fn url_append_pair(url: Seq<char>, key: Seq<char>, value: Seq<char>) -> Seq<
    char,
>;

/// `url::Url::parse`. Claimed: the result is `url_parse` of the text, the
/// URL taken as its text (its serialization) and an error as its message.
#[verifier::external_body]
fn parse_url(text: &str) -> (res: Result<WebUrl, String>)
    ensures
        match res {
            Ok(u) => url_parse(text@) == Ok::<Seq<char>, Seq<char>>(u@),
            Err(e) => url_parse(text@) == Err::<Seq<char>, Seq<char>>(e@),
        },
{
    match url::Url::parse(text) {
        Ok(inner) => Ok(WebUrl { inner, text: Ghost(url_parse(text@)->Ok_0) }),
        Err(e) => Err(e.to_string()),
    }
}

/// `Url::query_pairs_mut().append_pair`. Claimed: the URL's text becomes
/// `url_append_pair` of its text before and the pair (a URL is determined by
/// its serialization).
#[verifier::external_body]
fn append_query_pair(url: &mut WebUrl, key: &str, value: &str)
    ensures
        final(url)@ == url_append_pair(old(url)@, key@, value@),
{
    url.inner.query_pairs_mut().append_pair(key, value);
}

/// `String::from(Url)`. Claimed: the URL's text.
#[verifier::external_body]
fn url_text(url: WebUrl) -> (res: String)
    ensures
        res@ == url@,
{
    String::from(url.inner)
}

/// The text of `url` after appending the query pairs in order.
pub open spec fn with_pairs(url: Seq<char>, pairs: Seq<(Seq<char>, Seq<char>)>) -> Seq<char>
    decreases pairs.len(),
{
    if pairs.len() == 0 {
        url
    } else {
        url_append_pair(with_pairs(url, pairs.drop_last()), pairs.last().0, pairs.last().1)
    }
}

/// Parses the resolved URL of a request; a text that does not parse is
/// refused with the parser's error.
pub fn parse_request_url(resolved: &str) -> (res: Result<WebUrl, AppError>)
    ensures
        match url_parse(resolved@) {
            Ok(t) => res matches Ok(u) && u@ == t,
            Err(m) => res matches Err(e) && (e matches AppError::Url(x) && x@ == m),
        },
{
    match parse_url(resolved) {
        Ok(u) => Ok(u),
        Err(m) => Err(AppError::Url(m)),
    }
}

/// The URL a request is sent to: `url` with the resolved query pairs
/// (the active parameters, then an API key placed in the query) appended in
/// order.
pub fn url_with_query(url: WebUrl, pairs: &Vec<(String, String)>) -> (res: String)
    ensures
        res@ == with_pairs(url@, pair_views(pairs@)),
{
    let ghost start = url@;
    let mut url = url;
    let mut i: usize = 0;
    while i < pairs.len()
        invariant
            i <= pairs.len(),
            url@ == with_pairs(start, pair_views(pairs@).subrange(0, i as int)),
        decreases pairs.len() - i,
    {
        proof {
            let ps = pair_views(pairs@);
            assert(ps.subrange(0, i + 1).drop_last() == ps.subrange(0, i as int));
            assert(ps.subrange(0, i + 1).last() == ps[i as int]);
        }
        append_query_pair(&mut url, pairs[i].0.as_str(), pairs[i].1.as_str());
        i += 1;
    }
    assert(pair_views(pairs@).subrange(0, pairs.len() as int) == pair_views(pairs@));
    url_text(url)
}

/// A response header as a row: its name as id and key, its value where it is
/// visible ASCII and a marker otherwise, enabled and not secret.
pub open spec fn header_row(name: Seq<char>, value: Option<Seq<char>>) -> RowView {
    RowView {
        id: name,
        key: name,
        value: match value {
            Some(v) => v,
            None => "<non-utf8>"@,
        },
        enabled: true,
        secret: false,
    }
}

pub fn response_row(name: &str, value: &Option<String>) -> (res: KeyValueRow)
    ensures
        res@ == header_row(name@, opt_view(*value)),
{
    KeyValueRow {
        id: owned(name),
        key: owned(name),
        value: match value {
            Some(v) => owned(v.as_str()),
            None => owned("<non-utf8>"),
        },
        enabled: true,
        secret: false,
    }
}

/// The rows of a response's headers, in the order given.
pub fn response_rows(headers: &Vec<(String, Option<String>)>) -> (res: Vec<KeyValueRow>)
    ensures
        res.len() == headers.len(),
        forall|i: int|
            0 <= i < headers.len() ==> (#[trigger] res@[i])@ == header_row(
                headers@[i].0@,
                opt_view(headers@[i].1),
            ),
{
    let mut res: Vec<KeyValueRow> = Vec::new();
    let mut i: usize = 0;
    while i < headers.len()
        invariant
            i <= headers.len(),
            res.len() == i,
            forall|j: int|
                0 <= j < i ==> (#[trigger] res@[j])@ == header_row(
                    headers@[j].0@,
                    opt_view(headers@[j].1),
                ),
        decreases headers.len() - i,
    {
        res.push(response_row(headers[i].0.as_str(), &headers[i].1));
        i += 1;
    }
    res
}

/// The response as the front end sees it: the status with its reason phrase
/// (empty where there is none), the header rows, the body text and figures.
pub fn build_response(
    status: u16,
    reason: Option<String>,
    headers: &Vec<(String, Option<String>)>,
    body: String,
    content_type: Option<String>,
    elapsed_ms: u128,
    size_bytes: usize,
) -> (res: HermesResponse)
    ensures
        res.status == status,
        res.status_text@ == (match reason {
            Some(r) => r@,
            None => Seq::empty(),
        }),
        res.headers.len() == headers.len(),
        forall|i: int|
            0 <= i < headers.len() ==> (#[trigger] res.headers@[i])@ == header_row(
                headers@[i].0@,
                opt_view(headers@[i].1),
            ),
        res.body@ == body@,
        opt_view(res.content_type) == opt_view(content_type),
        res.elapsed_ms == elapsed_ms,
        res.size_bytes == size_bytes,
{
    HermesResponse {
        status,
        status_text: match reason {
            Some(r) => r,
            None => String::new(),
        },
        headers: response_rows(headers),
        body,
        content_type,
        elapsed_ms,
        size_bytes,
    }
}

/// Every row that takes part is active and is one of the request's rows, and
/// every active row takes part.
pub proof fn lemma_active_rows(rows: Seq<RowView>, r: RowView)
    ensures
        active_of(rows).contains(r) <==> (rows.contains(r) && is_active(r)),
    decreases rows.len(),
{
    if rows.len() > 0 {
        let rest = rows.drop_last();
        lemma_active_rows(rest, r);
        assert(rows == rest.push(rows.last()));
        let a = active_of(rest);
        if rest.contains(r) {
            let i = choose|i: int| 0 <= i < rest.len() && rest[i] == r;
            assert(rows[i] == r);
        }
        if rows.contains(r) && !rest.contains(r) {
            let i = choose|i: int| 0 <= i < rows.len() && rows[i] == r;
            if i < rest.len() {
                assert(rest[i] == r);
            }
        }
        if is_active(rows.last()) {
            if a.push(rows.last()).contains(r) && r != rows.last() {
                let i = choose|i: int| 0 <= i < a.len() + 1 && a.push(rows.last())[i] == r;
                assert(a[i] == r);
            }
            if a.contains(r) {
                let i = choose|i: int| 0 <= i < a.len() && a[i] == r;
                assert(a.push(rows.last())[i] == r);
            }
            if r == rows.last() {
                assert(a.push(rows.last())[a.len() as int] == r);
            }
        }
    }
}

/// Whether a request already names a header does not depend on the ASCII
/// case of the name asked for.
pub proof fn lemma_header_case(
    headers: Seq<(Seq<char>, Seq<char>)>,
    key: Seq<char>,
    other: Seq<char>,
)
    requires
        eq_ignore_ascii_case(key, other),
    ensures
        names_header(headers, key) == names_header(headers, other),
{
}

/// An API key placed in a header is sent as that header and adds nothing to
/// the query; one placed in the query adds exactly its pair after the
/// request's own parameters, and no authentication step.
pub proof fn lemma_api_key_placement(
    params: Seq<RowView>,
    name: Seq<char>,
    value: Seq<char>,
    secret: Option<Seq<char>>,
)
    ensures
        auth_step(
            AuthView::ApiKey {
                placement: ApiKeyPlacement::Header,
                name,
                value,
                value_secret: secret,
            },
        ) == AuthStep::HeaderKey(name, value),
        query_step(
            params,
            AuthView::ApiKey {
                placement: ApiKeyPlacement::Header,
                name,
                value,
                value_secret: secret,
            },
        ) == query_step(params, AuthView::NoAuth),
        query_step(
            params,
            AuthView::ApiKey { placement: ApiKeyPlacement::Query, name, value, value_secret: secret },
        ) == query_step(params, AuthView::NoAuth).push((name, value)),
{
    let base = active_of(params).map_values(|r: RowView| (r.key, r.value));
    assert(base + Seq::<(Seq<char>, Seq<char>)>::empty() == base);
    assert(base + seq![(name, value)] == base.push((name, value)));
}

} // verus!
