//! Turning cURL commands, Postman collections and OpenAPI documents into requests.
use vstd::prelude::*;
use crate::error::{AppError, is_detailed_error, is_user_error};
use crate::models::{
    AuthConfig, BodyView, AuthView, HermesRequest, ImportPreview, HttpMethod, KeyValueRow, RequestBody,
    RequestView, RowView, has_fresh_ids, new_id, request_shape, rows_view, row_shape,
};
use crate::documents::{
    YamlValue, entry_index, mapping_entry, yaml_as_mapping, yaml_as_sequence, yaml_as_str,
    yaml_get, yaml_mapping, yaml_member, yaml_sequence, yaml_str, JsonValue, json_array, json_as_array, json_as_bool, json_as_str, json_bool, json_get,
    json_member, json_str, lemma_member_index, member_index,
};
use crate::text::{
    CharClass, strip_back, strip_front, chars_of, concat, find_char, is_ascii_alphanumeric,
    is_ascii_digit, is_ascii_lower, is_ascii_upper, is_prefix, join, join_strings,
    last_nonempty, lower_char, lower_of, nonempty_pieces, owned, split_on, split_once,
    split_pieces, starts_with, str_eq, string_of, trim, trim_ws, upper, views,
};

verus! {

// ----- small text rules -----

/// The method a (case-insensitive) name stands for.
pub open spec fn method_from_name(s: Seq<char>) -> Option<HttpMethod> {
    let u = upper(s);
    if u == "GET"@ {
        Some(HttpMethod::Get)
    } else if u == "POST"@ {
        Some(HttpMethod::Post)
    } else if u == "PUT"@ {
        Some(HttpMethod::Put)
    } else if u == "PATCH"@ {
        Some(HttpMethod::Patch)
    } else if u == "DELETE"@ {
        Some(HttpMethod::Delete)
    } else if u == "HEAD"@ {
        Some(HttpMethod::Head)
    } else if u == "OPTIONS"@ {
        Some(HttpMethod::Options)
    } else {
        None
    }
}

fn upper_of(c: char) -> (res: char)
    ensures
        res == crate::text::upper_char(c),
{
    if 'a' <= c && c <= 'z' {
        let b = (c as u8) - 32;
        b as char
    } else {
        c
    }
}

/// `s.to_ascii_uppercase()`.
pub fn to_upper(s: &str) -> (res: String)
    ensures
        res@ == upper(s@),
{
    let cs = chars_of(s);
    let mut out: Vec<char> = Vec::new();
    let mut i: usize = 0;
    while i < cs.len()
        invariant
            i <= cs.len(),
            cs@ == s@,
            out@ == upper(cs@.subrange(0, i as int)),
        decreases cs.len() - i,
    {
        out.push(upper_of(cs[i]));
        i += 1;
        assert(out@ == upper(cs@.subrange(0, i as int)));
    }
    assert(cs@.subrange(0, cs@.len() as int) == cs@);
    string_of(&out)
}

/// The method named by `value`, ignoring ASCII case.
pub fn method_from_str(value: &str) -> (res: Option<HttpMethod>)
    ensures
        res == method_from_name(value@),
{
    let u = to_upper(value);
    let u = u.as_str();
    if str_eq(u, "GET") {
        Some(HttpMethod::Get)
    } else if str_eq(u, "POST") {
        Some(HttpMethod::Post)
    } else if str_eq(u, "PUT") {
        Some(HttpMethod::Put)
    } else if str_eq(u, "PATCH") {
        Some(HttpMethod::Patch)
    } else if str_eq(u, "DELETE") {
        Some(HttpMethod::Delete)
    } else if str_eq(u, "HEAD") {
        Some(HttpMethod::Head)
    } else if str_eq(u, "OPTIONS") {
        Some(HttpMethod::Options)
    } else {
        None
    }
}

/// The trimmed text starts like a JSON object or array.
pub open spec fn json_like(s: Seq<char>) -> bool {
    let t = trim_ws(s);
    t.len() > 0 && (t[0] == '{' || t[0] == '[')
}

/// Whether `value`, trimmed, starts with `{` or `[`.
pub fn looks_like_json(value: &str) -> (res: bool)
    ensures
        res == json_like(value@),
{
    let t = trim(value);
    let cs = chars_of(t.as_str());
    cs.len() > 0 && (cs[0] == '{' || cs[0] == '[')
}

/// A body of imported text: JSON when it looks like JSON, plain text otherwise.
pub open spec fn text_body(content: Seq<char>) -> BodyView {
    if json_like(content) {
        BodyView::Json(content)
    } else {
        BodyView::Text(content)
    }
}

fn text_body_of(content: String) -> (res: RequestBody)
    ensures
        res@ == text_body(content@),
{
    if looks_like_json(content.as_str()) {
        RequestBody::Json { content }
    } else {
        RequestBody::Text { content }
    }
}

/// A character of a name as it appears in a slug.
pub open spec fn slug_char(c: char) -> char {
    if is_ascii_alphanumeric(lower_char(c)) {
        lower_char(c)
    } else {
        '-'
    }
}

/// The lower-case alphanumeric words of a name joined by `-`, or `request`
/// when it has none.
pub open spec fn slug_of(s: Seq<char>) -> Seq<char> {
    let j = join(nonempty_pieces(split_on(s.map_values(|c: char| slug_char(c)), '-')), "-"@);
    if j.len() == 0 {
        "request"@
    } else {
        j
    }
}

/// The non-empty strings of `parts`.
pub fn nonempty_strings(parts: &Vec<String>) -> (res: Vec<String>)
    ensures
        views(res@) == nonempty_pieces(views(parts@)),
{
    let ghost all = views(parts@);
    let mut res: Vec<String> = Vec::new();
    let mut i: usize = 0;
    while i < parts.len()
        invariant
            i <= parts.len(),
            all == views(parts@),
            views(res@) == nonempty_pieces(all.subrange(0, i as int)),
        decreases parts.len() - i,
    {
        proof {
            assert(all.subrange(0, i + 1).drop_last() == all.subrange(0, i as int));
            assert(all.subrange(0, i + 1).last() == all[i as int]);
        }
        if chars_of(parts[i].as_str()).len() > 0 {
            let s = owned(parts[i].as_str());
            res.push(s);
            assert(views(res@) == views(res@).drop_last().push(s@));
        }
        i += 1;
    }
    assert(all.subrange(0, all.len() as int) == all);
    res
}

/// `slugify`: lower-cases ASCII letters, turns every other character that is
/// not an ASCII letter or digit into a separator, and joins the remaining
/// words with `-`; `request` when nothing remains.
pub fn slugify(value: &str) -> (res: String)
    ensures
        res@ == slug_of(value@),
{
    let cs = chars_of(value);
    let mut mapped: Vec<char> = Vec::new();
    let mut i: usize = 0;
    while i < cs.len()
        invariant
            i <= cs.len(),
            cs@ == value@,
            mapped@ == cs@.subrange(0, i as int).map_values(|c: char| slug_char(c)),
        decreases cs.len() - i,
    {
        let l = lower_of(cs[i]);
        let m = if ('a' <= l && l <= 'z') || ('A' <= l && l <= 'Z') || ('0' <= l && l <= '9') {
            l
        } else {
            '-'
        };
        mapped.push(m);
        i += 1;
        assert(mapped@ == cs@.subrange(0, i as int).map_values(|c: char| slug_char(c)));
    }
    assert(cs@.subrange(0, cs@.len() as int) == cs@);
    let text = string_of(&mapped);
    let pieces = split_pieces(text.as_str(), '-');
    let words = nonempty_strings(&pieces);
    let slug = join_strings(&words, "-");
    if chars_of(slug.as_str()).len() == 0 {
        owned("request")
    } else {
        slug
    }
}

/// Where an imported request is written: under `collections/imported/`,
/// named by the slug of its name and the first 8 characters of `id`.
pub open spec fn imported_path(name: Seq<char>, id: Seq<char>) -> Seq<char> {
    "collections/imported/"@ + slug_of(name) + "-"@ + first_chars(id, 8) + ".yaml"@
}

/// At most the first `n` characters of `s`.
pub open spec fn first_chars(s: Seq<char>, n: int) -> Seq<char> {
    if s.len() < n {
        s
    } else {
        s.take(n)
    }
}

pub fn imported_request_path(name: &str, id: &str) -> (res: String)
    ensures
        res@ == imported_path(name@, id@),
{
    let cs = chars_of(id);
    let n: usize = if cs.len() < 8 {
        cs.len()
    } else {
        8
    };
    let short = crate::text::string_of_range(&cs, 0, n);
    assert(short@ == first_chars(id@, 8));
    let a = concat("collections/imported/", slugify(name).as_str());
    let b = concat(a.as_str(), "-");
    let c = concat(b.as_str(), short.as_str());
    concat(c.as_str(), ".yaml")
}

// ----- cURL -----

/// The words of a shell command line (`shell_words::split`), `None` when a
/// quote is not closed.
pub uninterp spec fn shell_words_split(line: Seq<char>) -> Option<Seq<Seq<char>>>;

/// Calls `shell_words::split`. Contract: the words are `shell_words_split` of
/// the line; the only failure is an unclosed quote, whose message is
/// `missing closing quote`.
#[verifier::external_body]
fn split_shell_words(line: &str) -> (res: Result<Vec<String>, String>)
    ensures
        match res {
            Ok(v) => shell_words_split(line@) == Some(views(v@)),
            Err(m) => shell_words_split(line@) is None && m@ == "missing closing quote"@,
        },
{
    shell_words::split(line).map_err(|e| e.to_string())
}

/// What a scan of cURL words has found so far.
pub struct CurlScan {
    pub method: Option<HttpMethod>,
    pub url: Seq<char>,
    pub headers: Seq<(Seq<char>, Seq<char>)>,
    pub body: Option<Seq<char>>,
}

pub open spec fn is_data_flag(w: Seq<char>) -> bool {
    w == "-d"@ || w == "--data"@ || w == "--data-raw"@ || w == "--data-binary"@
}

/// A header argument `name: value`, split at its first colon and trimmed.
pub open spec fn header_arg(h: Seq<char>) -> Option<(Seq<char>, Seq<char>)> {
    match find_char(h, ':') {
        Some(k) => Some((trim_ws(h.subrange(0, k)), trim_ws(h.subrange(k + 1, h.len() as int)))),
        None => None,
    }
}

/// Scans the words from index `i` on: `-X`/`--request` set the method from the
/// next word, `-H`/`--header` add the next word as a header, the data flags
/// take the next word as the body and make the method POST unless one is set,
/// and a word starting with `http://` or `https://` is the URL.
pub open spec fn curl_scan(words: Seq<Seq<char>>, i: int, st: CurlScan) -> CurlScan
    decreases words.len() + 1 - i,
{
    if i < 0 || i >= words.len() {
        st
    } else {
        let w = words[i];
        let next: Option<Seq<char>> = if i + 1 < words.len() {
            Some(words[i + 1])
        } else {
            None
        };
        if w == "curl"@ {
            curl_scan(words, i + 1, st)
        } else if w == "-X"@ || w == "--request"@ {
            let m = match next {
                Some(n) => method_from_name(n),
                None => None,
            };
            curl_scan(words, i + 2, CurlScan { method: m, ..st })
        } else if w == "-H"@ || w == "--header"@ {
            let hs = match next {
                Some(n) => match header_arg(n) {
                    Some(h) => st.headers.push(h),
                    None => st.headers,
                },
                None => st.headers,
            };
            curl_scan(words, i + 2, CurlScan { headers: hs, ..st })
        } else if is_data_flag(w) {
            let m = if st.method is None {
                Some(HttpMethod::Post)
            } else {
                st.method
            };
            curl_scan(words, i + 2, CurlScan { method: m, body: next, ..st })
        } else if is_prefix("http://"@, w) || is_prefix("https://"@, w) {
            curl_scan(words, i + 1, CurlScan { url: w, ..st })
        } else {
            curl_scan(words, i + 1, st)
        }
    }
}

pub open spec fn curl_start() -> CurlScan {
    CurlScan { method: None, url: Seq::empty(), headers: Seq::empty(), body: None }
}

/// The request a finished scan describes (ids left out).
pub open spec fn curl_request_shape(st: CurlScan) -> RequestView {
    RequestView {
        id: Seq::empty(),
        name: match last_nonempty(split_on(st.url, '/')) {
            Some(n) => n,
            None => "Imported cURL"@,
        },
        method: match st.method {
            Some(m) => m,
            None => HttpMethod::Get,
        },
        url: st.url,
        params: Seq::empty(),
        headers: st.headers.map_values(
            |h: (Seq<char>, Seq<char>)|
                RowView { id: Seq::empty(), key: h.0, value: h.1, enabled: true, secret: false },
        ),
        body: match st.body {
            Some(c) => text_body(c),
            None => BodyView::NoBody(None),
        },
        auth: AuthView::NoAuth,
        description: None,
    }
}

spec fn scan_state(
    method: Option<HttpMethod>,
    url: String,
    headers: Seq<KeyValueRow>,
    body: Option<String>,
) -> CurlScan {
    CurlScan { method, url: url@, headers: header_pairs(headers), body: crate::error::opt_view(body) }
}

spec fn header_pairs(rows: Seq<KeyValueRow>) -> Seq<(Seq<char>, Seq<char>)> {
    rows.map_values(|r: KeyValueRow| (r.key@, r.value@))
}

spec fn plain_rows(rows: Seq<KeyValueRow>) -> bool {
    forall|j: int|
        0 <= j < rows.len() ==> (#[trigger] rows[j]).enabled && !rows[j].secret
            && crate::models::is_uuid_text(rows[j].id@)
}

fn last_nonempty_of(pieces: &Vec<String>) -> (res: Option<String>)
    ensures
        match last_nonempty(views(pieces@)) {
            Some(n) => res matches Some(r) && r@ == n,
            None => res is None,
        },
{
    let mut i = pieces.len();
    assert(views(pieces@).subrange(0, i as int) == views(pieces@));
    while i > 0
        invariant
            i <= pieces.len(),
            last_nonempty(views(pieces@)) == last_nonempty(views(pieces@).subrange(0, i as int)),
        decreases i,
    {
        proof {
            assert(views(pieces@).subrange(0, i as int).drop_last() == views(pieces@).subrange(
                0,
                i - 1,
            ));
        }
        if chars_of(pieces[i - 1].as_str()).len() > 0 {
            return Some(owned(pieces[i - 1].as_str()));
        }
        i -= 1;
    }
    None
}

/// The request described by the words of a cURL command: its URL is the last
/// `http://` or `https://` word, and a command without one is refused.
pub fn curl_request(words: &Vec<String>) -> (res: Result<HermesRequest, AppError>)
    ensures
        curl_scan(views(words@), 0, curl_start()).url.len() == 0 ==> (res matches Err(e)
            && is_user_error(
            e,
            "invalid_curl"@,
            "The cURL command does not contain an HTTP URL."@,
        )),
        curl_scan(views(words@), 0, curl_start()).url.len() > 0 ==> (res matches Ok(r)
            && request_shape(r@) == curl_request_shape(curl_scan(views(words@), 0, curl_start()))
            && has_fresh_ids(r@)),
{
    let ghost ws = views(words@);
    let mut method: Option<HttpMethod> = None;
    let mut url = String::new();
    let mut headers: Vec<KeyValueRow> = Vec::new();
    let mut body: Option<String> = None;
    let mut index: usize = 0;
    proof {
        assert(header_pairs(headers@) == Seq::<(Seq<char>, Seq<char>)>::empty());
        assert(url@ == Seq::<char>::empty());
    }
    while index < words.len()
        invariant
            ws == views(words@),
            curl_scan(ws, 0, curl_start()) == curl_scan(
                ws,
                index as int,
                CurlScan {
                    method,
                    url: url@,
                    headers: header_pairs(headers@),
                    body: crate::error::opt_view(body),
                },
            ),
            plain_rows(headers@),
        decreases words.len() - index,
    {
        let ghost old_index = index as int;
        let ghost old_st = scan_state(method, url, headers@, body);
        proof {
            assert(ws[old_index] == words@[old_index]@);
            if old_index + 1 < ws.len() {
                assert(ws[old_index + 1] == words@[old_index + 1]@);
            }
        }
        let w = words[index].as_str();
        let has_next = index + 1 < words.len();
        let after_next: usize = if has_next {
            index + 2
        } else {
            words.len()
        };
        if str_eq(w, "curl") {
            index += 1;
            assert(curl_scan(ws, old_index, old_st) == curl_scan(ws, index as int, scan_state(method, url, headers@, body)));
        } else if str_eq(w, "-X") || str_eq(w, "--request") {
            method = if has_next {
                method_from_str(words[index + 1].as_str())
            } else {
                None
            };
            index = after_next;
            assert(curl_scan(ws, old_index, old_st) == curl_scan(ws, index as int, scan_state(method, url, headers@, body))) by { reveal_with_fuel(curl_scan, 2); }
        } else if str_eq(w, "-H") || str_eq(w, "--header") {
            let ghost hs_old = headers@;
            if has_next {
                match split_once(words[index + 1].as_str(), ':') {
                    Some((k, v)) => {
                        assert(header_arg(ws[old_index + 1]) == Some((trim_ws(k@), trim_ws(v@))));
                        let row = KeyValueRow {
                            id: new_id(),
                            key: trim(k.as_str()),
                            value: trim(v.as_str()),
                            enabled: true,
                            secret: false,
                        };
                        headers.push(row);
                        assert(headers@.drop_last() == hs_old);
                        assert(header_pairs(headers@) == header_pairs(hs_old).push(
                            (row.key@, row.value@),
                        ));
                    },
                    None => {
                        assert(header_arg(ws[old_index + 1]) is None);
                    },
                }
            }
            index = after_next;
            assert(curl_scan(ws, old_index, old_st) == curl_scan(ws, index as int, scan_state(method, url, headers@, body))) by { reveal_with_fuel(curl_scan, 2); }
        } else if str_eq(w, "-d") || str_eq(w, "--data") || str_eq(w, "--data-raw") || str_eq(
            w,
            "--data-binary",
        ) {
            body = if has_next {
                Some(owned(words[index + 1].as_str()))
            } else {
                None
            };
            if method.is_none() {
                method = Some(HttpMethod::Post);
            }
            index = after_next;
            assert(curl_scan(ws, old_index, old_st) == curl_scan(ws, index as int, scan_state(method, url, headers@, body))) by { reveal_with_fuel(curl_scan, 2); }
        } else if starts_with(w, "http://") || starts_with(w, "https://") {
            url = owned(w);
            index += 1;
            assert(curl_scan(ws, old_index, old_st) == curl_scan(ws, index as int, scan_state(method, url, headers@, body)));
        } else {
            index += 1;
            assert(curl_scan(ws, old_index, old_st) == curl_scan(ws, index as int, scan_state(method, url, headers@, body)));
        }
        proof {
            let new_st = CurlScan {
                method,
                url: url@,
                headers: header_pairs(headers@),
                body: crate::error::opt_view(body),
            };
            reveal_with_fuel(curl_scan, 2);
            assert(ws[old_index] == words@[old_index]@);
            if old_index + 1 < ws.len() {
                assert(ws[old_index + 1] == words@[old_index + 1]@);
            }
            assert(curl_scan(ws, old_index, old_st) == curl_scan(ws, index as int, new_st));
        }
    }
    if chars_of(url.as_str()).len() == 0 {
        return Err(
            AppError::user("invalid_curl", owned("The cURL command does not contain an HTTP URL.")),
        );
    }
    let pieces = split_pieces(url.as_str(), '/');
    let name = match last_nonempty_of(&pieces) {
        Some(n) => n,
        None => owned("Imported cURL"),
    };
    let body = match body {
        Some(content) => text_body_of(content),
        None => RequestBody::NoBody { content: None },
    };
    let request = HermesRequest {
        id: new_id(),
        name,
        method: match method {
            Some(m) => m,
            None => HttpMethod::Get,
        },
        url,
        params: Vec::new(),
        headers,
        body,
        auth: AuthConfig::NoAuth,
        description: None,
    };
    proof {
        let st = curl_scan(ws, 0, curl_start());
        assert(request_shape(request@).headers == curl_request_shape(st).headers);
        assert(request_shape(request@).params == curl_request_shape(st).params);
    }
    Ok(request)
}

/// Parses a cURL command line into a request: the command is split into words
/// as a shell does, then read by `curl_request`.
pub fn parse_curl(command: &str) -> (res: Result<HermesRequest, AppError>)
    ensures
        shell_words_split(command@) is None ==> (res matches Err(e) && is_detailed_error(
            e,
            "invalid_curl"@,
            "Could not parse cURL command."@,
            "missing closing quote"@,
        )),
        shell_words_split(command@) is Some && curl_scan(shell_words_split(command@)->0, 0, curl_start()).url.len()
            == 0 ==> (res matches Err(e) && is_user_error(
            e,
            "invalid_curl"@,
            "The cURL command does not contain an HTTP URL."@,
        )),
        shell_words_split(command@) is Some && curl_scan(shell_words_split(command@)->0, 0, curl_start()).url.len()
            > 0 ==> (res matches Ok(r) && request_shape(r@) == curl_request_shape(
            curl_scan(shell_words_split(command@)->0, 0, curl_start()),
        ) && has_fresh_ids(r@)),
{
    match split_shell_words(command) {
        Ok(words) => curl_request(&words),
        Err(message) => Err(
            AppError::with_detail("invalid_curl", owned("Could not parse cURL command."), message),
        ),
    }
}

} // verus!

verus! {

// ----- Postman collections -----

/// The string items of a JSON array, in order (non-strings are skipped).
pub open spec fn json_strings(parts: Seq<JsonValue>) -> Seq<Seq<char>>
    decreases parts.len(),
{
    if parts.len() == 0 {
        Seq::empty()
    } else {
        match parts.last() {
            JsonValue::Str(s) => json_strings(parts.drop_last()).push(s@),
            _ => json_strings(parts.drop_last()),
        }
    }
}

/// The URL of a Postman request: a string, or an object with either a `raw`
/// text or a host (array of labels joined by `.`, or a string), an optional
/// protocol (`https` by default) and optional path segments.
pub open spec fn postman_url(v: Option<JsonValue>) -> Option<Seq<char>> {
    match v {
        Some(JsonValue::Str(s)) => Some(s@),
        Some(JsonValue::Object(m)) => {
            let o = JsonValue::Object(m);
            match json_str(json_get(o, "raw"@)) {
                Some(raw) => Some(raw),
                None => {
                    let protocol = match json_str(json_get(o, "protocol"@)) {
                        Some(p) => p,
                        None => "https"@,
                    };
                    let host = match json_array(json_get(o, "host"@)) {
                        Some(parts) => Some(join(json_strings(parts), "."@)),
                        None => json_str(json_get(o, "host"@)),
                    };
                    let path = match json_array(json_get(o, "path"@)) {
                        Some(parts) => join(json_strings(parts), "/"@),
                        None => Seq::empty(),
                    };
                    match host {
                        Some(h) => Some(
                            protocol + "://"@ + h + "/"@ + strip_front(path, CharClass::Only('/')),
                        ),
                        None => None,
                    }
                },
            }
        },
        _ => None,
    }
}

/// A Postman header entry as a row; an entry without a string `key` gives none.
pub open spec fn postman_header(h: JsonValue) -> Option<RowView> {
    match json_str(json_get(h, "key"@)) {
        Some(k) => Some(
            RowView {
                id: Seq::empty(),
                key: k,
                value: match json_str(json_get(h, "value"@)) {
                    Some(v) => v,
                    None => Seq::empty(),
                },
                enabled: !(match json_bool(json_get(h, "disabled"@)) {
                    Some(b) => b,
                    None => false,
                }),
                secret: false,
            },
        ),
        None => None,
    }
}

pub open spec fn postman_headers(hs: Seq<JsonValue>) -> Seq<RowView>
    decreases hs.len(),
{
    if hs.len() == 0 {
        Seq::empty()
    } else {
        match postman_header(hs.last()) {
            Some(r) => postman_headers(hs.drop_last()).push(r),
            None => postman_headers(hs.drop_last()),
        }
    }
}

/// The name of a Postman item.
pub open spec fn postman_name(item: JsonValue) -> Seq<char> {
    match json_str(json_get(item, "name"@)) {
        Some(n) => n,
        None => "Imported request"@,
    }
}

/// The request of a Postman item whose request object is `rv` (ids left out).
pub open spec fn postman_request(item: JsonValue, rv: JsonValue) -> RequestView {
    RequestView {
        id: Seq::empty(),
        name: postman_name(item),
        method: match json_str(json_get(rv, "method"@)) {
            Some(s) => match method_from_name(s) {
                Some(m) => m,
                None => HttpMethod::Get,
            },
            None => HttpMethod::Get,
        },
        url: match postman_url(json_get(rv, "url"@)) {
            Some(u) => u,
            None => Seq::empty(),
        },
        params: Seq::empty(),
        headers: match json_array(json_get(rv, "header"@)) {
            Some(hs) => postman_headers(hs),
            None => Seq::empty(),
        },
        body: match json_get(rv, "body"@) {
            Some(b) => match json_str(json_get(b, "raw"@)) {
                Some(c) => text_body(c),
                None => BodyView::NoBody(None),
            },
            None => BodyView::NoBody(None),
        },
        auth: AuthView::NoAuth,
        description: None,
    }
}

/// What an import yields: requests (ids left out) and warnings.
pub struct ImportOut {
    pub requests: Seq<RequestView>,
    pub warnings: Seq<Seq<char>>,
}

pub open spec fn out_concat(a: ImportOut, b: ImportOut) -> ImportOut {
    ImportOut { requests: a.requests + b.requests, warnings: a.warnings + b.warnings }
}

pub open spec fn no_output() -> ImportOut {
    ImportOut { requests: Seq::empty(), warnings: Seq::empty() }
}

/// A Postman item without sub-items: nothing without a `request`, a warning
/// when the request has no URL, the request otherwise.
pub open spec fn postman_leaf(item: JsonValue) -> ImportOut {
    match json_get(item, "request"@) {
        None => no_output(),
        Some(rv) => if postman_request(item, rv).url.len() == 0 {
            ImportOut {
                requests: Seq::empty(),
                warnings: seq![
                    "Skipped '"@ + postman_name(item) + "' because it has no URL."@,
                ],
            }
        } else {
            ImportOut { requests: seq![postman_request(item, rv)], warnings: Seq::empty() }
        },
    }
}

/// The requests and warnings of a list of Postman items, depth first: an item
/// with an array of sub-items stands for those sub-items.
pub open spec fn postman_collect(items: Seq<JsonValue>) -> ImportOut
    decreases items,
{
    if items.len() == 0 {
        no_output()
    } else {
        let prev = postman_collect(items.drop_last());
        let item = items.last();
        match item {
            JsonValue::Object(members) => match member_index(members@, "item"@) {
                Some(k) => {
                    proof {
                        lemma_member_index(members@, "item"@);
                    }
                    match members@[k].1 {
                        JsonValue::Array(children) => out_concat(prev, postman_collect(children@)),
                        _ => out_concat(prev, postman_leaf(item)),
                    }
                },
                None => out_concat(prev, postman_leaf(item)),
            },
            _ => out_concat(prev, postman_leaf(item)),
        }
    }
}

} // verus!

verus! {

/// The shapes (ids left out) of a list of requests.
pub open spec fn shapes(rs: Seq<HermesRequest>) -> Seq<RequestView> {
    rs.map_values(|r: HermesRequest| request_shape(r@))
}

/// Every request of the list carries fresh ids.
pub open spec fn all_fresh(rs: Seq<HermesRequest>) -> bool {
    forall|i: int| 0 <= i < rs.len() ==> has_fresh_ids(#[trigger] rs[i]@)
}

/// `after` keeps the requests of `before` and adds only requests with fresh ids.
pub open spec fn appends_fresh(before: Seq<HermesRequest>, after: Seq<HermesRequest>) -> bool {
    &&& before.len() <= after.len()
    &&& after.subrange(0, before.len() as int) == before
    &&& forall|i: int| before.len() <= i < after.len() ==> has_fresh_ids(#[trigger] after[i]@)
}

fn json_strings_of(parts: &Vec<JsonValue>) -> (res: Vec<String>)
    ensures
        views(res@) == json_strings(parts@),
{
    let mut res: Vec<String> = Vec::new();
    let mut i: usize = 0;
    while i < parts.len()
        invariant
            i <= parts.len(),
            views(res@) == json_strings(parts@.subrange(0, i as int)),
        decreases parts.len() - i,
    {
        proof {
            assert(parts@.subrange(0, i + 1).drop_last() == parts@.subrange(0, i as int));
            assert(parts@.subrange(0, i + 1).last() == parts@[i as int]);
        }
        match &parts[i] {
            JsonValue::Str(s) => {
                let t = owned(s.as_str());
                res.push(t);
                assert(views(res@) == views(res@).drop_last().push(t@));
            },
            _ => {},
        }
        i += 1;
    }
    assert(parts@.subrange(0, parts@.len() as int) == parts@);
    res
}

pub open spec fn opt_json(v: Option<&JsonValue>) -> Option<JsonValue> {
    match v {
        Some(r) => Some(*r),
        None => None,
    }
}

/// The URL of a Postman request (see `postman_url`).
pub fn postman_url_of(v: Option<&JsonValue>) -> (res: Option<String>)
    ensures
        match postman_url(opt_json(v)) {
            Some(u) => res matches Some(r) && r@ == u,
            None => res is None,
        },
{
    match v {
        Some(JsonValue::Str(s)) => Some(owned(s.as_str())),
        Some(o) => {
            match o {
                JsonValue::Object(_) => {},
                _ => {
                    return None;
                },
            }
            if let Some(raw) = json_as_str(json_member(o, "raw")) {
                return Some(raw);
            }
            let protocol = match json_as_str(json_member(o, "protocol")) {
                Some(p) => p,
                None => owned("https"),
            };
            let host = match json_as_array(json_member(o, "host")) {
                Some(parts) => Some(join_strings(&json_strings_of(parts), ".")),
                None => json_as_str(json_member(o, "host")),
            };
            let path = match json_as_array(json_member(o, "path")) {
                Some(parts) => join_strings(&json_strings_of(parts), "/"),
                None => String::new(),
            };
            match host {
                Some(h) => {
                    let a = concat(protocol.as_str(), "://");
                    let b = concat(a.as_str(), h.as_str());
                    let c = concat(b.as_str(), "/");
                    let p = crate::text::trim_start_in(path.as_str(), CharClass::Only('/'));
                    Some(concat(c.as_str(), p.as_str()))
                },
                None => None,
            }
        },
        None => None,
    }
}

pub open spec fn row_shapes(rows: Seq<KeyValueRow>) -> Seq<RowView> {
    rows_view(rows).map_values(|x: RowView| row_shape(x))
}

pub open spec fn rows_fresh(rows: Seq<KeyValueRow>) -> bool {
    forall|i: int| 0 <= i < rows.len() ==> crate::models::is_uuid_text(#[trigger] rows[i].id@)
}

fn postman_header_rows(hs: &Vec<JsonValue>) -> (res: Vec<KeyValueRow>)
    ensures
        row_shapes(res@) == postman_headers(hs@),
        rows_fresh(res@),
{
    let mut res: Vec<KeyValueRow> = Vec::new();
    let mut i: usize = 0;
    while i < hs.len()
        invariant
            i <= hs.len(),
            row_shapes(res@) == postman_headers(hs@.subrange(0, i as int)),
            rows_fresh(res@),
        decreases hs.len() - i,
    {
        proof {
            assert(hs@.subrange(0, i + 1).drop_last() == hs@.subrange(0, i as int));
            assert(hs@.subrange(0, i + 1).last() == hs@[i as int]);
        }
        let h = &hs[i];
        if let Some(key) = json_as_str(json_member(h, "key")) {
            let value = match json_as_str(json_member(h, "value")) {
                Some(v) => v,
                None => String::new(),
            };
            let disabled = match json_as_bool(json_member(h, "disabled")) {
                Some(b) => b,
                None => false,
            };
            let row = KeyValueRow { id: new_id(), key, value, enabled: !disabled, secret: false };
            res.push(row);
            assert(row_shapes(res@) == row_shapes(res@.drop_last()).push(row_shape(row@)));
        }
        i += 1;
    }
    assert(hs@.subrange(0, hs@.len() as int) == hs@);
    res
}

/// The name of a Postman item.
fn postman_name_of(item: &JsonValue) -> (res: String)
    ensures
        res@ == postman_name(*item),
{
    match json_as_str(json_member(item, "name")) {
        Some(n) => n,
        None => owned("Imported request"),
    }
}

/// Adds what a Postman item without sub-items yields.
fn postman_leaf_into(
    item: &JsonValue,
    requests: &mut Vec<HermesRequest>,
    warnings: &mut Vec<String>,
)
    ensures
        shapes(final(requests)@) == shapes(old(requests)@) + postman_leaf(*item).requests,
        views(final(warnings)@) == views(old(warnings)@) + postman_leaf(*item).warnings,
        appends_fresh(old(requests)@, final(requests)@),
{
    let rv = match json_member(item, "request") {
        Some(rv) => rv,
        None => {
            assert(shapes(requests@) == shapes(requests@) + Seq::<RequestView>::empty());
            assert(views(warnings@) == views(warnings@) + Seq::<Seq<char>>::empty());
            assert(requests@.subrange(0, requests@.len() as int) == requests@);
            return;
        },
    };
    let name = postman_name_of(item);
    let method = match json_as_str(json_member(rv, "method")) {
        Some(s) => match method_from_str(s.as_str()) {
            Some(m) => m,
            None => HttpMethod::Get,
        },
        None => HttpMethod::Get,
    };
    let url = match postman_url_of(json_member(rv, "url")) {
        Some(u) => u,
        None => String::new(),
    };
    if chars_of(url.as_str()).len() == 0 {
        let a = concat("Skipped '", name.as_str());
        let w = concat(a.as_str(), "' because it has no URL.");
        warnings.push(w);
        assert(views(warnings@) == views(old(warnings)@).push(w@));
        assert(shapes(requests@) == shapes(requests@) + Seq::<RequestView>::empty());
        assert(requests@.subrange(0, requests@.len() as int) == requests@);
        return;
    }
    let headers = match json_as_array(json_member(rv, "header")) {
        Some(hs) => postman_header_rows(hs),
        None => Vec::new(),
    };
    let body = match json_member(rv, "body") {
        Some(b) => match json_as_str(json_member(b, "raw")) {
            Some(c) => text_body_of(c),
            None => RequestBody::NoBody { content: None },
        },
        None => RequestBody::NoBody { content: None },
    };
    let request = HermesRequest {
        id: new_id(),
        name,
        method,
        url,
        params: Vec::new(),
        headers,
        body,
        auth: AuthConfig::NoAuth,
        description: None,
    };
    proof {
        let expected = postman_request(*item, *rv);
        assert(request_shape(request@).headers == expected.headers);
        assert(request_shape(request@).params == expected.params);
        assert(request_shape(request@) == expected);
    }
    requests.push(request);
    assert(shapes(requests@) == shapes(old(requests)@).push(request_shape(request@)));
    assert(views(warnings@) == views(warnings@) + Seq::<Seq<char>>::empty());
    assert(requests@.subrange(0, old(requests)@.len() as int) == old(requests)@);
}

/// Index of the member `key` of an object's members.
fn member_position(members: &Vec<(String, JsonValue)>, key: &str) -> (res: Option<usize>)
    ensures
        match res {
            Some(i) => member_index(members@, key@) == Some(i as int),
            None => member_index(members@, key@) is None,
        },
{
    let mut i: usize = 0;
    while i < members.len()
        invariant
            i <= members.len(),
            forall|j: int| 0 <= j < i ==> members@[j].0@ != key@,
        decreases members.len() - i,
    {
        if str_eq(members[i].0.as_str(), key) {
            proof {
                lemma_member_index(members@, key@);
            }
            return Some(i);
        }
        i += 1;
    }
    proof {
        lemma_member_index(members@, key@);
    }
    None
}

/// Adds the requests and warnings of a list of Postman items (see `postman_collect`).
pub fn collect_postman_items(
    items: &Vec<JsonValue>,
    requests: &mut Vec<HermesRequest>,
    warnings: &mut Vec<String>,
)
    ensures
        shapes(final(requests)@) == shapes(old(requests)@) + postman_collect(items@).requests,
        views(final(warnings)@) == views(old(warnings)@) + postman_collect(items@).warnings,
        appends_fresh(old(requests)@, final(requests)@),
    decreases items@,
{
    let ghost r0 = shapes(requests@);
    let ghost w0 = views(warnings@);
    let ghost start = requests@;
    assert(requests@.subrange(0, requests@.len() as int) == requests@);
    let mut i: usize = 0;
    while i < items.len()
        invariant
            i <= items.len(),
            shapes(requests@) == r0 + postman_collect(items@.subrange(0, i as int)).requests,
            views(warnings@) == w0 + postman_collect(items@.subrange(0, i as int)).warnings,
            appends_fresh(start, requests@),
        decreases items.len() - i,
    {
        let ghost pre = items@.subrange(0, i as int);
        let ghost post = items@.subrange(0, i + 1);
        proof {
            assert(post.drop_last() == pre);
            assert(post.last() == items@[i as int]);
        }
        let item = &items[i];
        let ghost mid = requests@;
        let mut handled = false;
        if let JsonValue::Object(members) = item {
            if let Some(k) = member_position(members, "item") {
                proof {
                    lemma_member_index(members@, "item"@);
                }
                if let JsonValue::Array(children) = &members[k].1 {
                    proof {
                        assert(items@[i as int] == JsonValue::Object(*members));
                        assert(decreases_to!(items@ => items@[i as int]));
                        assert(decreases_to!(items@[i as int] => *members));
                        assert(decreases_to!(*members => members@));
                        assert(decreases_to!(members@ => members@[k as int]));
                        assert(decreases_to!(members@[k as int] => members@[k as int].1));
                        assert(decreases_to!(members@[k as int].1 => *children));
                        assert(decreases_to!(*children => children@));
                        assert(decreases_to!(items@ => children@));
                    }
                    collect_postman_items(children, requests, warnings);
                    handled = true;
                }
            }
        }
        if !handled {
            postman_leaf_into(item, requests, warnings);
        }
        proof {
            assert(shapes(requests@) == r0 + postman_collect(post).requests);
            assert(views(warnings@) == w0 + postman_collect(post).warnings);
            assert(requests@.subrange(0, start.len() as int) == start) by {
                assert(requests@.subrange(0, mid.len() as int).subrange(0, start.len() as int)
                    == requests@.subrange(0, start.len() as int));
            }
            assert forall|k: int| start.len() <= k < requests@.len() implies has_fresh_ids(
                #[trigger] requests@[k]@,
            ) by {
                if k < mid.len() {
                    assert(requests@.subrange(0, mid.len() as int)[k] == requests@[k]);
                    assert(mid[k] == requests@[k]);
                }
            }
        }
        i += 1;
    }
    assert(items@.subrange(0, items@.len() as int) == items@);
}

/// The requests of a Postman collection document: those of its top-level
/// `item` array, with a warning for each request without a URL.
pub open spec fn postman_document(doc: JsonValue) -> ImportOut {
    match json_array(json_get(doc, "item"@)) {
        Some(items) => postman_collect(items),
        None => no_output(),
    }
}

/// Reads a Postman collection document into requests and warnings.
pub fn parse_postman(document: &JsonValue) -> (res: ImportPreview)
    ensures
        shapes(res.requests@) == postman_document(*document).requests,
        views(res.warnings@) == postman_document(*document).warnings,
        all_fresh(res.requests@),
{
    let mut requests: Vec<HermesRequest> = Vec::new();
    let mut warnings: Vec<String> = Vec::new();
    if let Some(items) = json_as_array(json_member(document, "item")) {
        collect_postman_items(items, &mut requests, &mut warnings);
        assert(requests@.subrange(0, 0) == Seq::<HermesRequest>::empty());
        assert(shapes(requests@) == postman_collect(items@).requests);
        assert(views(warnings@) == postman_collect(items@).warnings);
    } else {
        assert(shapes(requests@) == Seq::<RequestView>::empty());
        assert(views(warnings@) == Seq::<Seq<char>>::empty());
    }
    ImportPreview { requests, warnings }
}

} // verus!

verus! {

// ----- OpenAPI documents -----

pub open spec fn opt_yaml_str(v: Option<YamlValue>) -> Option<Seq<char>> {
    match v {
        Some(x) => yaml_str(x),
        None => None,
    }
}

/// The URL of the first server of the document, if it has one.
pub open spec fn first_server(doc: YamlValue) -> Option<Seq<char>> {
    match yaml_get(doc, "servers"@) {
        Some(servers) => match yaml_sequence(servers) {
            Some(list) => if list.len() > 0 {
                opt_yaml_str(yaml_get(list[0], "url"@))
            } else {
                None
            },
            None => None,
        },
        None => None,
    }
}

/// A row for a declared parameter: its name, no value, disabled.
pub open spec fn parameter_row(name: Seq<char>) -> RowView {
    RowView { id: Seq::empty(), key: name, value: Seq::empty(), enabled: false, secret: false }
}

pub open spec fn param_name(p: YamlValue) -> Seq<char> {
    match opt_yaml_str(yaml_get(p, "name"@)) {
        Some(n) => n,
        None => Seq::empty(),
    }
}

pub open spec fn param_location(p: YamlValue) -> Seq<char> {
    match opt_yaml_str(yaml_get(p, "in"@)) {
        Some(n) => n,
        None => Seq::empty(),
    }
}

/// The declared parameters of an operation that are in the query (first) and
/// in the headers (second); parameters without a name are left out.
pub open spec fn declared_parameters(ps: Seq<YamlValue>) -> (Seq<RowView>, Seq<RowView>)
    decreases ps.len(),
{
    if ps.len() == 0 {
        (Seq::empty(), Seq::empty())
    } else {
        let prev = declared_parameters(ps.drop_last());
        let p = ps.last();
        if param_name(p).len() == 0 {
            prev
        } else if param_location(p) == "query"@ {
            (prev.0.push(parameter_row(param_name(p))), prev.1)
        } else if param_location(p) == "header"@ {
            (prev.0, prev.1.push(parameter_row(param_name(p))))
        } else {
            prev
        }
    }
}

pub open spec fn operation_parameters(op: YamlValue) -> (Seq<RowView>, Seq<RowView>) {
    match yaml_get(op, "parameters"@) {
        Some(v) => match yaml_sequence(v) {
            Some(ps) => declared_parameters(ps),
            None => (Seq::empty(), Seq::empty()),
        },
        None => (Seq::empty(), Seq::empty()),
    }
}

/// The body of an operation: a JSON skeleton when its request body offers
/// `application/json`, empty text for other content, none without content.
pub open spec fn operation_body(op: YamlValue) -> BodyView {
    match yaml_get(op, "requestBody"@) {
        None => BodyView::NoBody(None),
        Some(rb) => match yaml_get(rb, "content"@) {
            Some(c) => match yaml_mapping(c) {
                Some(entries) => if entry_index(entries, "application/json"@) is Some {
                    BodyView::Json("{\n  \n}"@)
                } else {
                    BodyView::Text(Seq::empty())
                },
                None => BodyView::NoBody(None),
            },
            None => BodyView::NoBody(None),
        },
    }
}

/// The name of an operation: its `operationId`, else its `summary`, else the path.
pub open spec fn operation_name(op: YamlValue, path: Seq<char>) -> Seq<char> {
    match opt_yaml_str(yaml_get(op, "operationId"@)) {
        Some(n) => n,
        None => match opt_yaml_str(yaml_get(op, "summary"@)) {
            Some(n) => n,
            None => path,
        },
    }
}

/// The request of one operation (ids left out).
pub open spec fn operation_request(
    base: Seq<char>,
    path: Seq<char>,
    method: HttpMethod,
    op: YamlValue,
) -> RequestView {
    RequestView {
        id: Seq::empty(),
        name: operation_name(op, path),
        method,
        url: strip_back(base, CharClass::Only('/')) + path,
        params: operation_parameters(op).0,
        headers: operation_parameters(op).1,
        body: operation_body(op),
        auth: AuthView::NoAuth,
        description: opt_yaml_str(yaml_get(op, "description"@)),
    }
}

/// The requests of the operations of one path whose key names an HTTP method.
pub open spec fn path_operations(base: Seq<char>, path: Seq<char>, ops: Seq<(YamlValue, YamlValue)>) -> Seq<
    RequestView,
>
    decreases ops.len(),
{
    if ops.len() == 0 {
        Seq::empty()
    } else {
        let prev = path_operations(base, path, ops.drop_last());
        match yaml_str(ops.last().0) {
            Some(m) => match method_from_name(m) {
                Some(method) => prev.push(operation_request(base, path, method, ops.last().1)),
                None => prev,
            },
            None => prev,
        }
    }
}

/// The requests of the paths whose key is a string and whose value a mapping.
pub open spec fn openapi_requests(base: Seq<char>, paths: Seq<(YamlValue, YamlValue)>) -> Seq<
    RequestView,
>
    decreases paths.len(),
{
    if paths.len() == 0 {
        Seq::empty()
    } else {
        let prev = openapi_requests(base, paths.drop_last());
        match yaml_str(paths.last().0) {
            Some(path) => match yaml_mapping(paths.last().1) {
                Some(ops) => prev + path_operations(base, path, ops),
                None => prev,
            },
            None => prev,
        }
    }
}

/// The base URL of requests: the first server's URL, or a `{{baseUrl}}` placeholder.
pub open spec fn openapi_base(doc: YamlValue) -> Seq<char> {
    match first_server(doc) {
        Some(u) => u,
        None => "{{baseUrl}}"@,
    }
}

fn opt_str_of(v: Option<&YamlValue>) -> (res: Option<String>)
    ensures
        match res {
            Some(s) => opt_yaml_str(opt_yaml(v)) == Some(s@),
            None => opt_yaml_str(opt_yaml(v)) is None,
        },
{
    match v {
        Some(x) => yaml_as_str(x),
        None => None,
    }
}

pub open spec fn opt_yaml(v: Option<&YamlValue>) -> Option<YamlValue> {
    match v {
        Some(r) => Some(*r),
        None => None,
    }
}

/// `first_server_url`.
fn first_server_url(doc: &YamlValue) -> (res: Option<String>)
    ensures
        match first_server(*doc) {
            Some(u) => res matches Some(r) && r@ == u,
            None => res is None,
        },
{
    match yaml_member(doc, "servers") {
        Some(servers) => match yaml_as_sequence(servers) {
            Some(list) => if list.len() > 0 {
                opt_str_of(yaml_member(&list[0], "url"))
            } else {
                None
            },
            None => None,
        },
        None => None,
    }
}

/// `openapi_parameters`: the query and header rows of an operation's parameters.
fn openapi_parameters(op: &YamlValue) -> (res: (Vec<KeyValueRow>, Vec<KeyValueRow>))
    ensures
        row_shapes(res.0@) == operation_parameters(*op).0,
        row_shapes(res.1@) == operation_parameters(*op).1,
        rows_fresh(res.0@),
        rows_fresh(res.1@),
{
    let mut params: Vec<KeyValueRow> = Vec::new();
    let mut headers: Vec<KeyValueRow> = Vec::new();
    let ps = match yaml_member(op, "parameters") {
        Some(v) => match yaml_as_sequence(v) {
            Some(ps) => ps,
            None => {
                return (params, headers);
            },
        },
        None => {
            return (params, headers);
        },
    };
    let mut i: usize = 0;
    while i < ps.len()
        invariant
            i <= ps.len(),
            row_shapes(params@) == declared_parameters(ps@.subrange(0, i as int)).0,
            row_shapes(headers@) == declared_parameters(ps@.subrange(0, i as int)).1,
            rows_fresh(params@),
            rows_fresh(headers@),
        decreases ps.len() - i,
    {
        proof {
            assert(ps@.subrange(0, i + 1).drop_last() == ps@.subrange(0, i as int));
            assert(ps@.subrange(0, i + 1).last() == ps@[i as int]);
        }
        let p = &ps[i];
        let name = match opt_str_of(yaml_member(p, "name")) {
            Some(n) => n,
            None => String::new(),
        };
        let location = match opt_str_of(yaml_member(p, "in")) {
            Some(n) => n,
            None => String::new(),
        };
        if chars_of(name.as_str()).len() > 0 {
            let row = KeyValueRow {
                id: new_id(),
                key: name,
                value: String::new(),
                enabled: false,
                secret: false,
            };
            if str_eq(location.as_str(), "query") {
                params.push(row);
                assert(row_shapes(params@) == row_shapes(params@.drop_last()).push(row_shape(row@)));
            } else if str_eq(location.as_str(), "header") {
                headers.push(row);
                assert(row_shapes(headers@) == row_shapes(headers@.drop_last()).push(row_shape(row@)));
            }
        }
        i += 1;
    }
    assert(ps@.subrange(0, ps@.len() as int) == ps@);
    (params, headers)
}

/// `openapi_body`.
fn openapi_body(op: &YamlValue) -> (res: RequestBody)
    ensures
        res@ == operation_body(*op),
{
    let rb = match yaml_member(op, "requestBody") {
        Some(rb) => rb,
        None => {
            return RequestBody::NoBody { content: None };
        },
    };
    let entries = match yaml_member(rb, "content") {
        Some(c) => match yaml_as_mapping(c) {
            Some(entries) => entries,
            None => {
                return RequestBody::NoBody { content: None };
            },
        },
        None => {
            return RequestBody::NoBody { content: None };
        },
    };
    if mapping_entry(entries, "application/json").is_some() {
        RequestBody::Json { content: owned("{\n  \n}") }
    } else {
        RequestBody::Text { content: String::new() }
    }
}

fn operation_name_of(op: &YamlValue, path: &str) -> (res: String)
    ensures
        res@ == operation_name(*op, path@),
{
    match opt_str_of(yaml_member(op, "operationId")) {
        Some(n) => n,
        None => match opt_str_of(yaml_member(op, "summary")) {
            Some(n) => n,
            None => owned(path),
        },
    }
}

/// Adds the requests of the operations of one path.
fn add_path_operations(
    base: &str,
    path: &str,
    ops: &Vec<(YamlValue, YamlValue)>,
    requests: &mut Vec<HermesRequest>,
)
    requires
        all_fresh(old(requests)@),
    ensures
        shapes(final(requests)@) == shapes(old(requests)@) + path_operations(base@, path@, ops@),
        all_fresh(final(requests)@),
{
    let ghost r0 = shapes(requests@);
    let mut i: usize = 0;
    while i < ops.len()
        invariant
            i <= ops.len(),
            shapes(requests@) == r0 + path_operations(base@, path@, ops@.subrange(0, i as int)),
            all_fresh(requests@),
        decreases ops.len() - i,
    {
        proof {
            assert(ops@.subrange(0, i + 1).drop_last() == ops@.subrange(0, i as int));
            assert(ops@.subrange(0, i + 1).last() == ops@[i as int]);
        }
        let ghost pre = path_operations(base@, path@, ops@.subrange(0, i as int));
        let ghost post = path_operations(base@, path@, ops@.subrange(0, i + 1));
        if let Some(m) = yaml_as_str(&ops[i].0) {
            if let Some(method) = method_from_str(m.as_str()) {
                let op = &ops[i].1;
                let (params, headers) = openapi_parameters(op);
                let trimmed = crate::text::trim_end_in(base, CharClass::Only('/'));
                let request = HermesRequest {
                    id: new_id(),
                    name: operation_name_of(op, path),
                    method,
                    url: concat(trimmed.as_str(), path),
                    params,
                    headers,
                    body: openapi_body(op),
                    auth: AuthConfig::NoAuth,
                    description: opt_str_of(yaml_member(op, "description")),
                };
                proof {
                    let expected = operation_request(base@, path@, method, *op);
                    assert(request_shape(request@).headers == expected.headers);
                    assert(request_shape(request@).params == expected.params);
                    assert(request_shape(request@) == expected);
                }
                let ghost before = requests@;
                requests.push(request);
                assert(requests@.drop_last() == before);
                assert(shapes(requests@) == shapes(before).push(request_shape(request@)));
                assert(post == pre.push(request_shape(request@)));
                assert(r0 + pre.push(request_shape(request@)) == (r0 + pre).push(request_shape(request@)));
                assert(shapes(requests@) == r0 + post);
            } else {
                assert(post == pre);
            }
        } else {
            assert(post == pre);
        }
        i += 1;
    }
    assert(ops@.subrange(0, ops@.len() as int) == ops@);
}

/// Reads an OpenAPI document: one request per operation of each path, named by
/// its `operationId` or `summary`, its URL the first server's URL (or a
/// `{{baseUrl}}` placeholder) followed by the path. A document without a
/// `paths` mapping is refused; one without operations gives a warning.
pub fn parse_openapi(document: &YamlValue) -> (res: Result<ImportPreview, AppError>)
    ensures
        (match yaml_get(*document, "paths"@) {
            Some(p) => yaml_mapping(p) is None,
            None => true,
        }) ==> (res matches Err(e) && is_user_error(
            e,
            "invalid_openapi"@,
            "OpenAPI document does not contain a paths object."@,
        )),
        (match yaml_get(*document, "paths"@) {
            Some(p) => yaml_mapping(p) is Some,
            None => false,
        }) ==> (res matches Ok(preview) && shapes(preview.requests@) == openapi_requests(
            openapi_base(*document),
            yaml_mapping(yaml_get(*document, "paths"@)->0)->0,
        ) && all_fresh(preview.requests@) && views(preview.warnings@) == (if shapes(
            preview.requests@,
        ).len() == 0 {
            seq!["No supported HTTP operations were found in the OpenAPI document."@]
        } else {
            Seq::empty()
        })),
{
    let base = match first_server_url(document) {
        Some(u) => u,
        None => owned("{{baseUrl}}"),
    };
    let paths = match yaml_member(document, "paths") {
        Some(p) => match yaml_as_mapping(p) {
            Some(entries) => entries,
            None => {
                return Err(
                    AppError::user(
                        "invalid_openapi",
                        owned("OpenAPI document does not contain a paths object."),
                    ),
                );
            },
        },
        None => {
            return Err(
                AppError::user(
                    "invalid_openapi",
                    owned("OpenAPI document does not contain a paths object."),
                ),
            );
        },
    };
    let mut requests: Vec<HermesRequest> = Vec::new();
    let mut i: usize = 0;
    while i < paths.len()
        invariant
            i <= paths.len(),
            base@ == openapi_base(*document),
            shapes(requests@) == openapi_requests(base@, paths@.subrange(0, i as int)),
            all_fresh(requests@),
        decreases paths.len() - i,
    {
        proof {
            assert(paths@.subrange(0, i + 1).drop_last() == paths@.subrange(0, i as int));
            assert(paths@.subrange(0, i + 1).last() == paths@[i as int]);
        }
        if let Some(path) = yaml_as_str(&paths[i].0) {
            if let Some(ops) = yaml_as_mapping(&paths[i].1) {
                add_path_operations(base.as_str(), path.as_str(), ops, &mut requests);
            }
        }
        i += 1;
    }
    assert(paths@.subrange(0, paths@.len() as int) == paths@);
    let mut warnings: Vec<String> = Vec::new();
    if requests.len() == 0 {
        let w = owned("No supported HTTP operations were found in the OpenAPI document.");
        warnings.push(w);
        assert(views(warnings@) == seq![w@]);
    } else {
        assert(views(warnings@) == Seq::<Seq<char>>::empty());
    }
    Ok(ImportPreview { requests, warnings })
}

} // verus!

verus! {

// ----- what to import -----

/// The kinds of documents that can be imported.
#[derive(Debug, Clone, Copy, PartialEq, Eq, Structural)]
pub enum ImportKind {
    Curl,
    Postman,
    Openapi,
}

/// The import kind named `kind`; any other name is refused.
pub fn import_kind(kind: &str) -> (res: Result<ImportKind, AppError>)
    ensures
        kind@ == "curl"@ ==> res == Ok::<ImportKind, AppError>(ImportKind::Curl),
        kind@ != "curl"@ && kind@ == "postman"@ ==> res == Ok::<ImportKind, AppError>(
            ImportKind::Postman,
        ),
        kind@ != "curl"@ && kind@ != "postman"@ && kind@ == "openapi"@ ==> res == Ok::<
            ImportKind,
            AppError,
        >(ImportKind::Openapi),
        kind@ != "curl"@ && kind@ != "postman"@ && kind@ != "openapi"@ ==> (res matches Err(e)
            && is_user_error(
            e,
            "unsupported_import"@,
            "Unsupported import kind '"@ + kind@ + "'."@,
        )),
{
    if str_eq(kind, "curl") {
        Ok(ImportKind::Curl)
    } else if str_eq(kind, "postman") {
        Ok(ImportKind::Postman)
    } else if str_eq(kind, "openapi") {
        Ok(ImportKind::Openapi)
    } else {
        let a = concat("Unsupported import kind '", kind);
        Err(AppError::user("unsupported_import", concat(a.as_str(), "'.")))
    }
}

/// A document to import, parsed according to its kind.
#[derive(Debug)]
pub enum ImportPayload {
    Curl(String),
    Postman(JsonValue),
    Openapi(YamlValue),
}

/// The requests (and warnings) an import would create: one request for a
/// cURL command, the requests of a Postman collection, the operations of an
/// OpenAPI document.
pub fn preview(payload: &ImportPayload) -> (res: Result<ImportPreview, AppError>)
    ensures
        *payload matches ImportPayload::Curl(c) ==> curl_preview(c@, res),
        *payload matches ImportPayload::Postman(doc) ==> (res matches Ok(p) && shapes(p.requests@)
            == postman_document(doc).requests && views(p.warnings@) == postman_document(
            doc,
        ).warnings && all_fresh(p.requests@)),
        *payload matches ImportPayload::Openapi(doc) ==> openapi_preview(doc, res),
{
    match payload {
        ImportPayload::Curl(command) => match parse_curl(command.as_str()) {
            Ok(request) => {
                let mut requests: Vec<HermesRequest> = Vec::new();
                requests.push(request);
                assert(shapes(requests@) == seq![request_shape(request@)]);
                Ok(ImportPreview { requests, warnings: Vec::new() })
            },
            Err(e) => Err(e),
        },
        ImportPayload::Postman(document) => Ok(parse_postman(document)),
        ImportPayload::Openapi(document) => parse_openapi(document),
    }
}

/// The preview of a cURL command: its one request, or the error `parse_curl` gives.
pub open spec fn curl_preview(command: Seq<char>, res: Result<ImportPreview, AppError>) -> bool {
    match shell_words_split(command) {
        None => res matches Err(e) && is_detailed_error(
            e,
            "invalid_curl"@,
            "Could not parse cURL command."@,
            "missing closing quote"@,
        ),
        Some(ws) => if curl_scan(ws, 0, curl_start()).url.len() == 0 {
            res matches Err(e) && is_user_error(
                e,
                "invalid_curl"@,
                "The cURL command does not contain an HTTP URL."@,
            )
        } else {
            res matches Ok(p) && shapes(p.requests@) == seq![
                curl_request_shape(curl_scan(ws, 0, curl_start())),
            ] && p.warnings@.len() == 0 && all_fresh(p.requests@)
        },
    }
}

/// The preview of an OpenAPI document, as `parse_openapi` gives it.
pub open spec fn openapi_preview(doc: YamlValue, res: Result<ImportPreview, AppError>) -> bool {
    match yaml_get(doc, "paths"@) {
        Some(p) if yaml_mapping(p) is Some => res matches Ok(preview) && shapes(preview.requests@)
            == openapi_requests(openapi_base(doc), yaml_mapping(p)->0) && all_fresh(
            preview.requests@,
        ) && views(preview.warnings@) == (if shapes(preview.requests@).len() == 0 {
            seq!["No supported HTTP operations were found in the OpenAPI document."@]
        } else {
            Seq::empty()
        }),
        _ => res matches Err(e) && is_user_error(
            e,
            "invalid_openapi"@,
            "OpenAPI document does not contain a paths object."@,
        ),
    }
}

/// Where a newly imported request named `name` is written: a path under
/// `collections/imported/` made of the name's slug and a fresh random id.
pub fn import_destination(name: &str) -> (res: String)
    ensures
        exists|id: Seq<char>| crate::models::is_uuid_text(id) && res@ == imported_path(name@, id),
{
    let id = new_id();
    imported_request_path(name, id.as_str())
}

/// A request to write in an import, and the workspace-relative file it goes to.
#[derive(Debug)]
pub struct ImportFile {
    pub path: String,
    pub request: HermesRequest,
}

/// `f` writes `r` to a file named after `r` and a fresh random id.
pub open spec fn is_import_file(f: ImportFile, r: HermesRequest) -> bool {
    &&& f.request@ == r@
    &&& exists|id: Seq<char>|
        crate::models::is_uuid_text(id) && f.path@ == imported_path(r.name@, id)
}

/// The files an import writes: one per previewed request, in order, each
/// under `collections/imported/`. The import reports the paths written and
/// the preview's warnings.
pub fn import_files(preview: &ImportPreview) -> (res: Vec<ImportFile>)
    ensures
        res.len() == preview.requests.len(),
        forall|i: int|
            0 <= i < res.len() ==> is_import_file(#[trigger] res@[i], preview.requests@[i]),
{
    let mut res: Vec<ImportFile> = Vec::new();
    let mut i: usize = 0;
    while i < preview.requests.len()
        invariant
            i <= preview.requests.len(),
            res.len() == i,
            forall|j: int|
                0 <= j < i ==> is_import_file(#[trigger] res@[j], preview.requests@[j]),
        decreases preview.requests.len() - i,
    {
        let request = preview.requests[i].clone();
        let path = import_destination(request.name.as_str());
        res.push(ImportFile { path, request });
        i += 1;
    }
    res
}

/// A method's name, as requests store it, reads back as that method.
pub proof fn lemma_method_name_round_trip(m: HttpMethod)
    ensures
        method_from_name(crate::models::method_name(m)) == Some(m),
{
    reveal_strlit("GET");
    reveal_strlit("POST");
    reveal_strlit("PUT");
    reveal_strlit("PATCH");
    reveal_strlit("DELETE");
    reveal_strlit("HEAD");
    reveal_strlit("OPTIONS");
    let n = crate::models::method_name(m);
    assert(upper(n) =~= n);
    assert(n.len() != 3 || n[0] != 'G' ==> n != "GET"@);
    assert(n.len() != 3 || n[0] != 'P' ==> n != "PUT"@);
    assert(n.len() != 4 || n[0] != 'P' ==> n != "POST"@);
    assert(n.len() != 4 || n[0] != 'H' ==> n != "HEAD"@);
    assert(n.len() != 5 ==> n != "PATCH"@);
    assert(n.len() != 6 ==> n != "DELETE"@);
}

/// A character a slug is made of, other than `-`: a lower-case ASCII letter or
/// a digit.
pub open spec fn is_slug_word_char(c: char) -> bool {
    is_ascii_lower(c) || is_ascii_digit(c)
}

/// A slug: lower-case ASCII letters and digits in words joined by single
/// `-`, never empty and neither starting nor ending with `-`.
pub open spec fn is_slug(s: Seq<char>) -> bool {
    &&& s.len() > 0
    &&& forall|i: int| 0 <= i < s.len() ==> is_slug_word_char(#[trigger] s[i]) || s[i] == '-'
    &&& s[0] != '-'
    &&& s.last() != '-'
    &&& forall|i: int| 0 <= i < s.len() - 1 ==> !(#[trigger] s[i] == '-' && s[i + 1] == '-')
}

pub open spec fn all_word_chars(p: Seq<char>) -> bool {
    forall|i: int| 0 <= i < p.len() ==> is_slug_word_char(#[trigger] p[i])
}

proof fn lemma_slug_char(c: char)
    ensures
        is_slug_word_char(slug_char(c)) || slug_char(c) == '-',
{
    if is_ascii_upper(c) {
        assert(lower_char(c) == ((c as u32) + 32) as char);
        assert(is_ascii_lower(lower_char(c)));
    }
}

proof fn lemma_split_word_pieces(s: Seq<char>)
    requires
        forall|i: int| 0 <= i < s.len() ==> is_slug_word_char(#[trigger] s[i]) || s[i] == '-',
    ensures
        forall|k: int| 0 <= k < split_on(s, '-').len() ==> all_word_chars(
            #[trigger] split_on(s, '-')[k],
        ),
    decreases s.len(),
{
    if s.len() > 0 {
        let t = s.drop_last();
        assert forall|i: int| 0 <= i < t.len() implies is_slug_word_char(#[trigger] t[i]) || t[i]
            == '-' by {
            assert(t[i] == s[i]);
        }
        lemma_split_word_pieces(t);
        crate::text::lemma_split_on_nonempty(t, '-');
        let rest = split_on(t, '-');
        if s.last() != '-' {
            let last = rest.last().push(s.last());
            assert(is_slug_word_char(s[s.len() - 1]));
            assert(all_word_chars(rest[rest.len() - 1]));
            assert(all_word_chars(last));
        }
    }
}

proof fn lemma_nonempty_word_pieces(ps: Seq<Seq<char>>)
    requires
        forall|k: int| 0 <= k < ps.len() ==> all_word_chars(#[trigger] ps[k]),
    ensures
        forall|k: int|
            0 <= k < nonempty_pieces(ps).len() ==> all_word_chars(#[trigger] nonempty_pieces(ps)[k])
                && nonempty_pieces(ps)[k].len() > 0,
    decreases ps.len(),
{
    if ps.len() > 0 {
        let t = ps.drop_last();
        assert forall|k: int| 0 <= k < t.len() implies all_word_chars(#[trigger] t[k]) by {
            assert(t[k] == ps[k]);
        }
        lemma_nonempty_word_pieces(t);
        let n = nonempty_pieces(t);
        if ps.last().len() > 0 {
            assert(all_word_chars(ps[ps.len() - 1]));
            assert forall|k: int| 0 <= k < n.len() + 1 implies all_word_chars(
                #[trigger] n.push(ps.last())[k],
            ) && n.push(ps.last())[k].len() > 0 by {
                if k < n.len() {
                    assert(n.push(ps.last())[k] == n[k]);
                }
            }
        }
    }
}

proof fn lemma_join_words(parts: Seq<Seq<char>>)
    requires
        parts.len() > 0,
        forall|k: int| 0 <= k < parts.len() ==> all_word_chars(#[trigger] parts[k]) && parts[k].len() > 0,
    ensures
        is_slug(join(parts, "-"@)),
    decreases parts.len(),
{
    reveal_strlit("-");
    let j = join(parts, "-"@);
    if parts.len() == 1 {
        assert(all_word_chars(parts[0]));
        assert(j == parts[0]);
        assert(is_slug_word_char(j[0]));
        assert(is_slug_word_char(j[j.len() - 1]));
    } else {
        let t = parts.drop_last();
        assert forall|k: int| 0 <= k < t.len() implies all_word_chars(#[trigger] t[k]) && t[k].len() > 0 by {
            assert(t[k] == parts[k]);
        }
        lemma_join_words(t);
        let a = join(t, "-"@);
        let l = parts.last();
        assert(all_word_chars(parts[parts.len() - 1]));
        assert(j == a + "-"@ + l);
        assert forall|i: int| 0 <= i < j.len() implies is_slug_word_char(#[trigger] j[i]) || j[i] == '-' by {
            if i < a.len() {
                assert(j[i] == a[i]);
            } else if i > a.len() {
                assert(j[i] == l[i - a.len() - 1]);
            }
        }
        assert(j[0] == a[0]);
        assert(j[j.len() - 1] == l[l.len() - 1]);
        assert(is_slug_word_char(l[l.len() - 1]));
        assert forall|i: int| 0 <= i < j.len() - 1 implies !(#[trigger] j[i] == '-' && j[i + 1] == '-') by {
            if i < a.len() - 1 {
                assert(j[i] == a[i]);
                assert(j[i + 1] == a[i + 1]);
            } else if i == a.len() - 1 {
                assert(j[i] == a[a.len() - 1]);
            } else if i == a.len() {
                assert(j[i + 1] == l[0]);
                assert(is_slug_word_char(l[0]));
            } else {
                assert(j[i] == l[i - a.len() - 1]);
                assert(is_slug_word_char(l[i - a.len() - 1]));
            }
        }
    }
}

/// Every name gives a slug: the file names of imported requests are made of
/// lower-case words joined by single `-`.
pub proof fn lemma_slug_shape(name: Seq<char>)
    ensures
        is_slug(slug_of(name)),
{
    let mapped = name.map_values(|c: char| slug_char(c));
    assert forall|i: int| 0 <= i < mapped.len() implies is_slug_word_char(#[trigger] mapped[i])
        || mapped[i] == '-' by {
        lemma_slug_char(name[i]);
    }
    lemma_split_word_pieces(mapped);
    let ps = nonempty_pieces(split_on(mapped, '-'));
    lemma_nonempty_word_pieces(split_on(mapped, '-'));
    let j = join(ps, "-"@);
    if ps.len() > 0 {
        lemma_join_words(ps);
    } else {
        assert(j.len() == 0);
        reveal_strlit("request");
        let r = "request"@;
        assert(r.len() == 7);
        assert(forall|i: int| 0 <= i < 7 ==> is_ascii_lower(#[trigger] r[i]));
    }
}

/// Joining the pieces of a split with the separator gives the text back.
proof fn lemma_join_split(s: Seq<char>, c: char)
    ensures
        join(split_on(s, c), seq![c]) == s,
    decreases s.len(),
{
    if s.len() > 0 {
        let t = s.drop_last();
        lemma_join_split(t, c);
        crate::text::lemma_split_on_nonempty(t, c);
        let ps = split_on(t, c);
        if s.last() == c {
            assert(ps.push(Seq::empty()).drop_last() == ps);
            assert(s == t + seq![c]);
        } else {
            let q = ps.update(ps.len() - 1, ps.last().push(s.last()));
            if ps.len() == 1 {
                assert(s == t.push(s.last()));
            } else {
                assert(q.drop_last() == ps.drop_last());
                assert(join(ps, seq![c]) == join(ps.drop_last(), seq![c]) + seq![c] + ps.last());
                assert(s == t.push(s.last()));
            }
        }
    }
}

/// Without a separator at the start or two in a row, every piece of a split
/// but the last is non-empty, and the last is empty only where the text is
/// empty or ends with the separator.
proof fn lemma_split_pieces_nonempty(s: Seq<char>, c: char)
    requires
        s.len() > 0 ==> s[0] != c,
        forall|i: int| 0 <= i < s.len() - 1 ==> !(#[trigger] s[i] == c && s[i + 1] == c),
    ensures
        forall|k: int|
            0 <= k < split_on(s, c).len() - 1 ==> (#[trigger] split_on(s, c)[k]).len() > 0,
        split_on(s, c).last().len() == 0 <==> (s.len() == 0 || s.last() == c),
    decreases s.len(),
{
    if s.len() > 0 {
        let t = s.drop_last();
        assert forall|i: int| 0 <= i < t.len() - 1 implies !(#[trigger] t[i] == c && t[i + 1] == c) by {
            assert(t[i] == s[i] && t[i + 1] == s[i + 1]);
        }
        if t.len() > 0 {
            assert(t[0] == s[0]);
        }
        lemma_split_pieces_nonempty(t, c);
        crate::text::lemma_split_on_nonempty(t, c);
        let ps = split_on(t, c);
        if s.last() == c {
            if t.len() > 0 {
                assert(s[t.len() - 1] == t.last());
            }
            assert forall|k: int| 0 <= k < ps.len() implies (#[trigger] ps.push(Seq::empty())[k]).len() > 0 by {
                assert(ps.push(Seq::empty())[k] == ps[k]);
            }
        } else {
            let q = ps.update(ps.len() - 1, ps.last().push(s.last()));
            assert forall|k: int| 0 <= k < q.len() - 1 implies (#[trigger] q[k]).len() > 0 by {
                assert(q[k] == ps[k]);
            }
        }
    }
}

/// Keeping the non-empty pieces of pieces that are all non-empty keeps them all.
proof fn lemma_nonempty_pieces_all(ps: Seq<Seq<char>>)
    requires
        forall|k: int| 0 <= k < ps.len() ==> (#[trigger] ps[k]).len() > 0,
    ensures
        nonempty_pieces(ps) == ps,
    decreases ps.len(),
{
    if ps.len() > 0 {
        let t = ps.drop_last();
        assert forall|k: int| 0 <= k < t.len() implies (#[trigger] t[k]).len() > 0 by {
            assert(t[k] == ps[k]);
        }
        lemma_nonempty_pieces_all(t);
        assert(ps[ps.len() - 1].len() > 0);
        assert(t.push(ps.last()) == ps);
    }
}

/// A slug is its own slug, so slugifying twice is slugifying once.
pub proof fn lemma_slug_idempotent(s: Seq<char>)
    requires
        is_slug(s),
    ensures
        slug_of(s) == s,
{
    reveal_strlit("-");
    let mapped = s.map_values(|c: char| slug_char(c));
    assert(mapped =~= s);
    lemma_split_pieces_nonempty(s, '-');
    let ps = split_on(s, '-');
    lemma_nonempty_pieces_all(ps);
    lemma_join_split(s, '-');
    assert("-"@ == seq!['-']);
}

/// Slugifying a slug gives it back.
pub proof fn lemma_slug_twice(name: Seq<char>)
    ensures
        slug_of(slug_of(name)) == slug_of(name),
{
    lemma_slug_shape(name);
    lemma_slug_idempotent(slug_of(name));
}

/// The file an import writes to is a plain relative path inside the
/// workspace, without backslashes: `write_request` accepts it and reports it
/// back unchanged.
pub proof fn lemma_import_path_plain(root: Seq<char>, name: Seq<char>, id: Seq<char>)
    requires
        crate::models::is_uuid_text(id),
    ensures
        crate::paths::joined(root, imported_path(name, id)) is Some,
        crate::paths::plain_relative(imported_path(name, id)),
        forall|i: int|
            0 <= i < imported_path(name, id).len() ==> imported_path(name, id)[i] != '\\',
{
    reveal_strlit("collections/imported/");
    reveal_strlit("collections");
    reveal_strlit("imported");
    reveal_strlit("-");
    reveal_strlit(".yaml");
    reveal_strlit(".");
    reveal_strlit("..");
    let p = imported_path(name, id);
    let slug = slug_of(name);
    lemma_slug_shape(name);
    let hex = first_chars(id, 8);
    assert(hex == id.take(8));
    assert forall|i: int| 0 <= i < 8 implies is_slug_word_char(#[trigger] hex[i]) by {
        assert(hex[i] == id[i]);
    }
    let b = slug + "-"@ + hex + ".yaml"@;
    let a1 = "collections"@;
    let a2 = "imported"@;
    let sep = seq!['/'];
    assert(p == a1 + sep + a2 + sep + b);
    let n = b.len() - 5;
    // Every character before `.yaml` is a word character, `-` or `/`.
    assert forall|i: int| 0 <= i < b.len() implies b[i] != '/' && b[i] != '\\' && (b[i] == '.'
        ==> i == n) by {
        if i < slug.len() {
            assert(b[i] == slug[i]);
        } else if i == slug.len() {
        } else if i < slug.len() + 9 {
            assert(b[i] == hex[i - slug.len() - 1]);
        } else {
            assert(b[i] == ".yaml"@[i - slug.len() - 9]);
        }
    }
    assert(b[n + 1] == 'y');
    crate::text::lemma_split_single(a1, '/');
    assert(a1 + sep == (a1 + sep).drop_last().push('/'));
    assert((a1 + sep).drop_last() == a1);
    let s1 = split_on(a1 + sep, '/');
    assert(s1 == seq![a1, Seq::<char>::empty()]);
    assert forall|i: int| 0 <= i < a2.len() implies a2[i] != '/' by {}
    crate::text::lemma_split_extend(a1 + sep, a2, '/');
    let s2 = split_on(a1 + sep + a2, '/');
    assert(s2 == seq![a1, a2]);
    assert((a1 + sep + a2 + sep).drop_last() == a1 + sep + a2);
    let s3 = split_on(a1 + sep + a2 + sep, '/');
    assert(s3 == seq![a1, a2, Seq::<char>::empty()]);
    crate::text::lemma_split_extend(a1 + sep + a2 + sep, b, '/');
    let s4 = split_on(p, '/');
    assert(s4 == seq![a1, a2, b]);
    assert forall|k: int| 0 <= k < s4.len() implies {
        let seg = #[trigger] s4[k];
        seg.len() > 0 && seg != "."@ && seg != ".."@
    } by {
        if k == 2 {
            assert(b.len() >= 14);
        }
    }
    // No `..` component: the only dot is the one of `.yaml`.
    let pre = a1 + sep + a2 + sep;
    assert(pre.len() == 21);
    assert forall|i: int| 0 <= i < p.len() implies p[i] != '\\' && (p[i] == '.' ==> i == 21
        + n) by {
        if i < 21 {
            assert(p[i] == pre[i]);
            assert(pre[i] == "collections/imported/"@[i]);
        } else {
            assert(p[i] == b[i - 21]);
        }
    }
    assert forall|i: int| !crate::paths::dotdot_at(p, i) by {
        if crate::paths::dotdot_at(p, i) {
            assert(p[i] == '.' && p[i + 1] == '.');
        }
    }
    assert(p[0] == 'c');
}

/// Each file of an import is written where its path says, and the import
/// reports that very path back: `written` is what `write_request` gives for
/// the file's path.
pub proof fn lemma_import_written_back(
    root: Seq<char>,
    file: ImportFile,
    request: HermesRequest,
    written: Result<crate::workspace::RequestWrite, AppError>,
)
    requires
        is_import_file(file, request),
        crate::workspace::request_write_outcome(root, file.path@, written),
    ensures
        written matches Ok(w) && w.relative matches Ok(s) && s@ == file.path@,
{
    let id = choose|id: Seq<char>|
        crate::models::is_uuid_text(id) && file.path@ == imported_path(request.name@, id);
    lemma_import_path_plain(root, request.name@, id);
}

/// An operation with a string `operationId` is imported under that name,
/// whatever its `summary` says.
pub proof fn lemma_operation_id_names(
    base: Seq<char>,
    path: Seq<char>,
    method: HttpMethod,
    op: YamlValue,
    id: Seq<char>,
)
    requires
        opt_yaml_str(yaml_get(op, "operationId"@)) == Some(id),
    ensures
        operation_request(base, path, method, op).name == id,
{
}

/// Every request imported from the operations of a path comes from one of
/// them: its key names the request's method, and the request is named by the
/// operation's `operationId` where it has a string one.
pub proof fn lemma_path_operation_names(base: Seq<char>, path: Seq<char>, ops: Seq<(YamlValue, YamlValue)>)
    ensures
        forall|j: int|
            #![trigger path_operations(base, path, ops)[j]]
            0 <= j < path_operations(base, path, ops).len() ==> exists|k: int|
                0 <= k < ops.len() && #[trigger] yaml_str(ops[k].0) is Some && method_from_name(
                    yaml_str(ops[k].0)->0,
                ) == Some(path_operations(base, path, ops)[j].method) && (opt_yaml_str(
                    yaml_get(ops[k].1, "operationId"@),
                ) matches Some(s) ==> path_operations(base, path, ops)[j].name == s),
    decreases ops.len(),
{
    if ops.len() > 0 {
        let t = ops.drop_last();
        lemma_path_operation_names(base, path, t);
        let prev = path_operations(base, path, t);
        let rs = path_operations(base, path, ops);
        assert forall|j: int| #![trigger rs[j]] 0 <= j < rs.len() implies exists|k: int|
            0 <= k < ops.len() && #[trigger] yaml_str(ops[k].0) is Some && method_from_name(
                yaml_str(ops[k].0)->0,
            ) == Some(rs[j].method) && (opt_yaml_str(yaml_get(ops[k].1, "operationId"@)) matches Some(
                s,
            ) ==> rs[j].name == s) by {
            if j < prev.len() {
                assert(rs[j] == prev[j]);
                let k = choose|k: int|
                    0 <= k < t.len() && #[trigger] yaml_str(t[k].0) is Some && method_from_name(
                        yaml_str(t[k].0)->0,
                    ) == Some(prev[j].method) && (opt_yaml_str(yaml_get(t[k].1, "operationId"@)) matches Some(
                        s,
                    ) ==> prev[j].name == s);
                assert(ops[k] == t[k]);
            } else {
                let k = ops.len() - 1;
                assert(ops[k] == ops.last());
            }
        }
    }
}

/// After `-X`/`--request` with a method name, the method stays the one given
/// whatever follows (data flags included) as long as no later word asks for
/// another method.
pub proof fn lemma_curl_method_kept(words: Seq<Seq<char>>, i: int, st: CurlScan, m: HttpMethod)
    requires
        0 <= i,
        i + 1 < words.len(),
        words[i] == "-X"@ || words[i] == "--request"@,
        method_from_name(words[i + 1]) == Some(m),
        forall|j: int| i + 1 < j < words.len() ==> words[j] != "-X"@ && words[j] != "--request"@,
    ensures
        curl_scan(words, i, st).method == Some(m),
{
    reveal_strlit("curl");
    reveal_strlit("-X");
    reveal_strlit("--request");
    assert("curl"@.len() == 4 && "-X"@.len() == 2 && "--request"@.len() == 9);
    assert(words[i] != "curl"@);
    lemma_curl_scan_keeps(words, i + 2, CurlScan { method: Some(m), ..st }, m);
}

proof fn lemma_curl_scan_keeps(words: Seq<Seq<char>>, i: int, st: CurlScan, m: HttpMethod)
    requires
        st.method == Some(m),
        forall|j: int| i <= j < words.len() ==> words[j] != "-X"@ && words[j] != "--request"@,
    ensures
        curl_scan(words, i, st).method == Some(m),
    decreases words.len() + 1 - i,
{
    if 0 <= i < words.len() {
        let w = words[i];
        let next: Option<Seq<char>> = if i + 1 < words.len() {
            Some(words[i + 1])
        } else {
            None
        };
        if w == "curl"@ {
            lemma_curl_scan_keeps(words, i + 1, st, m);
        } else if w == "-H"@ || w == "--header"@ {
            let hs = match next {
                Some(n) => match header_arg(n) {
                    Some(h) => st.headers.push(h),
                    None => st.headers,
                },
                None => st.headers,
            };
            lemma_curl_scan_keeps(words, i + 2, CurlScan { headers: hs, ..st }, m);
        } else if is_data_flag(w) {
            lemma_curl_scan_keeps(words, i + 2, CurlScan { method: st.method, body: next, ..st }, m);
        } else if is_prefix("http://"@, w) || is_prefix("https://"@, w) {
            lemma_curl_scan_keeps(words, i + 1, CurlScan { url: w, ..st }, m);
        } else {
            lemma_curl_scan_keeps(words, i + 1, st, m);
        }
    }
}

/// A cURL command whose only method flag names a method, followed by a URL
/// and a data flag, is imported with that method, not POST.
pub proof fn lemma_curl_explicit_method(mw: Seq<char>, m: HttpMethod, url: Seq<char>, data: Seq<char>)
    requires
        method_from_name(mw) == Some(m),
        mw != "-X"@ && mw != "--request"@,
        url != "-X"@ && url != "--request"@,
        data != "-X"@ && data != "--request"@,
    ensures
        curl_request_shape(
            curl_scan(seq!["curl"@, "-X"@, mw, url, "-d"@, data], 0, curl_start()),
        ).method == m,
{
    reveal_strlit("curl");
    reveal_strlit("-X");
    reveal_strlit("-d");
    reveal_strlit("--request");
    let words = seq!["curl"@, "-X"@, mw, url, "-d"@, data];
    assert("-d"@[1] == 'd' && "-X"@[1] == 'X' && "--request"@.len() == 9 && "-d"@.len() == 2);
    assert("-d"@ != "-X"@ && "-d"@ != "--request"@);
    assert("curl"@.len() == 4 && "curl"@ != "-X"@ && "curl"@ != "--request"@);
    assert(forall|j: int| 2 < j < words.len() ==> words[j] != "-X"@ && words[j] != "--request"@);
    lemma_curl_method_kept(words, 1, curl_start(), m);
    assert(curl_scan(words, 0, curl_start()) == curl_scan(words, 1, curl_start()));
}

/// A Postman header with a string `key` is imported as a row with that key,
/// enabled exactly when its `disabled` member is not `true`; one without a
/// string key is left out.
pub proof fn lemma_postman_header_enabled(h: JsonValue)
    ensures
        json_str(json_get(h, "key"@)) matches Some(k) ==> (postman_header(h) matches Some(r)
            && r.key == k && (r.enabled <==> json_bool(json_get(h, "disabled"@)) != Some(true))),
        json_str(json_get(h, "key"@)) is None ==> postman_header(h) is None,
{
}

/// Every header row of a Postman request comes from one of its headers with
/// that key, and is enabled exactly when that header is not disabled.
pub proof fn lemma_postman_headers_enabled(hs: Seq<JsonValue>)
    ensures
        forall|j: int|
            #![trigger postman_headers(hs)[j]]
            0 <= j < postman_headers(hs).len() ==> exists|k: int|
                0 <= k < hs.len() && json_str(json_get(#[trigger] hs[k], "key"@)) == Some(
                    postman_headers(hs)[j].key,
                ) && (postman_headers(hs)[j].enabled <==> json_bool(json_get(hs[k], "disabled"@))
                    != Some(true)),
    decreases hs.len(),
{
    if hs.len() > 0 {
        let t = hs.drop_last();
        lemma_postman_headers_enabled(t);
        lemma_postman_header_enabled(hs.last());
        let prev = postman_headers(t);
        let rs = postman_headers(hs);
        assert forall|j: int| #![trigger rs[j]] 0 <= j < rs.len() implies exists|k: int|
            0 <= k < hs.len() && json_str(json_get(#[trigger] hs[k], "key"@)) == Some(rs[j].key) && (
            rs[j].enabled <==> json_bool(json_get(hs[k], "disabled"@)) != Some(true)) by {
            if j < prev.len() {
                assert(rs[j] == prev[j]);
                let k = choose|k: int|
                    0 <= k < t.len() && json_str(json_get(#[trigger] t[k], "key"@)) == Some(
                        prev[j].key,
                    ) && (prev[j].enabled <==> json_bool(json_get(t[k], "disabled"@)) != Some(true));
                assert(hs[k] == t[k]);
            } else {
                assert(hs[hs.len() - 1] == hs.last());
            }
        }
    }
}

} // verus!
