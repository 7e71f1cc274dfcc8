//! `{{ name }}` placeholders in request text and their replacement by the
//! values of an environment.
//!
//! Resolving a text takes three steps, with reads of the environment file
//! and of the keychain between them: `start_resolution` decides whether an
//! environment is needed, `variable_sources` says which rows of it are used
//! and which of those are kept in the keychain, and `substitute` builds the
//! result from the collected values.
use vstd::prelude::*;
use crate::error::{AppError, is_detailed_error, is_user_error};
use crate::models::{HermesEnvironment, KeyValueRow};
use crate::order::{sorted_set, strictly_sorted};
use crate::text::{
    append, blank, concat, is_ascii_alphanumeric, is_blank, is_ws, join, join_strings, owned, views,
};

verus! {

/// A placeholder: `{{`, optional whitespace, a name, optional whitespace, `}}`.
pub const VARIABLE_PATTERN: &'static str = r"\{\{\s*([A-Za-z0-9_.-]+)\s*\}\}";

pub open spec fn variable_pattern() -> Seq<char> {
    VARIABLE_PATTERN@
}

pub open spec fn is_name_char(c: char) -> bool {
    is_ascii_alphanumeric(c) || c == '_' || c == '.' || c == '-'
}

pub open spec fn all_ws(s: Seq<char>) -> bool {
    forall|i: int| 0 <= i < s.len() ==> is_ws(#[trigger] s[i])
}

/// `whole` is a placeholder text whose name is `name`.
pub open spec fn is_placeholder(whole: Seq<char>, name: Seq<char>) -> bool {
    &&& name.len() > 0
    &&& forall|i: int| 0 <= i < name.len() ==> is_name_char(#[trigger] name[i])
    &&& exists|a: Seq<char>, b: Seq<char>|
        all_ws(a) && all_ws(b) && whole == "{{"@ + a + name + b + "}}"@
}

#[verifier::external_type_specification]
#[verifier::external_body]
pub struct ExRegex(regex::Regex);

/// A compiled regular expression, with the pattern it was compiled from.
pub struct Pattern {
    source: String,
    re: regex::Regex,
}

impl Pattern {
    /// The pattern this expression was compiled from.
    pub closed spec fn source(&self) -> Seq<char> {
        self.source@
    }
}

/// The matches of a regular expression in a text, left to right, each as its
/// whole matched text and the text of its first group, empty where the group
/// took no part (`Regex::captures_iter`).
pub uninterp spec fn regex_captures(pattern: Seq<char>, haystack: Seq<char>) -> Seq<
    (Seq<char>, Seq<char>),
>;

/// The pieces of a text between the matches of a regular expression
/// (`Regex::split`).
pub uninterp spec fn regex_split(pattern: Seq<char>, haystack: Seq<char>) -> Seq<Seq<char>>;

pub open spec fn pair_views(v: Seq<(String, String)>) -> Seq<(Seq<char>, Seq<char>)> {
    v.map_values(|p: (String, String)| (p.0@, p.1@))
}

pub open spec fn wholes(ms: Seq<(Seq<char>, Seq<char>)>) -> Seq<Seq<char>> {
    ms.map_values(|m: (Seq<char>, Seq<char>)| m.0)
}

/// `gaps[0] + fills[0] + gaps[1] + ... + fills[n-1] + gaps[n]`.
pub open spec fn interleave(gaps: Seq<Seq<char>>, fills: Seq<Seq<char>>) -> Seq<char>
    decreases fills.len(),
{
    if fills.len() == 0 || gaps.len() == 0 {
        if gaps.len() > 0 {
            gaps[0]
        } else {
            Seq::empty()
        }
    } else {
        interleave(gaps.drop_last(), fills.drop_last()) + fills.last() + gaps.last()
    }
}

/// `regex::Regex::new`. Claimed: a compiled expression remembers its pattern,
/// and the placeholder pattern compiles.
#[verifier::external_body]
fn compile(pattern: &str) -> (res: Option<Pattern>)
    ensures
        res matches Some(p) ==> p.source() == pattern@,
        pattern@ == variable_pattern() ==> res is Some,
{
    match regex::Regex::new(pattern) {
        Ok(re) => Some(Pattern { source: pattern.to_string(), re }),
        Err(_) => None,
    }
}

/// `Regex::captures_iter`, each match as its whole text and the text of its
/// first group. Claimed: the result is `regex_captures` of the pattern and
/// text; with the placeholder pattern every match has the placeholder form.
#[verifier::external_body]
fn captures_of(p: &Pattern, haystack: &str) -> (res: Vec<(String, String)>)
    ensures
        pair_views(res@) == regex_captures(p.source(), haystack@),
        p.source() == variable_pattern() ==> forall|i: int|
            0 <= i < res.len() ==> is_placeholder(#[trigger] res@[i].0@, res@[i].1@),
{
    p.re.captures_iter(haystack).map(
        |c| (c[0].to_string(), c.get(1).map_or(String::new(), |m| m.as_str().to_string())),
    ).collect()
}

/// The pieces, one more than the placeholders, with the placeholders' texts
/// between them, make up `haystack`.
pub open spec fn pieces_fit(pieces: Seq<Seq<char>>, haystack: Seq<char>) -> bool {
    &&& pieces.len() == regex_captures(variable_pattern(), haystack).len() + 1
    &&& interleave(pieces, wholes(regex_captures(variable_pattern(), haystack))) == haystack
}

/// `Regex::split`. Claimed: the result is `regex_split` of the pattern and
/// text; with the placeholder pattern there is one piece more than there are
/// matches, and the pieces with the matched texts between them make up the
/// text again.
#[verifier::external_body]
fn split_of(p: &Pattern, haystack: &str) -> (res: Vec<String>)
    ensures
        views(res@) == regex_split(p.source(), haystack@),
        p.source() == variable_pattern() ==> pieces_fit(views(res@), haystack@),
{
    p.re.split(haystack).map(|s| s.to_string()).collect()
}

/// The placeholders of a text, as (whole text, name) pairs.
pub open spec fn matches_of(text: Seq<char>) -> Seq<(Seq<char>, Seq<char>)> {
    regex_captures(variable_pattern(), text)
}

/// The text between the placeholders of a text.
pub open spec fn pieces_of(text: Seq<char>) -> Seq<Seq<char>> {
    regex_split(variable_pattern(), text)
}

/// The placeholders of a text, left to right.
pub fn variable_matches(text: &str) -> (res: Vec<(String, String)>)
    ensures
        pair_views(res@) == matches_of(text@),
        forall|i: int| 0 <= i < res.len() ==> is_placeholder(#[trigger] res@[i].0@, res@[i].1@),
{
    match compile(VARIABLE_PATTERN) {
        Some(p) => captures_of(&p, text),
        None => Vec::new(),
    }
}

/// The text between the placeholders of a text.
pub fn text_pieces(text: &str) -> (res: Vec<String>)
    ensures
        views(res@) == pieces_of(text@),
        res.len() == matches_of(text@).len() + 1,
        interleave(views(res@), wholes(matches_of(text@))) == text@,
{
    match compile(VARIABLE_PATTERN) {
        Some(p) => split_of(&p, text),
        None => Vec::new(),
    }
}

/// Whether some name of `ms` equals `name`.
pub open spec fn names_contain(ms: Seq<(Seq<char>, Seq<char>)>, name: Seq<char>) -> bool {
    exists|i: int| 0 <= i < ms.len() && (#[trigger] ms[i]).1 == name
}

/// What to do with a text before any environment is read.
#[derive(Debug)]
pub enum ResolveStart {
    /// The text has no placeholder; it is its own result.
    Resolved(String),
    /// The text has placeholders but no environment is selected.
    Failed(AppError),
    /// The text has placeholders; this environment is needed.
    NeedsEnvironment(String),
}

/// First step of resolving `text`: a text without placeholders is returned
/// as it is; otherwise the selected environment is needed, and its absence
/// is an error.
pub fn start_resolution(environment_id: &Option<String>, text: &str) -> (res: ResolveStart)
    ensures
        matches_of(text@).len() == 0 ==> (res matches ResolveStart::Resolved(t) && t@ == text@),
        matches_of(text@).len() > 0 && environment_id is None ==> (res matches ResolveStart::Failed(e)
            && is_user_error(
            e,
            "missing_environment"@,
            "This request contains variables but no environment is selected."@,
        )),
        matches_of(text@).len() > 0 && environment_id is Some ==> (
        res matches ResolveStart::NeedsEnvironment(id) && id@ == environment_id->0@),
{
    let ms = variable_matches(text);
    if ms.len() == 0 {
        return ResolveStart::Resolved(owned(text));
    }
    match environment_id {
        None => ResolveStart::Failed(
            AppError::user(
                "missing_environment",
                owned("This request contains variables but no environment is selected."),
            ),
        ),
        Some(id) => ResolveStart::NeedsEnvironment(owned(id.as_str())),
    }
}

/// Where the value of a used environment row comes from.
#[derive(Debug)]
pub struct VariableSource {
    pub key: String,
    /// The row's value, or `None` when the value is a secret kept in the keychain.
    pub value: Option<String>,
}

/// The rows of an environment that a text uses: enabled, with a non-blank
/// key that is the name of one of the text's placeholders.
pub open spec fn is_used_row(r: KeyValueRow, ms: Seq<(Seq<char>, Seq<char>)>) -> bool {
    r.enabled && !is_blank(r.key@) && names_contain(ms, r.key@)
}

pub open spec fn used_rows(rows: Seq<KeyValueRow>, ms: Seq<(Seq<char>, Seq<char>)>) -> Seq<
    KeyValueRow,
>
    decreases rows.len(),
{
    if rows.len() == 0 {
        Seq::empty()
    } else if is_used_row(rows.last(), ms) {
        used_rows(rows.drop_last(), ms).push(rows.last())
    } else {
        used_rows(rows.drop_last(), ms)
    }
}

/// The source of a row's value: secrets come from the keychain.
pub open spec fn source_of(r: KeyValueRow, s: VariableSource) -> bool {
    &&& s.key@ == r.key@
    &&& if r.secret {
        s.value is None
    } else {
        s.value matches Some(v) && v@ == r.value@
    }
}

fn names_contain_exec(ms: &Vec<(String, String)>, name: &str) -> (res: bool)
    ensures
        res == names_contain(pair_views(ms@), name@),
{
    let mut i: usize = 0;
    while i < ms.len()
        invariant
            i <= ms.len(),
            forall|j: int| 0 <= j < i ==> pair_views(ms@)[j].1 != name@,
        decreases ms.len() - i,
    {
        if crate::text::str_eq(ms[i].1.as_str(), name) {
            assert(pair_views(ms@)[i as int].1 == name@);
            return true;
        }
        i += 1;
    }
    false
}

/// Second step: the rows of `environment` that `text` uses, in order, each
/// with its value or, for a secret, a note that the keychain holds it.
pub fn variable_sources(environment: &HermesEnvironment, text: &str) -> (res: Vec<
    VariableSource,
>)
    ensures
        res.len() == used_rows(environment.values@, matches_of(text@)).len(),
        forall|i: int|
            0 <= i < res.len() ==> source_of(
                used_rows(environment.values@, matches_of(text@))[i],
                #[trigger] res@[i],
            ),
{
    let ms = variable_matches(text);
    let ghost m = matches_of(text@);
    let rows = &environment.values;
    let mut res: Vec<VariableSource> = Vec::new();
    let mut i: usize = 0;
    while i < rows.len()
        invariant
            i <= rows.len(),
            rows@ == environment.values@,
            pair_views(ms@) == m,
            res.len() == used_rows(rows@.subrange(0, i as int), m).len(),
            forall|j: int|
                0 <= j < res.len() ==> source_of(
                    used_rows(rows@.subrange(0, i as int), m)[j],
                    #[trigger] res@[j],
                ),
        decreases rows.len() - i,
    {
        let row = &rows[i];
        proof {
            assert(rows@.subrange(0, i + 1).drop_last() == rows@.subrange(0, i as int));
            assert(rows@.subrange(0, i + 1).last() == rows@[i as int]);
        }
        if row.enabled && !blank(row.key.as_str()) && names_contain_exec(&ms, row.key.as_str()) {
            let value = if row.secret {
                None
            } else {
                Some(owned(row.value.as_str()))
            };
            res.push(VariableSource { key: owned(row.key.as_str()), value });
        }
        i += 1;
    }
    assert(rows@.subrange(0, rows@.len() as int) == rows@);
    res
}

/// The error for a secret row whose value the keychain could not give.
pub fn missing_secret(key: &str, detail: String) -> (res: AppError)
    ensures
        is_detailed_error(
            res,
            "missing_secret"@,
            "Secret '"@ + key@ + "' is referenced but not available in the OS keychain."@,
            detail@,
        ),
{
    let m1 = concat("Secret '", key);
    let message = concat(m1.as_str(), "' is referenced but not available in the OS keychain.");
    AppError::with_detail("missing_secret", message, detail)
}

/// The value bound to `key`; a later binding wins over an earlier one.
pub open spec fn lookup(values: Seq<(Seq<char>, Seq<char>)>, key: Seq<char>) -> Option<Seq<char>>
    decreases values.len(),
{
    if values.len() == 0 {
        None
    } else if values.last().0 == key {
        Some(values.last().1)
    } else {
        lookup(values.drop_last(), key)
    }
}

/// The names of the placeholders that have no value, in order, with repetitions.
pub open spec fn missing_names(
    ms: Seq<(Seq<char>, Seq<char>)>,
    values: Seq<(Seq<char>, Seq<char>)>,
) -> Seq<Seq<char>>
    decreases ms.len(),
{
    if ms.len() == 0 {
        Seq::empty()
    } else if lookup(values, ms.last().1) is None {
        missing_names(ms.drop_last(), values).push(ms.last().1)
    } else {
        missing_names(ms.drop_last(), values)
    }
}

/// What each placeholder is replaced by: its value, or itself when it has none.
pub open spec fn replacements(
    ms: Seq<(Seq<char>, Seq<char>)>,
    values: Seq<(Seq<char>, Seq<char>)>,
) -> Seq<Seq<char>> {
    ms.map_values(
        |m: (Seq<char>, Seq<char>)|
            match lookup(values, m.1) {
                Some(v) => v,
                None => m.0,
            },
    )
}

/// `u` is the sorted list of the distinct strings of `s`.
pub open spec fn is_sorted_set_of(u: Seq<Seq<char>>, s: Seq<Seq<char>>) -> bool {
    strictly_sorted(u) && forall|x: Seq<char>| u.contains(x) <==> s.contains(x)
}

fn lookup_exec<'a>(values: &'a Vec<(String, String)>, key: &str) -> (res: Option<&'a String>)
    ensures
        match res {
            Some(v) => lookup(pair_views(values@), key@) == Some(v@),
            None => lookup(pair_views(values@), key@) is None,
        },
{
    let mut i: usize = values.len();
    assert(values@.subrange(0, values@.len() as int) == values@);
    while i > 0
        invariant
            i <= values.len(),
            lookup(pair_views(values@), key@) == lookup(pair_views(values@.subrange(0, i as int)), key@),
        decreases i,
    {
        proof {
            assert(pair_views(values@.subrange(0, i as int)).drop_last() == pair_views(
                values@.subrange(0, i - 1),
            ));
        }
        if crate::text::str_eq(values[i - 1].0.as_str(), key) {
            return Some(&values[i - 1].1);
        }
        i -= 1;
    }
    None
}

/// Last step: replaces every placeholder of `text` by its value in `values`
/// (a later pair wins over an earlier one with the same key). If some
/// placeholders have no value, the error names them, sorted and without
/// repetition.
pub fn substitute(text: &str, values: &Vec<(String, String)>) -> (res: Result<String, AppError>)
    ensures
        missing_names(matches_of(text@), pair_views(values@)).len() == 0 ==> (res matches Ok(s)
            && s@ == interleave(
            pieces_of(text@),
            replacements(matches_of(text@), pair_views(values@)),
        )),
        missing_names(matches_of(text@), pair_views(values@)).len() > 0 ==> (res matches Err(e)
            && exists|u: Seq<Seq<char>>|
            is_sorted_set_of(u, missing_names(matches_of(text@), pair_views(values@)))
                && is_user_error(
                e,
                "unresolved_variable"@,
                "Unresolved variables: "@ + join(u, ", "@),
            )),
{
    let ms = variable_matches(text);
    let gaps = text_pieces(text);
    let ghost m = matches_of(text@);
    let ghost vals = pair_views(values@);
    let mut out = owned(gaps[0].as_str());
    let mut missing: Vec<String> = Vec::new();
    let mut i: usize = 0;
    while i < ms.len()
        invariant
            i <= ms.len(),
            pair_views(ms@) == m,
            gaps.len() == ms.len() + 1,
            vals == pair_views(values@),
            views(missing@) == missing_names(m.subrange(0, i as int), vals),
            out@ == interleave(
                views(gaps@).subrange(0, i + 1),
                replacements(m.subrange(0, i as int), vals),
            ),
        decreases ms.len() - i,
    {
        proof {
            assert(m.subrange(0, i + 1).drop_last() == m.subrange(0, i as int));
            assert(m.subrange(0, i + 1).last() == m[i as int]);
            assert(views(gaps@).subrange(0, i + 2).drop_last() == views(gaps@).subrange(0, i + 1));
            assert(replacements(m.subrange(0, i + 1), vals).drop_last() == replacements(
                m.subrange(0, i as int),
                vals,
            ));
        }
        match lookup_exec(values, ms[i].1.as_str()) {
            Some(v) => {
                append(&mut out, v.as_str());
            },
            None => {
                missing.push(owned(ms[i].1.as_str()));
                append(&mut out, ms[i].0.as_str());
                assert(views(missing@) == views(missing@).drop_last().push(m[i as int].1));
            },
        }
        append(&mut out, gaps[i + 1].as_str());
        i += 1;
    }
    proof {
        assert(m.subrange(0, m.len() as int) == m);
        assert(views(gaps@).subrange(0, gaps.len() as int) == views(gaps@));
    }
    if missing.len() > 0 {
        let sorted = sorted_set(&missing);
        let list = join_strings(&sorted, ", ");
        let message = concat("Unresolved variables: ", list.as_str());
        assert(views(missing@) == missing_names(m, vals));
        assert(is_sorted_set_of(views(sorted@), missing_names(m, vals)));
        return Err(AppError::user("unresolved_variable", message));
    }
    Ok(out)
}

} // verus!
