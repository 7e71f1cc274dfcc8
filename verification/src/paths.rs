//! Paths inside a workspace.
//!
//! Paths are `/`-separated strings, joined the way `PathBuf::join` joins them
//! on Unix.
use vstd::prelude::*;
use crate::error::{AppError, is_user_error, opt_view};
use crate::text::{
    append, chars_of, concat, ends_with, has_prefix_at, is_suffix, owned, push_char, split_on,
    string_of, string_of_range,
    strip_prefix_all, trim, trim_class, trim_in, trim_ws, CharClass,
};

verus! {

pub const WORKSPACE_FILE: &'static str = "hermes.workspace.yaml";

pub const COLLECTIONS_DIR: &'static str = "collections";

pub const ENVIRONMENTS_DIR: &'static str = "environments";

pub const STATE_DIR: &'static str = ".hermes";

/// `base.join(rel)`: an absolute `rel` replaces `base`; otherwise a separator
/// goes between them unless `base` is empty or already ends with one.
pub open spec fn join_path(base: Seq<char>, rel: Seq<char>) -> Seq<char> {
    if rel.len() > 0 && rel[0] == '/' {
        rel
    } else if base.len() == 0 || base.last() == '/' {
        base + rel
    } else {
        base + seq!['/'] + rel
    }
}

/// `p` has a `..` component: two dots between separators or the ends of `p`.
pub open spec fn has_parent_component(p: Seq<char>) -> bool {
    exists|i: int| #[trigger] dotdot_at(p, i)
}

pub open spec fn dotdot_at(p: Seq<char>, i: int) -> bool {
    &&& 0 <= i
    &&& i + 2 <= p.len()
    &&& p[i] == '.'
    &&& p[i + 1] == '.'
    &&& (i == 0 || p[i - 1] == '/')
    &&& (i + 2 == p.len() || p[i + 2] == '/')
}

/// The file name has the extension `yaml` or `yml`.
pub open spec fn has_yaml_extension(name: Seq<char>) -> bool {
    ||| name.len() > 5 && is_suffix(".yaml"@, name)
    ||| name.len() > 4 && is_suffix(".yml"@, name)
}

/// `base.join(rel)`.
pub fn join(base: &str, rel: &str) -> (res: String)
    ensures
        res@ == join_path(base@, rel@),
{
    let b = chars_of(base);
    let r = chars_of(rel);
    if r.len() > 0 && r[0] == '/' {
        owned(rel)
    } else if b.len() == 0 || b[b.len() - 1] == '/' {
        concat(base, rel)
    } else {
        let mut res = owned(base);
        push_char(&mut res, '/');
        append(&mut res, rel);
        res
    }
}

/// Whether `p` has a `..` component.
pub fn parent_component(p: &Vec<char>) -> (res: bool)
    ensures
        res == has_parent_component(p@),
{
    let mut i: usize = 0;
    while i < p.len() && p.len() - i >= 2
        invariant
            forall|j: int| 0 <= j < i ==> !dotdot_at(p@, j),
        decreases p.len() - i,
    {
        if p[i] == '.' && p[i + 1] == '.' && (i == 0 || p[i - 1] == '/') && (i + 2 == p.len()
            || p[i + 2] == '/') {
            assert(dotdot_at(p@, i as int));
            return true;
        }
        i += 1;
    }
    assert forall|j: int| !dotdot_at(p@, j) by {
        if j >= i as int {
        }
    }
    false
}

/// Joins a workspace-relative path to the workspace root, refusing a path that
/// is absolute or has a `..` component.
pub fn safe_join(root: &str, relative: &str) -> (res: Result<String, AppError>)
    ensures
        relative@.len() > 0 && relative@[0] == '/' ==> (res matches Err(e) && is_user_error(
            e,
            "invalid_path"@,
            "Workspace paths must be relative."@,
        )),
        !(relative@.len() > 0 && relative@[0] == '/') && has_parent_component(relative@)
            ==> (res matches Err(e) && is_user_error(
            e,
            "invalid_path"@,
            "Workspace path escapes the workspace root."@,
        )),
        !(relative@.len() > 0 && relative@[0] == '/') && !has_parent_component(relative@)
            ==> (res matches Ok(p) && p@ == join_path(root@, relative@)),
{
    let r = chars_of(relative);
    if r.len() > 0 && r[0] == '/' {
        return Err(AppError::user("invalid_path", owned("Workspace paths must be relative.")));
    }
    if parent_component(&r) {
        return Err(
            AppError::user("invalid_path", owned("Workspace path escapes the workspace root.")),
        );
    }
    Ok(join(root, relative))
}

/// Whether a file name has the extension `yaml` or `yml`.
pub fn is_yaml(name: &str) -> (res: bool)
    ensures
        res == has_yaml_extension(name@),
{
    let cs = chars_of(name);
    (cs.len() > 5 && ends_with(name, ".yaml")) || (cs.len() > 4 && ends_with(name, ".yml"))
}

/// A group path as the user typed it, reduced to its path below `collections/`.
pub open spec fn normalized_group(s: Seq<char>) -> Seq<char> {
    trim_class(
        strip_prefix_all(trim_class(trim_ws(s), CharClass::Only('/')), "collections/"@),
        CharClass::Only('/'),
    )
}

/// `s.trim_start_matches(p)`.
pub fn strip_prefixes(s: &str, p: &str) -> (res: String)
    ensures
        res@ == strip_prefix_all(s@, p@),
{
    let cs = chars_of(s);
    let ps = chars_of(p);
    if ps.len() == 0 {
        return owned(s);
    }
    let mut i: usize = 0;
    assert(cs@.subrange(0, cs@.len() as int) == cs@);
    while has_prefix_at(&cs, i, &ps)
        invariant
            i <= cs.len(),
            ps.len() > 0,
            cs@ == s@,
            ps@ == p@,
            strip_prefix_all(s@, p@) == strip_prefix_all(cs@.subrange(i as int, cs.len() as int), p@),
        decreases cs.len() - i,
    {
        let ghost t = cs@.subrange(i as int, cs.len() as int);
        assert(t.subrange(ps.len() as int, t.len() as int) == cs@.subrange(i + ps.len(), cs.len() as int));
        i += ps.len();
    }
    string_of_range(&cs, i, cs.len())
}

/// Normalizes a group path: trims whitespace and slashes and drops a leading
/// `collections/`; an empty result is refused.
pub fn normalize_group_path(group_path: &str) -> (res: Result<String, AppError>)
    ensures
        normalized_group(group_path@).len() == 0 ==> (res matches Err(e) && is_user_error(
            e,
            "invalid_group"@,
            "Group name cannot be empty."@,
        )),
        normalized_group(group_path@).len() > 0 ==> (res matches Ok(g) && g@ == normalized_group(
            group_path@,
        )),
{
    let a = trim(group_path);
    let b = trim_in(a.as_str(), CharClass::Only('/'));
    let c = strip_prefixes(b.as_str(), "collections/");
    let d = trim_in(c.as_str(), CharClass::Only('/'));
    if blank_len(d.as_str()) {
        return Err(AppError::user("invalid_group", owned("Group name cannot be empty.")));
    }
    Ok(d)
}

fn blank_len(s: &str) -> (res: bool)
    ensures
        res == (s@.len() == 0),
{
    chars_of(s).len() == 0
}

/// `collections/{group}`.
pub open spec fn group_rel(group: Seq<char>) -> Seq<char> {
    "collections/"@ + group
}

pub fn group_relative(group: &str) -> (res: String)
    ensures
        res@ == group_rel(group@),
{
    concat("collections/", group)
}

} // verus!


verus! {

/// `p` is a plain relative path: non-empty segments between single `/`,
/// none of them `.` or `..`.
pub open spec fn plain_relative(p: Seq<char>) -> bool {
    forall|i: int|
        0 <= i < split_on(p, '/').len() ==> {
            let seg = #[trigger] split_on(p, '/')[i];
            seg.len() > 0 && seg != "."@ && seg != ".."@
        }
}

/// `Path::strip_prefix` (the rest of `path` after the components of `base`,
/// as text), `None` when `base` is not a prefix of `path`.
pub uninterp spec fn std_strip_prefix(path: Seq<char>, base: Seq<char>) -> Option<Seq<char>>;

/// `Path::parent`, as text.
pub uninterp spec fn std_parent(path: Seq<char>) -> Option<Seq<char>>;

/// `Path::file_stem`, as text.
pub uninterp spec fn std_file_stem(path: Seq<char>) -> Option<Seq<char>>;

/// `Path::extension`, as text.
pub uninterp spec fn std_extension(path: Seq<char>) -> Option<Seq<char>>;

/// When `path` is a plain relative path joined onto `base`, `stripped` is that
/// relative path.
pub open spec fn restores_plain_relative(
    path: Seq<char>,
    base: Seq<char>,
    stripped: Option<Seq<char>>,
) -> bool {
    forall|r: Seq<char>| plain_relative(r) && path == join_path(base, r) ==> stripped == Some(r)
}

/// Calls `Path::strip_prefix`. Contract: the result is `std_strip_prefix`;
/// a plain relative path joined onto `base` is given back by stripping `base`.
#[verifier::external_body]
fn strip_base(path: &str, base: &str) -> (res: Option<String>)
    ensures
        opt_view(res) == std_strip_prefix(path@, base@),
        restores_plain_relative(path@, base@, opt_view(res)),
{
    std::path::Path::new(path).strip_prefix(base).ok().map(|p| p.to_string_lossy().into_owned())
}

/// Calls `Path::parent`. Contract: the result is `std_parent` of the path.
#[verifier::external_body]
pub(crate) fn parent_of(path: &str) -> (res: Option<String>)
    ensures
        opt_view(res) == std_parent(path@),
{
    std::path::Path::new(path).parent().map(|p| p.to_string_lossy().into_owned())
}

/// Calls `Path::file_stem`. Contract: the result is `std_file_stem` of the path.
#[verifier::external_body]
pub(crate) fn file_stem_of(path: &str) -> (res: Option<String>)
    ensures
        opt_view(res) == std_file_stem(path@),
{
    std::path::Path::new(path).file_stem().and_then(|s| s.to_str()).map(|s| s.to_string())
}

/// Calls `Path::extension`. Contract: the result is `std_extension` of the path.
#[verifier::external_body]
pub(crate) fn extension_of(path: &str) -> (res: Option<String>)
    ensures
        opt_view(res) == std_extension(path@),
{
    std::path::Path::new(path).extension().and_then(|s| s.to_str()).map(|s| s.to_string())
}

/// The rest of `path` after `root`, as `Path::strip_prefix` gives it: a plain
/// relative path joined onto `root` comes back as itself.
pub open spec fn workspace_relative(path: Seq<char>, root: Seq<char>) -> Option<Seq<char>> {
    if exists|r: Seq<char>| is_plain_under(path, root, r) {
        Some(choose|r: Seq<char>| is_plain_under(path, root, r))
    } else {
        std_strip_prefix(path, root)
    }
}

/// `path` is `root` joined with the plain relative path `r`.
pub open spec fn is_plain_under(path: Seq<char>, root: Seq<char>, r: Seq<char>) -> bool {
    &&& r.len() > 0
    &&& r[0] != '/'
    &&& plain_relative(r)
    &&& path == join_path(root, r)
}

/// Only one relative path joined onto `root` gives `path`, so a path that is
/// `root` joined with a plain relative path `r` is reported as `r`.
pub proof fn lemma_workspace_relative(path: Seq<char>, root: Seq<char>, r: Seq<char>)
    requires
        is_plain_under(path, root, r),
    ensures
        workspace_relative(path, root) == Some(r),
{
    let c = choose|q: Seq<char>| is_plain_under(path, root, q);
    assert(is_plain_under(path, root, c));
    if root.len() == 0 || root.last() == '/' {
        assert(r =~= path.subrange(root.len() as int, path.len() as int));
        assert(c =~= path.subrange(root.len() as int, path.len() as int));
    } else {
        assert(r =~= path.subrange(root.len() as int + 1, path.len() as int));
        assert(c =~= path.subrange(root.len() as int + 1, path.len() as int));
    }
}

/// The workspace-relative form of a path, with `/` separators.
pub open spec fn relative_text(r: Seq<char>) -> Seq<char> {
    r.map_values(|c: char| if c == '\\' { '/' } else { c })
}

/// A plain relative path without backslashes: what `rel_to_workspace` reports
/// back unchanged.
pub open spec fn reported_as_is(r: Seq<char>) -> bool {
    &&& r.len() > 0
    &&& r[0] != '/'
    &&& plain_relative(r)
    &&& forall|i: int| 0 <= i < r.len() ==> r[i] != '\\'
}

pub proof fn lemma_reported_as_is(root: Seq<char>, r: Seq<char>)
    requires
        reported_as_is(r),
    ensures
        workspace_relative(join_path(root, r), root) == Some(r),
        relative_text(r) == r,
{
    lemma_workspace_relative(join_path(root, r), root, r);
    assert(relative_text(r) =~= r);
}

/// The path of `path` relative to the workspace root, with `/` separators;
/// a path outside the root is refused.
pub fn rel_to_workspace(root: &str, path: &str) -> (res: Result<String, AppError>)
    ensures
        match workspace_relative(path@, root@) {
            Some(r) => res matches Ok(s) && s@ == relative_text(r),
            None => res matches Err(e) && is_user_error(
                e,
                "invalid_path"@,
                "Path is outside workspace."@,
            ),
        },
        forall|r: Seq<char>|
            plain_relative(r) && path@ == join_path(root@, r) ==> (res matches Ok(s) && s@
                == relative_text(r)),
{
    match strip_base(path, root) {
        Some(r) => {
            let cs = chars_of(r.as_str());
            let mut out: Vec<char> = Vec::new();
            let mut i: usize = 0;
            while i < cs.len()
                invariant
                    i <= cs.len(),
                    out@ == relative_text(cs@.subrange(0, i as int)),
                decreases cs.len() - i,
            {
                out.push(
                    if cs[i] == '\\' {
                        '/'
                    } else {
                        cs[i]
                    },
                );
                i += 1;
                assert(out@ == relative_text(cs@.subrange(0, i as int)));
            }
            assert(cs@.subrange(0, cs@.len() as int) == cs@);
            Ok(string_of(&out))
        },
        None => Err(AppError::user("invalid_path", owned("Path is outside workspace."))),
    }
}

/// The path `safe_join(root, rel)` gives, `None` when it refuses `rel`.
pub open spec fn joined(root: Seq<char>, rel: Seq<char>) -> Option<Seq<char>> {
    if (rel.len() > 0 && rel[0] == '/') || has_parent_component(rel) {
        None
    } else {
        Some(join_path(root, rel))
    }
}

/// `e` is the error with which `safe_join` refuses `rel`.
pub open spec fn join_refused(rel: Seq<char>, e: AppError) -> bool {
    if rel.len() > 0 && rel[0] == '/' {
        is_user_error(e, "invalid_path"@, "Workspace paths must be relative."@)
    } else {
        is_user_error(e, "invalid_path"@, "Workspace path escapes the workspace root."@)
    }
}

/// What `safe_join(root, rel)` gives.
pub open spec fn safe_join_outcome(root: Seq<char>, rel: Seq<char>, res: Result<String, AppError>) -> bool {
    match joined(root, rel) {
        Some(p) => res matches Ok(q) && q@ == p,
        None => res matches Err(e) && join_refused(rel, e),
    }
}

/// The file holding the workspace configuration.
pub open spec fn config_file(workspace: Seq<char>) -> Seq<char> {
    join_path(workspace, "hermes.workspace.yaml"@)
}

/// The file of the environment `id`.
pub open spec fn environment_file(workspace: Seq<char>, id: Seq<char>) -> Seq<char> {
    join_path(join_path(workspace, "environments"@), id + ".yaml"@)
}

/// The request history file.
pub open spec fn history_file(workspace: Seq<char>) -> Seq<char> {
    join_path(join_path(workspace, ".hermes"@), "history.jsonl"@)
}

/// The file listing the secret keys of the environment `id`.
pub open spec fn secrets_file(workspace: Seq<char>, id: Seq<char>) -> Seq<char> {
    join_path(join_path(workspace, ".hermes"@), "secrets-"@ + id + ".yaml"@)
}

} // verus!
