//! The layout of a workspace on disk and the decisions of its file operations.
//!
//! A workspace is a directory holding `hermes.workspace.yaml`, request files
//! under `collections/`, environments under `environments/` and local state
//! under `.hermes/`. The functions here compute which files an operation
//! touches and decide its outcome from what the file system reports; the
//! reading and writing itself is left to the caller.
use vstd::prelude::*;
use crate::error::{AppError, is_detailed_error, is_user_error, opt_view};
use crate::models::{
    HermesEnvironment, HermesRequest, KeyValueRow, WorkspaceConfig, is_uuid_text, new_id,
};
use crate::paths::{
    config_file, environment_file, extension_of, file_stem_of, group_rel, group_relative,
    has_yaml_extension, is_yaml, join, join_path, join_refused, joined, normalized_group, normalize_group_path,
    parent_of, rel_to_workspace, safe_join, safe_join_outcome, std_extension, std_file_stem,
    std_parent, workspace_relative, relative_text, plain_relative, reported_as_is,
    lemma_reported_as_is,
};
use crate::text::{concat, decimal, decimal_text, is_prefix, owned, starts_with, str_eq};

verus! {

/// The file that holds the configuration of the workspace at `workspace_path`.
pub fn read_workspace_config(workspace_path: &str) -> (res: String)
    ensures
        res@ == config_file(workspace_path@),
{
    join(workspace_path, "hermes.workspace.yaml")
}

/// Opening a workspace reads its configuration file.
pub fn open_workspace(path: &str) -> (res: String)
    ensures
        res@ == config_file(path@),
{
    read_workspace_config(path)
}

/// The file of the request at the workspace-relative `request_path`.
pub fn read_request(workspace_path: &str, request_path: &str) -> (res: Result<String, AppError>)
    ensures
        safe_join_outcome(workspace_path@, request_path@, res),
{
    safe_join(workspace_path, request_path)
}

/// The file of the environment `environment_id`.
pub fn read_environment(workspace_path: &str, environment_id: &str) -> (res: String)
    ensures
        res@ == environment_file(workspace_path@, environment_id@),
{
    let dir = join(workspace_path, "environments");
    let file = concat(environment_id, ".yaml");
    join(dir.as_str(), file.as_str())
}

/// Where a request is written: the file, its folder (created first), and the
/// path reported back, relative to the workspace.
#[derive(Debug)]
pub struct RequestWrite {
    pub path: String,
    pub parent: Option<String>,
    pub relative: Result<String, AppError>,
}

/// `rel_to_workspace(root, path)` as a relation.
pub open spec fn relative_outcome(root: Seq<char>, path: Seq<char>, res: Result<String, AppError>) -> bool {
    match workspace_relative(path, root) {
        Some(r) => res matches Ok(s) && s@ == relative_text(r),
        None => res matches Err(e) && is_user_error(e, "invalid_path"@, "Path is outside workspace."@),
    }
}

/// What writing a request at `rel` gives: refused as `safe_join` refuses
/// `rel`; otherwise the joined file, its parent folder, and its path relative
/// to the workspace.
pub open spec fn request_write_outcome(root: Seq<char>, rel: Seq<char>, res: Result<RequestWrite, AppError>) -> bool {
    match joined(root, rel) {
        None => res matches Err(e) && join_refused(rel, e),
        Some(p) => res matches Ok(w) && w.path@ == p && opt_view(w.parent) == std_parent(p)
            && relative_outcome(root, p, w.relative) && (plain_relative(rel) && (forall|i: int|
            0 <= i < rel.len() ==> rel[i] != '\\') ==> (w.relative matches Ok(s) && s@ == rel)),
    }
}

/// Writing the request at `request_path`: refused as `safe_join` refuses the
/// path; otherwise the joined file, its parent folder and its relative path.
pub fn write_request(workspace_path: &str, request_path: &str) -> (res: Result<
    RequestWrite,
    AppError,
>)
    ensures
        request_write_outcome(workspace_path@, request_path@, res),
{
    match safe_join(workspace_path, request_path) {
        Ok(path) => {
            let parent = parent_of(path.as_str());
            let relative = rel_to_workspace(workspace_path, path.as_str());
            proof {
                if plain_relative(request_path@) && (forall|i: int|
                    0 <= i < request_path@.len() ==> request_path@[i] != '\\') {
                    assert(relative_text(request_path@) =~= request_path@);
                }
            }
            Ok(RequestWrite { path, parent, relative })
        },
        Err(e) => Err(e),
    }
}

/// A request is read back from the very file it was written to, and a path
/// that cannot be written cannot be read either.
pub proof fn lemma_write_read_same_file(
    root: Seq<char>,
    rel: Seq<char>,
    written: Result<RequestWrite, AppError>,
    read: Result<String, AppError>,
)
    requires
        request_write_outcome(root, rel, written),
        safe_join_outcome(root, rel, read),
    ensures
        written is Ok <==> read is Ok,
        written matches Ok(w) ==> (read matches Ok(p) && w.path@ == p@),
{
}

} // verus!

verus! {

/// The file of the request to delete.
pub fn delete_request(workspace_path: &str, request_path: &str) -> (res: Result<String, AppError>)
    ensures
        safe_join_outcome(workspace_path@, request_path@, res),
{
    safe_join(workspace_path, request_path)
}

/// Whether to remove the file of a request to delete, given what is at its
/// path: a folder is refused, a missing file needs nothing.
pub fn request_removal(is_dir: bool, exists: bool) -> (res: Result<bool, AppError>)
    ensures
        is_dir ==> (res matches Err(e) && is_user_error(
            e,
            "invalid_path"@,
            "Only request files can be deleted."@,
        )),
        !is_dir ==> res == Ok::<bool, AppError>(exists),
{
    if is_dir {
        return Err(AppError::user("invalid_path", owned("Only request files can be deleted.")));
    }
    Ok(exists)
}

/// How many copies are tried when duplicating a request: numbers `1` to `999`.
pub const DUPLICATE_LIMIT: u32 = 1000;

/// The parts of a request file that the names of its copies are made from.
#[derive(Debug)]
pub struct DuplicatePlan {
    pub source: String,
    pub parent: String,
    pub stem: String,
    pub extension: String,
}

/// Duplicating the request at `request_path`: refused as `safe_join` refuses
/// the path, or when the file has no parent folder; otherwise its file, its
/// folder, its file stem (`request` when it has none) and its extension
/// (`yaml` when it has none).
pub fn duplicate_request(workspace_path: &str, request_path: &str) -> (res: Result<
    DuplicatePlan,
    AppError,
>)
    ensures
        match joined(workspace_path@, request_path@) {
            None => res matches Err(e) && join_refused(request_path@, e),
            Some(p) => match std_parent(p) {
                None => res matches Err(e) && is_user_error(
                    e,
                    "invalid_path"@,
                    "Request has no parent folder."@,
                ),
                Some(parent) => res matches Ok(plan) && plan.source@ == p && plan.parent@ == parent
                    && plan.stem@ == (match std_file_stem(p) {
                    Some(s) => s,
                    None => "request"@,
                }) && plan.extension@ == (match std_extension(p) {
                    Some(x) => x,
                    None => "yaml"@,
                }),
            },
        },
{
    let source = match safe_join(workspace_path, request_path) {
        Ok(p) => p,
        Err(e) => {
            return Err(e);
        },
    };
    let parent = match parent_of(source.as_str()) {
        Some(p) => p,
        None => {
            return Err(AppError::user("invalid_path", owned("Request has no parent folder.")));
        },
    };
    let stem = match file_stem_of(source.as_str()) {
        Some(s) => s,
        None => owned("request"),
    };
    let extension = match extension_of(source.as_str()) {
        Some(x) => x,
        None => owned("yaml"),
    };
    Ok(DuplicatePlan { source, parent, stem, extension })
}

/// The file of copy number `index`: `{stem}-copy-{index}.{extension}` next to the original.
pub open spec fn copy_file(plan: DuplicatePlan, index: nat) -> Seq<char> {
    join_path(plan.parent@, plan.stem@ + "-copy-"@ + decimal(index) + "."@ + plan.extension@)
}

/// The file tried for copy number `index`.
pub fn duplicate_candidate(plan: &DuplicatePlan, index: u32) -> (res: String)
    ensures
        res@ == copy_file(*plan, index as nat),
{
    let a = concat(plan.stem.as_str(), "-copy-");
    let b = concat(a.as_str(), decimal_text(index).as_str());
    let c = concat(b.as_str(), ".");
    let name = concat(c.as_str(), plan.extension.as_str());
    join(plan.parent.as_str(), name.as_str())
}

/// Copy number `index` of a request: a fresh id and the name `{name} copy {index}`.
pub fn duplicate_copy(request: HermesRequest, index: u32) -> (res: HermesRequest)
    ensures
        is_uuid_text(res.id@),
        res.name@ == request.name@ + " copy "@ + decimal(index as nat),
        res.method == request.method,
        res.url == request.url,
        res.params == request.params,
        res.headers == request.headers,
        res.body == request.body,
        res.auth == request.auth,
        res.description == request.description,
{
    let a = concat(request.name.as_str(), " copy ");
    let name = concat(a.as_str(), decimal_text(index).as_str());
    HermesRequest { id: new_id(), name, ..request }
}

/// The error when every copy number is taken.
pub fn duplicate_exhausted() -> (res: AppError)
    ensures
        is_user_error(res, "duplicate_failed"@, "Could not find a free duplicate file name."@),
{
    AppError::user("duplicate_failed", owned("Could not find a free duplicate file name."))
}

/// The folder of a group and its path reported back.
#[derive(Debug)]
pub struct GroupDir {
    pub path: String,
    pub relative: Result<String, AppError>,
}

/// `e` is how normalizing `group` or joining `collections/{group}` fails.
pub open spec fn group_path_refused(root: Seq<char>, group: Seq<char>, e: AppError) -> bool {
    if normalized_group(group).len() == 0 {
        is_user_error(e, "invalid_group"@, "Group name cannot be empty."@)
    } else {
        joined(root, group_rel(normalized_group(group))) is None && join_refused(
            group_rel(normalized_group(group)),
            e,
        )
    }
}

/// The folder of the group `group`, `None` when the group path is refused.
pub open spec fn group_folder(root: Seq<char>, group: Seq<char>) -> Option<Seq<char>> {
    if normalized_group(group).len() == 0 {
        None
    } else {
        joined(root, group_rel(normalized_group(group)))
    }
}

fn group_dir_path(workspace_path: &str, group_path: &str) -> (res: Result<(String, String), AppError>)
    ensures
        match group_folder(workspace_path@, group_path@) {
            None => res matches Err(e) && group_path_refused(workspace_path@, group_path@, e),
            Some(p) => res matches Ok(r) && r.0@ == p && r.1@ == normalized_group(group_path@),
        },
{
    let group = match normalize_group_path(group_path) {
        Ok(g) => g,
        Err(e) => {
            return Err(e);
        },
    };
    let rel = group_relative(group.as_str());
    match safe_join(workspace_path, rel.as_str()) {
        Ok(p) => Ok((p, group)),
        Err(e) => Err(e),
    }
}

/// Creating the group `group_path`: its folder under `collections/`, the
/// group path being normalized first.
pub fn create_group(workspace_path: &str, group_path: &str) -> (res: Result<GroupDir, AppError>)
    ensures
        match group_folder(workspace_path@, group_path@) {
            None => res matches Err(e) && group_path_refused(workspace_path@, group_path@, e),
            Some(p) => res matches Ok(g) && g.path@ == p && relative_outcome(
                workspace_path@,
                p,
                g.relative,
            ),
        },
        group_folder(workspace_path@, group_path@) is Some && reported_as_is(
            group_rel(normalized_group(group_path@)),
        ) ==> (res matches Ok(g) && g.relative matches Ok(s) && s@ == group_rel(
            normalized_group(group_path@),
        )),
{
    match group_dir_path(workspace_path, group_path) {
        Ok((path, _)) => {
            let relative = rel_to_workspace(workspace_path, path.as_str());
            proof {
                let r = group_rel(normalized_group(group_path@));
                if reported_as_is(r) {
                    lemma_reported_as_is(workspace_path@, r);
                }
            }
            Ok(GroupDir { path, relative })
        },
        Err(e) => Err(e),
    }
}

/// The folder of the group to delete.
pub fn delete_group(workspace_path: &str, group_path: &str) -> (res: Result<String, AppError>)
    ensures
        match group_folder(workspace_path@, group_path@) {
            None => res matches Err(e) && group_path_refused(workspace_path@, group_path@, e),
            Some(p) => res matches Ok(q) && q@ == p,
        },
{
    match group_dir_path(workspace_path, group_path) {
        Ok((path, _)) => Ok(path),
        Err(e) => Err(e),
    }
}

/// How a group folder is removed.
#[derive(Debug, Clone, Copy, PartialEq, Eq, Structural)]
pub enum GroupRemoval {
    /// The folder and everything in it.
    WithContents,
    /// The folder only, which fails unless it is empty.
    EmptyOnly,
}

/// How to remove a group folder: a missing folder is refused; a recursive
/// deletion removes the contents too.
pub fn group_removal(is_dir: bool, recursive: bool) -> (res: Result<GroupRemoval, AppError>)
    ensures
        !is_dir ==> (res matches Err(e) && is_user_error(
            e,
            "invalid_group"@,
            "Group folder does not exist."@,
        )),
        is_dir && recursive ==> res == Ok::<GroupRemoval, AppError>(GroupRemoval::WithContents),
        is_dir && !recursive ==> res == Ok::<GroupRemoval, AppError>(GroupRemoval::EmptyOnly),
{
    if !is_dir {
        return Err(AppError::user("invalid_group", owned("Group folder does not exist.")));
    }
    if recursive {
        Ok(GroupRemoval::WithContents)
    } else {
        Ok(GroupRemoval::EmptyOnly)
    }
}

/// The error when a non-recursive deletion meets a group that is not empty.
pub fn group_not_empty(detail: String) -> (res: AppError)
    ensures
        is_detailed_error(
            res,
            "group_not_empty"@,
            "Group is not empty. Confirm deletion to remove it and all contained requests."@,
            detail@,
        ),
{
    AppError::with_detail(
        "group_not_empty",
        owned("Group is not empty. Confirm deletion to remove it and all contained requests."),
        detail,
    )
}

/// What renaming a group comes to.
#[derive(Debug)]
pub enum GroupRename {
    /// The new name is the old one: nothing moves; the group's path.
    Unchanged(String),
    /// The folder moves from `source` to `destination`, inside `parent`.
    Move {
        source: String,
        destination: String,
        parent: Option<String>,
        relative: Result<String, AppError>,
    },
}

/// Renaming (moving) group `group_path` to `new_group_path`, both normalized:
/// the same name changes nothing, a group cannot move inside itself, and both
/// folders must be paths inside the workspace.
pub fn rename_group(workspace_path: &str, group_path: &str, new_group_path: &str) -> (res: Result<
    GroupRename,
    AppError,
>)
    ensures
        ({
            let root = workspace_path@;
            let g = normalized_group(group_path@);
            let n = normalized_group(new_group_path@);
            if g.len() == 0 {
                res matches Err(e) && is_user_error(e, "invalid_group"@, "Group name cannot be empty."@)
            } else if n.len() == 0 {
                res matches Err(e) && is_user_error(e, "invalid_group"@, "Group name cannot be empty."@)
            } else if g == n {
                res matches Ok(GroupRename::Unchanged(p)) && p@ == group_rel(g)
            } else if is_prefix(g + "/"@, n) {
                res matches Err(e) && is_user_error(
                    e,
                    "invalid_group"@,
                    "A group cannot be moved inside itself."@,
                )
            } else if joined(root, group_rel(g)) is None {
                res matches Err(e) && join_refused(group_rel(g), e)
            } else if joined(root, group_rel(n)) is None {
                res matches Err(e) && join_refused(group_rel(n), e)
            } else {
                res matches Ok(GroupRename::Move { source, destination, parent, relative })
                    && source@ == join_path(root, group_rel(g)) && destination@ == join_path(
                    root,
                    group_rel(n),
                ) && opt_view(parent) == std_parent(destination@) && relative_outcome(
                    root,
                    destination@,
                    relative,
                ) && (reported_as_is(group_rel(n)) ==> (relative matches Ok(s) && s@ == group_rel(
                    n,
                )))
            }
        }),
{
    let group = match normalize_group_path(group_path) {
        Ok(g) => g,
        Err(e) => {
            return Err(e);
        },
    };
    let new_group = match normalize_group_path(new_group_path) {
        Ok(g) => g,
        Err(e) => {
            return Err(e);
        },
    };
    if str_eq(group.as_str(), new_group.as_str()) {
        return Ok(GroupRename::Unchanged(group_relative(group.as_str())));
    }
    let inside = concat(group.as_str(), "/");
    if starts_with(new_group.as_str(), inside.as_str()) {
        return Err(
            AppError::user("invalid_group", owned("A group cannot be moved inside itself.")),
        );
    }
    let source_rel = group_relative(group.as_str());
    let source = match safe_join(workspace_path, source_rel.as_str()) {
        Ok(p) => p,
        Err(e) => {
            return Err(e);
        },
    };
    let destination_rel = group_relative(new_group.as_str());
    let destination = match safe_join(workspace_path, destination_rel.as_str()) {
        Ok(p) => p,
        Err(e) => {
            return Err(e);
        },
    };
    let parent = parent_of(destination.as_str());
    let relative = rel_to_workspace(workspace_path, destination.as_str());
    proof {
        let r = group_rel(normalized_group(new_group_path@));
        if reported_as_is(r) {
            lemma_reported_as_is(workspace_path@, r);
        }
    }
    Ok(GroupRename::Move { source, destination, parent, relative })
}

/// Whether a group folder can be moved: it must exist, and its new place must be free.
pub fn check_group_move(source_is_dir: bool, destination_exists: bool) -> (res: Result<
    (),
    AppError,
>)
    ensures
        !source_is_dir ==> (res matches Err(e) && is_user_error(
            e,
            "invalid_group"@,
            "Group folder does not exist."@,
        )),
        source_is_dir && destination_exists ==> (res matches Err(e) && is_user_error(
            e,
            "group_exists"@,
            "A group with this name already exists."@,
        )),
        source_is_dir && !destination_exists ==> res is Ok,
{
    if !source_is_dir {
        return Err(AppError::user("invalid_group", owned("Group folder does not exist.")));
    }
    if destination_exists {
        return Err(AppError::user("group_exists", owned("A group with this name already exists.")));
    }
    Ok(())
}

} // verus!

verus! {

/// The folder of the environments.
pub open spec fn environments_dir(workspace: Seq<char>) -> Seq<char> {
    join_path(workspace, "environments"@)
}

/// The files, in the folder `dir`, of the names that have a YAML extension, in order.
pub open spec fn yaml_files(dir: Seq<char>, names: Seq<Seq<char>>) -> Seq<Seq<char>>
    decreases names.len(),
{
    if names.len() == 0 {
        Seq::empty()
    } else if has_yaml_extension(names.last()) {
        yaml_files(dir, names.drop_last()).push(join_path(dir, names.last()))
    } else {
        yaml_files(dir, names.drop_last())
    }
}

/// The environment files to read, in order: given the names in the
/// environments folder (`None` when it does not exist), the YAML ones sorted
/// by name.
pub fn list_environments(workspace_path: &str, entries: Option<Vec<String>>) -> (res: Vec<String>)
    ensures
        entries is None ==> res@.len() == 0,
        entries matches Some(names) ==> exists|sorted: Seq<Seq<char>>|
            crate::order::nondecreasing(sorted) && sorted.to_multiset() == crate::text::views(
                names@,
            ).to_multiset() && crate::text::views(res@) == yaml_files(
                environments_dir(workspace_path@),
                sorted,
            ),
{
    let names = match entries {
        None => {
            return Vec::new();
        },
        Some(n) => n,
    };
    let dir = join(workspace_path, "environments");
    let sorted = crate::order::sort_strings(&names);
    let ghost sv = crate::text::views(sorted@);
    let mut res: Vec<String> = Vec::new();
    let mut i: usize = 0;
    while i < sorted.len()
        invariant
            i <= sorted.len(),
            sv == crate::text::views(sorted@),
            dir@ == environments_dir(workspace_path@),
            crate::text::views(res@) == yaml_files(dir@, sv.subrange(0, i as int)),
        decreases sorted.len() - i,
    {
        proof {
            assert(sv.subrange(0, i + 1).drop_last() == sv.subrange(0, i as int));
            assert(sv.subrange(0, i + 1).last() == sorted@[i as int]@);
        }
        if is_yaml(sorted[i].as_str()) {
            let p = join(dir.as_str(), sorted[i].as_str());
            res.push(p);
            assert(crate::text::views(res@) == crate::text::views(res@).drop_last().push(p@));
        }
        i += 1;
    }
    assert(sv.subrange(0, sv.len() as int) == sv);
    res
}

/// Where an environment is written: its folder (created first), its file, and its id.
#[derive(Debug)]
pub struct EnvironmentWrite {
    pub directory: String,
    pub path: String,
    pub id: String,
}

/// Writing `environment`: the file named after its id in the environments folder.
pub fn write_environment(workspace_path: &str, environment: &HermesEnvironment) -> (res: EnvironmentWrite)
    ensures
        res.directory@ == environments_dir(workspace_path@),
        res.path@ == environment_file(workspace_path@, environment.id@),
        res.id@ == environment.id@,
{
    let directory = join(workspace_path, "environments");
    let path = read_environment(workspace_path, environment.id.as_str());
    EnvironmentWrite { directory, path, id: owned(environment.id.as_str()) }
}

/// The environment every new workspace starts with.
pub open spec fn is_default_environment(env: HermesEnvironment) -> bool {
    &&& env.id@ == "local"@
    &&& env.name@ == "Local"@
    &&& env.values.len() == 2
    &&& env.values@[0].id@ == "baseUrl"@
    &&& env.values@[0].key@ == "baseUrl"@
    &&& env.values@[0].value@ == "https://api.example.com"@
    &&& env.values@[0].enabled
    &&& !env.values@[0].secret
    &&& env.values@[1].id@ == "token"@
    &&& env.values@[1].key@ == "token"@
    &&& env.values@[1].value@ == ""@
    &&& env.values@[1].enabled
    &&& env.values@[1].secret
}

/// `local`: a `baseUrl` of `https://api.example.com` and an empty secret `token`.
pub fn default_environment() -> (res: HermesEnvironment)
    ensures
        is_default_environment(res),
{
    let mut values: Vec<KeyValueRow> = Vec::new();
    values.push(
        KeyValueRow {
            id: owned("baseUrl"),
            key: owned("baseUrl"),
            value: owned("https://api.example.com"),
            enabled: true,
            secret: false,
        },
    );
    values.push(
        KeyValueRow {
            id: owned("token"),
            key: owned("token"),
            value: owned(""),
            enabled: true,
            secret: true,
        },
    );
    HermesEnvironment { id: owned("local"), name: owned("Local"), values }
}

/// What creating a workspace writes.
#[derive(Debug)]
pub struct WorkspacePlan {
    /// Folders to create: collections, environments and the state folder.
    pub directories: Vec<String>,
    pub config_path: String,
    pub config: WorkspaceConfig,
    pub environment_path: String,
    pub environment: HermesEnvironment,
}

/// Creating a workspace named `name` at `path`: its three folders, a
/// configuration with a fresh id and version 1, and the default environment.
pub fn create_workspace(path: &str, name: String) -> (res: WorkspacePlan)
    ensures
        crate::text::views(res.directories@) == seq![
            join_path(path@, "collections"@),
            join_path(path@, "environments"@),
            join_path(path@, ".hermes"@),
        ],
        res.config_path@ == config_file(path@),
        is_uuid_text(res.config.id@),
        res.config.name@ == name@,
        res.config.version == 1,
        res.environment_path@ == environment_file(path@, "local"@),
        is_default_environment(res.environment),
{
    let mut directories: Vec<String> = Vec::new();
    directories.push(join(path, "collections"));
    directories.push(join(path, "environments"));
    directories.push(join(path, ".hermes"));
    let config = WorkspaceConfig { id: new_id(), name, version: 1 };
    let environment = default_environment();
    let environment_path = read_environment(path, environment.id.as_str());
    WorkspacePlan {
        directories,
        config_path: read_workspace_config(path),
        config,
        environment_path,
        environment,
    }
}

} // verus!
