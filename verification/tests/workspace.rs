use hermes::error::AppError;
use hermes::models::{AuthConfig, HermesRequest, HttpMethod, RequestBody, TreeNode};
use hermes::paths::safe_join;
use hermes::tree::{list_workspace_tree, FsEntry, FsEntryKind};
use hermes::workspace::{
    create_group, create_workspace, delete_group, group_removal, rename_group, write_request,
    GroupRemoval, GroupRename,
};

const ROOT: &str = "/tmp/hermes-workspace";

fn ping_request() -> HermesRequest {
    HermesRequest {
        id: "req".to_string(),
        name: "Ping".to_string(),
        method: HttpMethod::Get,
        url: "https://example.com".to_string(),
        params: Vec::new(),
        headers: Vec::new(),
        body: RequestBody::default(),
        auth: AuthConfig::default(),
        description: None,
    }
}

fn user_code(e: &AppError) -> &'static str {
    match e {
        AppError::User { code, .. } => code,
        _ => "",
    }
}

#[test]
fn safe_join_rejects_parent_paths() {
    let root = "/workspace";
    assert!(safe_join(root, "../secret.yaml").is_err());
}

#[test]
fn safe_join_refuses_absolute_and_joins_plain_paths() {
    let e = safe_join("/workspace", "/etc/passwd").unwrap_err();
    assert_eq!(user_code(&e), "invalid_path");
    assert_eq!(e.message(), "Workspace paths must be relative.");
    let e = safe_join("/workspace", "a/../../b").unwrap_err();
    assert_eq!(e.message(), "Workspace path escapes the workspace root.");
    assert_eq!(safe_join("/workspace", "collections/ping.yaml").unwrap(), "/workspace/collections/ping.yaml");
    assert_eq!(safe_join("/workspace", "a..b/c").unwrap(), "/workspace/a..b/c");
}

#[test]
fn workspace_roundtrip_creates_expected_files() {
    let plan = create_workspace(ROOT, "Test".to_string());
    assert_eq!(plan.config.name, "Test");
    assert_eq!(plan.config_path, format!("{ROOT}/hermes.workspace.yaml"));
    assert!(plan.directories.contains(&format!("{ROOT}/collections")));
    assert_eq!(plan.environment_path, format!("{ROOT}/environments/local.yaml"));
    assert!(plan.environment_path.ends_with("local.yaml"));
}

#[test]
fn new_workspace_has_fresh_id_and_default_environment() {
    let a = create_workspace(ROOT, "Test".to_string());
    let b = create_workspace(ROOT, "Test".to_string());
    assert_eq!(a.config.id.len(), 36);
    assert_ne!(a.config.id, b.config.id);
    assert_eq!(a.config.version, 1);
    assert_eq!(a.environment.id, "local");
    assert_eq!(a.environment.values[0].value, "https://api.example.com");
    assert!(a.environment.values[1].secret);
}

#[test]
fn request_yaml_roundtrip() {
    create_workspace(ROOT, "Test".to_string());
    let w = write_request(ROOT, "collections/ping.yaml").unwrap();
    let path = w.relative.unwrap();
    assert_eq!(path, "collections/ping.yaml");
    let entries = vec![FsEntry {
        name: "ping.yaml".to_string(),
        kind: FsEntryKind::File(Some(Ok(ping_request()))),
    }];
    let tree = list_workspace_tree(ROOT, Some(entries)).unwrap();
    assert_eq!(tree.len(), 1);
}

#[test]
fn tree_lists_folders_and_requests_in_name_order() {
    let entries = vec![
        FsEntry { name: "z.yaml".to_string(), kind: FsEntryKind::File(Some(Ok(ping_request()))) },
        FsEntry { name: "notes.txt".to_string(), kind: FsEntryKind::File(None) },
        FsEntry { name: "auth".to_string(), kind: FsEntryKind::Folder(Vec::new()) },
    ];
    let tree = list_workspace_tree(ROOT, Some(entries)).unwrap();
    assert_eq!(tree.len(), 2);
    match &tree[0] {
        TreeNode::Folder { name, path, children } => {
            assert_eq!(name, "auth");
            assert_eq!(path, "collections/auth");
            assert!(children.is_empty());
        }
        _ => panic!("expected a folder first"),
    }
    match &tree[1] {
        TreeNode::Request { name, path, method, id } => {
            assert_eq!(name, "Ping");
            assert_eq!(path, "collections/z.yaml");
            assert_eq!(*method, HttpMethod::Get);
            assert_eq!(id, "req");
        }
        _ => panic!("expected a request"),
    }
    assert!(list_workspace_tree(ROOT, None).unwrap().is_empty());
}

#[test]
fn creates_empty_group_folder() {
    create_workspace(ROOT, "Test".to_string());
    let g = create_group(ROOT, "auth/admin").unwrap();
    assert_eq!(g.relative.unwrap(), "collections/auth/admin");
    assert_eq!(g.path, format!("{ROOT}/collections/auth/admin"));
}

#[test]
fn group_paths_are_normalized_and_checked() {
    let g = create_group(ROOT, "  /collections/auth/ ").unwrap();
    assert_eq!(g.relative.unwrap(), "collections/auth");
    let e = create_group(ROOT, " / ").unwrap_err();
    assert_eq!(user_code(&e), "invalid_group");
    assert!(create_group(ROOT, "../x").is_err());
}

#[test]
fn recursively_deletes_non_empty_group() {
    create_workspace(ROOT, "Test".to_string());
    create_group(ROOT, "auth").unwrap();
    let folder = delete_group(ROOT, "auth").unwrap();
    assert_eq!(folder, format!("{ROOT}/collections/auth"));
    assert_eq!(group_removal(true, true).unwrap(), GroupRemoval::WithContents);
}

#[test]
fn group_removal_cases() {
    assert_eq!(group_removal(true, false).unwrap(), GroupRemoval::EmptyOnly);
    assert_eq!(user_code(&group_removal(false, true).unwrap_err()), "invalid_group");
}

#[test]
fn renames_group_with_contents() {
    create_workspace(ROOT, "Test".to_string());
    create_group(ROOT, "auth/admin").unwrap();
    match rename_group(ROOT, "auth/admin", "auth/users").unwrap() {
        GroupRename::Move { source, destination, relative, .. } => {
            assert_eq!(relative.unwrap(), "collections/auth/users");
            assert_eq!(source, format!("{ROOT}/collections/auth/admin"));
            assert_eq!(destination, format!("{ROOT}/collections/auth/users"));
        }
        GroupRename::Unchanged(_) => panic!("expected a move"),
    }
}

#[test]
fn renaming_to_the_same_group_changes_nothing() {
    match rename_group(ROOT, "auth", "/auth/").unwrap() {
        GroupRename::Unchanged(p) => assert_eq!(p, "collections/auth"),
        _ => panic!("expected no move"),
    }
    assert!(rename_group(ROOT, "auth", "auth/inner").is_err());
}

#[test]
fn group_paths_come_back_as_written() {
    let g = create_group("/ws/", "a/b").unwrap();
    assert_eq!(g.path, "/ws/collections/a/b");
    assert_eq!(g.relative.unwrap(), "collections/a/b");
    match rename_group("", "a", "c/d").unwrap() {
        GroupRename::Move { destination, relative, .. } => {
            assert_eq!(destination, "collections/c/d");
            assert_eq!(relative.unwrap(), "collections/c/d");
        }
        _ => panic!("expected a move"),
    }
}
