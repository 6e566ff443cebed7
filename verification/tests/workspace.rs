use markdownfs::workspace::WorkspaceStore;

#[test]
fn issues_and_validates_workspace_tokens() {
    let mut store = WorkspaceStore::new();
    let workspace = store.create_workspace("demo", "/incidents/demo");
    let issued = store.issue_workspace_token(workspace.id, "demo-token", "agent-secret").unwrap();
    let valid = store
        .validate_workspace_token(workspace.id, &issued.raw_secret)
        .expect("token should validate");
    assert_eq!(valid.workspace.id, workspace.id);
    assert_eq!(valid.token.agent_token, "agent-secret");
}

#[test]
fn workspace_tokens_refuse_wrong_secrets_and_unknown_workspaces() {
    let mut store = WorkspaceStore::new();
    let w = store.create_workspace("a", "/a");
    let issued = store.issue_workspace_token(w.id, "t", "agent").unwrap();
    assert_eq!(issued.raw_secret.len(), 48);
    assert!(store.validate_workspace_token(w.id, "not-the-secret").is_none());
    assert!(store.validate_workspace_token(w.id.wrapping_add(1), &issued.raw_secret).is_none());
    assert!(store.issue_workspace_token(w.id.wrapping_add(1), "t", "agent").is_err());
}

#[test]
fn workspaces_list_by_name_and_count_versions() {
    let mut store = WorkspaceStore::new();
    let b = store.create_workspace("beta", "/b");
    store.create_workspace("alpha", "/a");
    let names: Vec<String> = store.list_workspaces().into_iter().map(|w| w.name).collect();
    assert_eq!(names, vec!["alpha".to_string(), "beta".to_string()]);
    let updated = store.update_head_commit(b.id, Some("abc".to_string())).unwrap();
    assert_eq!(updated.version, 1);
    assert_eq!(updated.head_commit.as_deref(), Some("abc"));
    assert_eq!(store.get_workspace(b.id).unwrap().version, 1);
    assert!(store.update_head_commit(b.id.wrapping_add(1), None).is_none());
}

#[test]
fn workspace_ids_are_version_four_and_written_hyphenated() {
    let mut store = WorkspaceStore::new();
    let w = store.create_workspace("a", "/a");
    assert_eq!((w.id >> 76) & 0xF, 4);
    assert_eq!((w.id >> 62) & 0x3, 2);
    let unknown: u128 = 0x0123_4567_89ab_cdef_0011_2233_4455_6677;
    let err = store.issue_workspace_token(unknown, "t", "agent").unwrap_err();
    assert_eq!(err.message(), "markdownfs: unknown workspace: 01234567-89ab-cdef-0011-223344556677");
}
