use markdownfs::auth::session::{DelegateContext, Session};
use markdownfs::server::paths::resolve_user_path;

fn user(name: &str, uid: u32) -> Session {
    Session::new(uid, uid, vec![uid], name.to_string())
}

#[test]
fn absolute_passthrough() {
    let s = user("alice", 1);
    assert_eq!(resolve_user_path(&s, "/foo/bar.md"), "/foo/bar.md");
}

#[test]
fn relative_goes_under_home() {
    let s = user("alice", 1);
    assert_eq!(resolve_user_path(&s, "notes/idea.md"), "/home/alice/notes/idea.md");
}

#[test]
fn tilde_expands_to_home() {
    let s = user("alice", 1);
    assert_eq!(resolve_user_path(&s, "~"), "/home/alice");
    assert_eq!(resolve_user_path(&s, "~/notes/idea.md"), "/home/alice/notes/idea.md");
}

#[test]
fn empty_is_home() {
    let s = user("alice", 1);
    assert_eq!(resolve_user_path(&s, ""), "/home/alice");
}

#[test]
fn root_relative_stays_at_root() {
    let s = Session::root();
    assert_eq!(resolve_user_path(&s, "notes/idea.md"), "/notes/idea.md");
    assert_eq!(resolve_user_path(&s, ""), "/");
    assert_eq!(resolve_user_path(&s, "~"), "/");
}

#[test]
fn delegate_home_wins() {
    let mut agent = user("notes-agent", 5);
    agent.delegate = Some(DelegateContext {
        uid: 1,
        gid: 1,
        groups: vec![1],
        username: "alice".to_string(),
    });
    assert_eq!(resolve_user_path(&agent, "notes/idea.md"), "/home/alice/notes/idea.md");
}
