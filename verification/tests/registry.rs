use markdownfs::auth::registry::UserRegistry;
use markdownfs::auth::{ROOT_GID, ROOT_UID, WHEEL_GID};

#[test]
fn test_bootstrap() {
    let reg = UserRegistry::new();
    assert!(reg.get_user(ROOT_UID).is_some());
    assert_eq!(reg.get_user(ROOT_UID).unwrap().name, "root");
    assert!(reg.get_group(ROOT_GID).is_some());
    assert!(reg.get_group(WHEEL_GID).is_some());
    assert!(reg.is_wheel_member(ROOT_UID));
}

#[test]
fn test_add_user() {
    let mut reg = UserRegistry::new();
    let (uid, token) = reg.add_user("alice", false).unwrap();
    assert_eq!(uid, 1);
    assert!(token.is_none());
    assert_eq!(reg.lookup_uid("alice"), Some(1));
    assert!(reg.get_user(1).is_some());
    assert!(reg.lookup_gid("alice").is_some());
}

#[test]
fn test_add_agent() {
    let mut reg = UserRegistry::new();
    let (uid, token) = reg.add_user("bot1", true).unwrap();
    assert!(token.is_some());
    let raw = token.unwrap();
    assert_eq!(reg.authenticate_token(&raw), Some(uid));
    assert_eq!(reg.authenticate_token("wrong-token"), None);
}

#[test]
fn test_del_user() {
    let mut reg = UserRegistry::new();
    reg.add_user("bob", false).unwrap();
    assert!(reg.lookup_uid("bob").is_some());
    reg.del_user("bob").unwrap();
    assert!(reg.lookup_uid("bob").is_none());
}

#[test]
fn test_cannot_delete_root() {
    let mut reg = UserRegistry::new();
    assert!(reg.del_user("root").is_err());
}

#[test]
fn test_add_group_and_membership() {
    let mut reg = UserRegistry::new();
    reg.add_user("alice", false).unwrap();
    let gid = reg.add_group("devs").unwrap();
    reg.usermod_add_group("alice", "devs").unwrap();
    assert!(reg.user_in_group(1, gid));
    reg.usermod_remove_group("alice", "devs").unwrap();
    assert!(!reg.user_in_group(1, gid));
}

#[test]
fn test_duplicate_user() {
    let mut reg = UserRegistry::new();
    reg.add_user("alice", false).unwrap();
    assert!(reg.add_user("alice", false).is_err());
}

#[test]
fn test_cannot_delete_system_groups() {
    let mut reg = UserRegistry::new();
    assert!(reg.del_group("root").is_err());
    assert!(reg.del_group("wheel").is_err());
}

#[test]
fn regenerated_token_replaces_the_old_one() {
    let mut reg = UserRegistry::new();
    let (uid, token) = reg.add_user("bot2", true).unwrap();
    let first = token.unwrap();
    assert_eq!(reg.authenticate_token(&first), Some(uid));
    let second = reg.regenerate_token("bot2").unwrap();
    assert_ne!(first, second);
    assert_eq!(second.len(), 64);
    assert_eq!(reg.authenticate_token(&second), Some(uid));
    assert_eq!(reg.authenticate_token(&first), None);
    assert!(reg.regenerate_token("nobody").is_err());
}
