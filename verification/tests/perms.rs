use markdownfs::auth::perms::{check_permission, has_setgid, has_sticky_bit, Access};
use markdownfs::auth::ROOT_UID;
use markdownfs::fs::inode::Inode;

fn make_file(mode: u16, uid: u32, gid: u32) -> Inode {
    let mut inode = Inode::new_file(1, uid, gid);
    inode.mode = mode;
    inode
}

#[test]
fn test_root_bypasses_all() {
    let inode = make_file(0o000, 99, 99);
    assert!(check_permission(&inode, ROOT_UID, &[0], Access::Read));
    assert!(check_permission(&inode, ROOT_UID, &[0], Access::Write));
    assert!(check_permission(&inode, ROOT_UID, &[0], Access::Execute));
}

#[test]
fn test_owner_permissions() {
    let inode = make_file(0o600, 1, 10);
    assert!(check_permission(&inode, 1, &[10], Access::Read));
    assert!(check_permission(&inode, 1, &[10], Access::Write));
    assert!(!check_permission(&inode, 1, &[10], Access::Execute));
}

#[test]
fn test_group_permissions() {
    let inode = make_file(0o050, 1, 10);
    assert!(!check_permission(&inode, 2, &[10], Access::Write));
    assert!(check_permission(&inode, 2, &[10], Access::Read));
    assert!(check_permission(&inode, 2, &[10], Access::Execute));
}

#[test]
fn test_other_permissions() {
    let inode = make_file(0o004, 1, 10);
    assert!(check_permission(&inode, 99, &[99], Access::Read));
    assert!(!check_permission(&inode, 99, &[99], Access::Write));
}

#[test]
fn test_no_permissions() {
    let inode = make_file(0o000, 1, 10);
    assert!(!check_permission(&inode, 2, &[20], Access::Read));
    assert!(!check_permission(&inode, 2, &[20], Access::Write));
    assert!(!check_permission(&inode, 2, &[20], Access::Execute));
}

#[test]
fn test_sticky_and_setgid() {
    assert!(has_sticky_bit(0o1755));
    assert!(!has_sticky_bit(0o0755));
    assert!(has_setgid(0o2755));
    assert!(!has_setgid(0o0755));
}
