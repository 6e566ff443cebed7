use markdownfs::auth::session::Session;
use markdownfs::fs::VirtualFs;

#[test]
fn write_then_cat_gives_content() {
    let mut fs = VirtualFs::new();
    fs.touch("/notes.md", 0, 0).unwrap();
    fs.write_file("/notes.md", b"# Title\nbody".to_vec()).unwrap();
    assert_eq!(fs.cat("/notes.md").unwrap(), b"# Title\nbody");
    fs.write_file("/notes.md", b"second".to_vec()).unwrap();
    assert_eq!(fs.cat("/notes.md").unwrap(), b"second");
}

#[test]
fn touch_refuses_non_markdown() {
    let mut fs = VirtualFs::new();
    assert!(fs.touch("/notes.txt", 0, 0).is_err());
    assert!(fs.cat("/notes.txt").is_err());
}

#[test]
fn mkdir_and_ls_sorted() {
    let mut fs = VirtualFs::new();
    fs.mkdir("/docs", 0, 0).unwrap();
    fs.touch("/docs/b.md", 0, 0).unwrap();
    fs.touch("/docs/a.md", 0, 0).unwrap();
    let entries = fs.ls(Some("/docs")).unwrap();
    let names: Vec<String> = entries.iter().map(|e| e.name.clone()).collect();
    assert_eq!(names, vec!["a.md".to_string(), "b.md".to_string()]);
    assert!(fs.mkdir("/docs", 0, 0).is_err());
}

#[test]
fn mkdir_p_makes_parents() {
    let mut fs = VirtualFs::new();
    fs.mkdir_p("/a/b/c", 0, 0).unwrap();
    assert!(fs.stat("/a/b/c").is_ok());
    fs.mkdir_p("/a/b/c", 0, 0).unwrap();
}

#[test]
fn rm_then_missing() {
    let mut fs = VirtualFs::new();
    fs.touch("/x.md", 0, 0).unwrap();
    fs.rm("/x.md").unwrap();
    assert!(fs.cat("/x.md").is_err());
    assert!(fs.rm("/x.md").is_err());
}

#[test]
fn rm_rf_keeps_root() {
    let mut fs = VirtualFs::new();
    fs.mkdir_p("/p/q", 0, 0).unwrap();
    fs.touch("/p/q/r.md", 0, 0).unwrap();
    fs.rm_rf("/p").unwrap();
    assert!(fs.stat("/p").is_err());
    assert!(fs.rm_rf("/").is_err());
}

#[test]
fn mv_and_cp_move_content() {
    let mut fs = VirtualFs::new();
    fs.touch("/a.md", 0, 0).unwrap();
    fs.write_file("/a.md", b"data".to_vec()).unwrap();
    fs.cp("/a.md", "/b.md", 0, 0).unwrap();
    assert_eq!(fs.cat("/b.md").unwrap(), b"data");
    fs.mv("/a.md", "/c.md").unwrap();
    assert!(fs.cat("/a.md").is_err());
    assert_eq!(fs.cat("/c.md").unwrap(), b"data");
}

#[test]
fn chmod_and_chown_show_in_stat() {
    let mut fs = VirtualFs::new();
    fs.touch("/a.md", 0, 0).unwrap();
    fs.chmod("/a.md", 0o640).unwrap();
    fs.chown("/a.md", 7, 8).unwrap();
    let info = fs.stat("/a.md").unwrap();
    assert_eq!(info.mode, 0o640);
    assert_eq!(info.uid, 7);
    assert_eq!(info.gid, 8);
    assert_eq!(info.kind, "file");
}

#[test]
fn truncate_cuts_and_extends() {
    let mut fs = VirtualFs::new();
    fs.touch("/t.md", 0, 0).unwrap();
    fs.write_file("/t.md", b"abcdef".to_vec()).unwrap();
    fs.truncate("/t.md", 3).unwrap();
    assert_eq!(fs.cat("/t.md").unwrap(), b"abc");
    fs.truncate("/t.md", 5).unwrap();
    assert_eq!(fs.cat("/t.md").unwrap(), b"abc\0\0");
}

#[test]
fn symlink_is_followed_by_cat() {
    let mut fs = VirtualFs::new();
    fs.touch("/target.md", 0, 0).unwrap();
    fs.write_file("/target.md", b"linked".to_vec()).unwrap();
    fs.ln_s("/target.md", "/link.md", 0, 0).unwrap();
    assert_eq!(fs.cat("/link.md").unwrap(), b"linked");
}

#[test]
fn cd_and_pwd() {
    let mut fs = VirtualFs::new();
    assert_eq!(fs.pwd(), "/");
    fs.mkdir_p("/home/alice", 0, 0).unwrap();
    fs.cd("/home/alice").unwrap();
    assert_eq!(fs.pwd(), "/home/alice");
    fs.cd("..").unwrap();
    assert_eq!(fs.pwd(), "/home");
    assert!(fs.cd("/nowhere").is_err());
}

#[test]
fn find_and_grep() {
    let mut fs = VirtualFs::new();
    let root = Session::root();
    fs.mkdir("/n", 0, 0).unwrap();
    fs.touch("/n/a.md", 0, 0).unwrap();
    fs.write_file("/n/a.md", b"TODO one\nnothing\nTODO two".to_vec()).unwrap();
    fs.touch("/n/b.md", 0, 0).unwrap();
    let found = fs.find(Some("/n"), Some("a*"), Some(&root)).unwrap();
    assert_eq!(found, vec!["/n/a.md".to_string()]);
    let hits = fs.grep("TODO", Some("/n"), true, Some(&root)).unwrap();
    assert_eq!(hits.len(), 2);
    assert_eq!(hits[0].line_num, 1);
    assert_eq!(hits[1].line, "TODO two");
    assert!(fs.grep("(", Some("/n"), true, Some(&root)).is_err());
}

#[test]
fn mkdir_p_makes_missing_directories_and_refuses_a_file_on_the_way() {
    let mut fs = VirtualFs::new();
    fs.mkdir_p("/a/./b/c", 0, 0).unwrap();
    assert!(fs.stat("/a/b/c").is_ok());
    fs.touch("/a/f.md", 0, 0).unwrap();
    assert!(fs.mkdir_p("/a/f.md/x", 0, 0).is_err());
    assert!(fs.mkdir_p("/a/b", 0, 0).is_ok());
}
