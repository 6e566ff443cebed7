use markdownfs::auth::session::Session;
use markdownfs::config::Config;
use markdownfs::db::DbState;
use markdownfs::client::{auth_headers, ClientAuth};
use markdownfs::fs::inode::Timestamp;
use markdownfs::mcp::{handle_tool, read_resource, ResourceError, ToolArgs};
use markdownfs::server::middleware::{apply_delegation, principal_from_header};
use markdownfs::server::routes_admin::parse_mode;
use markdownfs::server::routes_auth::{bootstrap, whoami};
use markdownfs::server::routes_fs::{get_fs, post_fs, put_fs, FsGet, FsPut};

fn no_args() -> ToolArgs {
    ToolArgs {
        path: None,
        content: None,
        pattern: None,
        name: None,
        recursive: None,
        source: None,
        destination: None,
        message: None,
        hash: None,
    }
}

#[test]
fn db_reports_writes() {
    let mut db = DbState::new();
    let mut s = Session::root();
    let (r, dirty) = db.execute_command("touch /a.md", &mut s);
    assert!(r.is_ok());
    assert!(dirty);
    let (r, dirty) = db.execute_command("ls /", &mut s);
    assert!(r.is_ok());
    assert!(!dirty);
    let (r, dirty) = db.execute_command("commit saved", &mut s);
    assert!(r.unwrap().ends_with("] saved\n"));
    assert!(dirty);
}

#[test]
fn db_refuses_large_files() {
    let mut db = DbState::new();
    db.fs.touch("/big.md", 0, 0).unwrap();
    let err = db.write_file("/big.md", vec![b'x'; 11], 10).unwrap_err();
    assert_eq!(err.message(), "markdownfs: file size 11 exceeds max 10");
    db.write_file("/big.md", vec![b'x'; 10], 10).unwrap();
}

#[test]
fn db_admin_and_login() {
    let mut db = DbState::new();
    assert!(!db.has_users());
    let admin = db.create_admin("alice").unwrap();
    assert_eq!(admin.username, "alice");
    assert!(db.has_users());
    let (is_wheel, is_agent) = db.principal_flags(admin.uid);
    assert!(is_wheel);
    assert!(!is_agent);
    assert!(db.fs.stat("/home/alice").is_ok());
    assert_eq!(db.fs.stat("/home/alice").unwrap().mode, 0o700);
    let s = db.login("alice").unwrap();
    assert_eq!(s.uid, admin.uid);
    assert!(db.login("nobody").is_err());
    let users = db.admin_list_users(&admin).unwrap();
    assert_eq!(users.len(), 2);
    assert_eq!(users[1].name, "alice");
    assert!(users[1].groups.contains(&"wheel".to_string()));
    let outsider = Session::new(42, 42, vec![42], "eve".to_string());
    assert!(db.admin_list_groups(&outsider).is_err());
    let (uid, token) = db.admin_add_user(&admin, "bot", true).unwrap();
    let token = token.unwrap();
    assert_eq!(db.authenticate_token(&token).unwrap().uid, uid);
    assert!(db.authenticate_token("nope").is_err());
}

#[test]
fn mcp_tools() {
    let mut db = DbState::new();
    let s = Session::root();
    let mut args = no_args();
    args.path = Some("/notes/a.md".to_string());
    args.content = Some("hello".to_string());
    let (r, dirty) = handle_tool(&mut db, &s, 1000, "write_file", &args);
    assert_eq!(r.unwrap(), "Written 5 bytes to /notes/a.md");
    assert!(dirty);
    let (r, dirty) = handle_tool(&mut db, &s, 1000, "read_file", &args);
    assert_eq!(r.unwrap(), "hello");
    assert!(!dirty);
    let (r, _) = handle_tool(&mut db, &s, 1000, "get_history", &no_args());
    assert_eq!(r.unwrap(), "No commits yet.");
    let (r, _) = handle_tool(&mut db, &s, 1000, "read_file", &no_args());
    assert_eq!(r.unwrap_err(), "missing path");
    let (r, _) = handle_tool(&mut db, &s, 1000, "fly", &no_args());
    assert_eq!(r.unwrap_err(), "unknown tool: fly");
    let mut search = no_args();
    search.pattern = Some("nothing-here".to_string());
    let (r, _) = handle_tool(&mut db, &s, 1000, "search_files", &search);
    assert_eq!(r.unwrap(), "No matches found.");
}

#[test]
fn http_file_routes() {
    let mut db = DbState::new();
    let s = Session::root();
    let (r, dirty) = put_fs(&mut db, &s, "/d/x.md", false, b"abc".to_vec(), 100);
    assert!(matches!(r, Ok(FsPut::Written(3))));
    assert!(dirty);
    match get_fs(&db, &s, "/d/x.md", false) {
        Ok(FsGet::File(c)) => assert_eq!(c, b"abc".to_vec()),
        _ => panic!("expected file content"),
    }
    match get_fs(&db, &s, "/d", false) {
        Ok(FsGet::Listing(es)) => assert_eq!(es.len(), 1),
        _ => panic!("expected a listing"),
    }
    let missing = get_fs(&db, &s, "/nope.md", false).err().unwrap();
    assert_eq!(missing.status, 404);
    assert_eq!(missing.message, "not found: /nope.md");
    let bad = post_fs(&mut db, &s, "/d/x.md", Some("spin"), None).err().unwrap();
    assert_eq!(bad.status, 400);
    assert_eq!(bad.message, "unknown op: spin");
    post_fs(&mut db, &s, "/d/x.md", Some("copy"), Some("/d/y.md")).unwrap();
    assert_eq!(db.fs.cat("/d/y.md").unwrap(), b"abc");
}

#[test]
fn modes_and_identity() {
    assert_eq!(parse_mode("755"), Some(0o755));
    assert_eq!(parse_mode("0644"), Some(0o644));
    assert_eq!(parse_mode("000"), Some(0));
    assert_eq!(parse_mode("9"), None);
    assert_eq!(parse_mode("1000000"), None);
    let s = Session::root();
    let w = whoami(&s, "User root");
    assert!(w.is_root);
    assert!(w.authenticated);
    assert!(!whoami(&s, "").authenticated);
}

#[test]
fn bootstrap_only_once() {
    let mut db = DbState::new();
    let (r, dirty) = bootstrap(&mut db, "admin");
    let token = r.ok().unwrap();
    assert!(dirty);
    assert_eq!(db.authenticate_token(&token).unwrap().username, "admin");
    let (again, _) = bootstrap(&mut db, "other");
    assert_eq!(again.err().unwrap().status, 409);
}

#[test]
fn headers_name_principal_and_delegate() {
    let mut db = DbState::new();
    db.create_admin("alice").unwrap();
    let root = principal_from_header(&db, None).unwrap();
    assert_eq!(root.uid, 0);
    let alice = principal_from_header(&db, Some("User alice")).unwrap();
    assert_eq!(alice.username, "alice");
    assert!(principal_from_header(&db, Some("Bearer bogus")).is_err());
    let mut s = Session::root();
    apply_delegation(&db, Some(" User alice "), &mut s).unwrap();
    assert_eq!(s.delegate.as_ref().unwrap().username, "alice");
    let mut g = Session::root();
    apply_delegation(&db, Some(":wheel"), &mut g).unwrap();
    assert_eq!(g.delegate.as_ref().unwrap().uid, u32::MAX);
    assert_eq!(g.delegate.as_ref().unwrap().username, ":wheel");
    let mut nobody = Session::new(9, 9, vec![9], "nobody".to_string());
    assert!(apply_delegation(&db, Some("alice"), &mut nobody).is_err());
    assert!(nobody.delegate.is_none());
}

#[test]
fn config_defaults_and_overrides() {
    let c = Config::from_settings("/data", None, None, Some("7"), Some("oops"), None, None);
    assert_eq!(c.listen_addr, "127.0.0.1:3000");
    assert_eq!(c.auto_save_interval_secs, 5);
    assert_eq!(c.auto_save_write_threshold, 7);
    assert_eq!(c.max_file_size, 10 * 1024 * 1024);
    assert_eq!(c.max_inodes, 1_000_000);
    assert_eq!(c.max_dir_depth, 256);
    let c = c.with_data_dir("/other").with_listen_addr("0.0.0.0:80");
    assert_eq!(c.data_dir, "/other");
    assert_eq!(c.listen_addr, "0.0.0.0:80");
}

#[test]
fn client_auth_headers() {
    assert!(auth_headers(&ClientAuth::Root).is_empty());
    let h = auth_headers(&ClientAuth::User("alice".to_string()));
    assert_eq!((h[0].name.as_str(), h[0].value.as_str()), ("authorization", "User alice"));
    let h = auth_headers(&ClientAuth::WorkspaceBearer {
        workspace_id: 0x0123_4567_89ab_cdef_0011_2233_4455_6677,
        secret: "s3".to_string(),
    });
    assert_eq!(h.len(), 2);
    assert_eq!(h[0].value, "Bearer s3");
    assert_eq!(h[1].name, "x-markdownfs-workspace");
    assert_eq!(h[1].value, "01234567-89ab-cdef-0011-223344556677");
}

#[test]
fn mcp_resources() {
    let mut fs = markdownfs::fs::VirtualFs::new();
    fs.touch("/a.md", 0, 0).unwrap();
    fs.write_file("/a.md", b"alpha".to_vec()).unwrap();
    assert_eq!(read_resource(&fs, "mdfs://files/a.md").unwrap(), "alpha");
    assert_eq!(read_resource(&fs, "markdownfs://files/a.md").unwrap(), "alpha");
    assert!(read_resource(&fs, "mdfs://tree").unwrap().starts_with(".\n"));
    assert!(matches!(read_resource(&fs, "mdfs://files/none.md"), Err(ResourceError::Internal(_))));
    match read_resource(&fs, "ftp://x") {
        Err(ResourceError::InvalidParams(m)) => assert_eq!(m, "unknown resource: ftp://x"),
        _ => panic!("expected an unknown resource"),
    }
}

#[test]
fn timestamps_before_the_epoch_read_zero() {
    let t = Timestamp::from_offset(None);
    assert_eq!((t.secs, t.nanos), (0, 0));
    let t = Timestamp::from_offset(Some((5, 7)));
    assert_eq!((t.secs, t.nanos), (5, 7));
    assert!(Timestamp::now().nanos < 1_000_000_000);
}

#[test]
fn mcp_write_file_creates_with_the_sessions_owner() {
    let mut db = DbState::new();
    db.fs.mkdir("/shared", 0, 0).unwrap();
    db.fs.chmod("/shared", 0o777).unwrap();
    let s = Session::new(7, 9, vec![9], "bot".to_string());
    let mut args = no_args();
    args.path = Some("/shared/a.md".to_string());
    args.content = Some("hi".to_string());
    let (r, dirty) = handle_tool(&mut db, &s, 1000, "write_file", &args);
    assert_eq!(r.unwrap(), "Written 2 bytes to /shared/a.md");
    assert!(dirty);
    let file = db.fs.stat("/shared/a.md").unwrap();
    assert_eq!((file.uid, file.gid, file.mode), (7, 9, 0o644));
    assert_eq!(db.fs.stat("/shared").unwrap().uid, 0);
    args.path = Some("/shared/notes/b.md".to_string());
    let (r, _) = handle_tool(&mut db, &s, 1000, "write_file", &args);
    assert!(r.is_err());
    let root = Session::root();
    let (r, _) = handle_tool(&mut db, &root, 1000, "write_file", &args);
    assert!(r.is_ok());
    let dir = db.fs.stat("/shared/notes").unwrap();
    assert_eq!((dir.kind, dir.uid), ("directory", 0));
}
