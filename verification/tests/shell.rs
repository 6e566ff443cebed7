use markdownfs::auth::session::Session;
use markdownfs::cmd::execute_pipeline;
use markdownfs::cmd::parser::parse_pipeline;
use markdownfs::fs::VirtualFs;
use markdownfs::repl::{edit_step, edit_target, execute_line, finish_edit, EditStep};
use markdownfs::vcs::Vcs;

fn run(fs: &mut VirtualFs, session: &mut Session, line: &str) -> Result<String, String> {
    let p = parse_pipeline(line);
    execute_pipeline(&p, fs, session).map_err(|e| e.message())
}

#[test]
fn echo_joins_arguments() {
    let mut fs = VirtualFs::new();
    let mut s = Session::root();
    assert_eq!(run(&mut fs, &mut s, "echo hello   world").unwrap(), "hello world\n");
}

#[test]
fn pipes_count_lines() {
    let mut fs = VirtualFs::new();
    let mut s = Session::root();
    assert_eq!(run(&mut fs, &mut s, "echo one two | wc -w").unwrap(), "2\n");
    assert_eq!(run(&mut fs, &mut s, "echo abc | wc -c").unwrap(), "4\n");
}

#[test]
fn unknown_command_is_an_error() {
    let mut fs = VirtualFs::new();
    let mut s = Session::root();
    let err = run(&mut fs, &mut s, "frobnicate").unwrap_err();
    assert!(err.contains("frobnicate"));
}

#[test]
fn write_and_cat_through_the_shell() {
    let mut fs = VirtualFs::new();
    let mut s = Session::root();
    run(&mut fs, &mut s, "touch /n.md").unwrap();
    run(&mut fs, &mut s, "echo hi there | write /n.md").unwrap();
    assert_eq!(run(&mut fs, &mut s, "cat /n.md").unwrap(), "hi there\n");
    assert_eq!(run(&mut fs, &mut s, "pwd").unwrap(), "/\n");
    assert_eq!(run(&mut fs, &mut s, "whoami").unwrap(), "root\n");
}

#[test]
fn commit_log_status_at_the_prompt() {
    let mut fs = VirtualFs::new();
    let mut vcs = Vcs::new();
    let mut s = Session::root();
    assert_eq!(execute_line("log", &mut fs, &mut vcs, &mut s).unwrap(), "No commits yet.\n");
    assert_eq!(execute_line("status", &mut fs, &mut vcs, &mut s).unwrap(), "No commits yet.\n");
    execute_line("touch /a.md", &mut fs, &mut vcs, &mut s).unwrap();
    let out = execute_line("commit first version", &mut fs, &mut vcs, &mut s).unwrap();
    assert!(out.starts_with('['));
    assert!(out.ends_with("] first version\n"));
    assert_eq!(vcs.commits.len(), 1);
    assert_eq!(vcs.commits[0].message, "first version");
    assert_eq!(vcs.commits[0].author, "root");
    let snap = execute_line("commit", &mut fs, &mut vcs, &mut s).unwrap();
    assert!(snap.ends_with("] snapshot\n"));
    let log = execute_line("log", &mut fs, &mut vcs, &mut s).unwrap();
    assert!(log.find("snapshot").unwrap() < log.find("first version").unwrap());
    assert!(execute_line("revert", &mut fs, &mut vcs, &mut s).is_err());
    assert!(execute_line("", &mut fs, &mut vcs, &mut s).unwrap().is_empty());
}

#[test]
fn revert_brings_back_content() {
    let mut fs = VirtualFs::new();
    let mut vcs = Vcs::new();
    let mut s = Session::root();
    execute_line("touch /a.md", &mut fs, &mut vcs, &mut s).unwrap();
    fs.write_file("/a.md", b"old".to_vec()).unwrap();
    execute_line("commit one", &mut fs, &mut vcs, &mut s).unwrap();
    let hash = vcs.commits[0].id.short_hex();
    fs.write_file("/a.md", b"new".to_vec()).unwrap();
    let out = execute_line(&format!("revert {hash}"), &mut fs, &mut vcs, &mut s).unwrap();
    assert_eq!(out, format!("Reverted to {hash}\n"));
    assert_eq!(fs.cat("/a.md").unwrap(), b"old");
    assert!(execute_line("revert zzzz", &mut fs, &mut vcs, &mut s).is_err());
}

#[test]
fn editor_steps() {
    assert_eq!(edit_target("edit notes.md").unwrap(), "notes.md");
    assert_eq!(edit_target("edit   ").unwrap_err(), "markdownfs: edit: missing file path");
    assert_eq!(
        edit_target("edit a.txt").unwrap_err(),
        "markdownfs: only .md files are supported: 'a.txt'"
    );
    assert_eq!(edit_step(" EOF "), EditStep::Finish);
    assert_eq!(edit_step("CANCEL"), EditStep::Cancel);
    assert_eq!(edit_step("text"), EditStep::Append);
}

#[test]
fn finish_edit_writes_and_commits() {
    let mut fs = VirtualFs::new();
    let mut vcs = Vcs::new();
    let s = Session::root();
    let out = finish_edit(&mut fs, &mut vcs, &s, "/e.md", "line one\nline two\n".to_string()).unwrap();
    assert!(out.ends_with("] edit /e.md"));
    assert_eq!(fs.cat("/e.md").unwrap(), b"line one\nline two");
    assert_eq!(vcs.commits[0].message, "edit /e.md");
    let preview = markdownfs::repl::edit_preview(&fs, "/e.md");
    assert_eq!(
        preview,
        "--- Current content of /e.md ---\n   1 | line one\n   2 | line two\n--- End ---\n"
    );
}

#[test]
fn written_notes_are_read_back_through_pipes() {
    let mut fs = VirtualFs::new();
    let mut s = Session::root();
    assert_eq!(run(&mut fs, &mut s, r##"echo "# My Notes" | write notes.md"##).unwrap(), "");
    assert_eq!(run(&mut fs, &mut s, r#"cat notes.md | grep "Notes" | wc -l"#).unwrap(), "1\n");
    assert_eq!(fs.cat("notes.md").unwrap(), &b"# My Notes\n"[..]);
}

#[test]
fn single_operand_file_commands_through_the_shell() {
    let mut fs = VirtualFs::new();
    let mut s = Session::root();
    assert_eq!(run(&mut fs, &mut s, "mkdir docs").unwrap(), "");
    assert_eq!(run(&mut fs, &mut s, "touch docs/a.md").unwrap(), "");
    assert_eq!(run(&mut fs, &mut s, "write docs/a.md hello there").unwrap(), "");
    assert_eq!(run(&mut fs, &mut s, "cp docs/a.md docs/b.md").unwrap(), "");
    assert_eq!(run(&mut fs, &mut s, "mv docs/b.md c.md").unwrap(), "");
    assert_eq!(run(&mut fs, &mut s, "cat c.md").unwrap(), "hello there");
    assert!(run(&mut fs, &mut s, "rmdir docs").is_err());
    assert_eq!(run(&mut fs, &mut s, "rm docs/a.md").unwrap(), "");
    assert_eq!(run(&mut fs, &mut s, "rmdir docs").unwrap(), "");
    assert!(run(&mut fs, &mut s, "cat docs/a.md").is_err());
    assert_eq!(run(&mut fs, &mut s, "mkdir tmp").unwrap(), "");
    assert_eq!(run(&mut fs, &mut s, "touch tmp/x.md").unwrap(), "");
    assert_eq!(run(&mut fs, &mut s, "rm -r tmp").unwrap(), "");
    assert!(run(&mut fs, &mut s, "cat tmp/x.md").is_err());
    assert!(run(&mut fs, &mut s, "touch notes.txt").is_err());
}

#[test]
fn user_commands_through_the_shell() {
    let mut fs = VirtualFs::new();
    let mut s = Session::root();
    assert!(run(&mut fs, &mut s, "adduser alice").unwrap().starts_with("User 'alice' created (uid="));
    assert_eq!(run(&mut fs, &mut s, "adduser alice").unwrap_err(), "markdownfs: user already exists: alice");
    assert!(run(&mut fs, &mut s, "addgroup team").unwrap().starts_with("Group 'team' created (gid="));
    assert_eq!(run(&mut fs, &mut s, "usermod -aG team alice").unwrap(), "Added 'alice' to group 'team'\n");
    assert!(run(&mut fs, &mut s, "usermod -aG nogroup alice").is_err());
    assert_eq!(run(&mut fs, &mut s, "delgroup team").unwrap(), "Group 'team' deleted\n");
    assert_eq!(run(&mut fs, &mut s, "deluser alice").unwrap(), "User 'alice' deleted\n");
    assert!(run(&mut fs, &mut s, "deluser root").is_err());
}

#[test]
fn operands_run_in_order_until_one_fails() {
    let mut fs = VirtualFs::new();
    let mut s = Session::root();
    assert!(run(&mut fs, &mut s, "touch a.md b.txt c.md").is_err());
    assert!(fs.cat("a.md").is_ok());
    assert!(fs.cat("c.md").is_err());
    assert_eq!(run(&mut fs, &mut s, "mkdir -p x/y z").unwrap(), "");
    assert!(fs.stat("x/y").is_ok());
    assert!(fs.stat("z").is_ok());
    assert_eq!(run(&mut fs, &mut s, "rm -r x a.md").unwrap(), "");
    assert!(fs.stat("x").is_err());
    assert!(fs.cat("a.md").is_err());
}
