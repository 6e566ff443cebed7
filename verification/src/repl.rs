//! The interactive shell's own logic: logging in, the version-control
//! commands that do not go through pipes, and the line editor's steps.
//! Reading lines and printing stay with the program that drives it.

use vstd::prelude::*;
use crate::auth::registry::{group_of, user_of, UserRegistry, UserView};
use crate::auth::session::Session;
use crate::auth::{first_or_zero, ROOT_UID};
use crate::cmd::parser::{commands_of, parse_pipeline, pipe_segments, trim, trim_chars, ParsedCommand};
use crate::cmd::{
    chrono_format, chrono_time, execute_pipeline, join_strings, join_with, kind_of, line_ran, pad_left, push_padded_left,
    require_ids, require_user_ids,
};
use crate::error::{message_of, ErrorView, VfsError};
use crate::fs::growth::no_up;
use crate::fs::{components, is_markdown, last_segment};
use crate::fs::VirtualFs;
use crate::store::commit::{CommitObject, CommitView};
use crate::text::{
    decimal, decimal_string, ends_with, from_chars, has_prefix, has_suffix, hex_of, lines_of, owned, push_str, split_lines, str_eq, to_chars, utf8_lossy, utf8_lossy_string,
};
use crate::vcs::{matching, revert_owed, snap_dir, status_text, Vcs};

verus! {

// ───── Logging in ─────

/// Whether some user other than root exists.
pub open spec fn has_other_user(us: Seq<UserView>) -> bool {
    exists|i: int| 0 <= i < us.len() && #[trigger] us[i].uid != ROOT_UID
}

/// Whether a user other than root exists: on a fresh system the shell first
/// asks for an administrator.
pub fn has_users(registry: &UserRegistry) -> (r: bool)
    ensures
        r == has_other_user(registry.users()),
{
    let users = registry.list_users();
    let mut i: usize = 0;
    while i < users.len()
        invariant
            i <= users@.len(),
            users@.len() == registry.users().len(),
            forall|j: int| 0 <= j < users@.len() ==> #[trigger] users@[j]@ == registry.users()[j],
            forall|j: int| 0 <= j < i ==> #[trigger] registry.users()[j].uid == ROOT_UID,
        decreases users.len() - i,
    {
        let u = users[i];
        assert(u@ == registry.users()[i as int]);
        if u.uid != ROOT_UID {
            assert(registry.users()[i as int].uid != ROOT_UID);
            return true;
        }
        i += 1;
    }
    false
}

/// What a session of a registered user holds.
pub open spec fn session_of(s: Session, u: UserView) -> bool {
    &&& s.uid == u.uid
    &&& s.gid == first_or_zero(u.groups)
    &&& s.groups@ == u.groups
    &&& s.username@ == u.name
    &&& s.delegate is None
}

/// The session of the user named `name`, if there is one.
pub fn login_as(registry: &UserRegistry, name: &str) -> (r: Option<Session>)
    requires
        registry.inv(),
    ensures
        !registry.uid_index().contains_key(name@) ==> r is None,
        registry.uid_index().contains_key(name@) ==> r is Some && (user_of(
            registry.users(),
            registry.uid_index()[name@],
        ) matches Some(u) && session_of(r->0, u)),
{
    match registry.lookup_uid(name) {
        None => None,
        Some(uid) => {
            proof {
                registry.lemma_indexed_user(name@);
            }
            match registry.get_user(uid) {
                Some(user) => Some(Session::for_user(user)),
                None => None,
            }
        },
    }
}

/// The first administrator: a new user `name`, added to the wheel group,
/// and its session.
pub fn create_first_admin(fs: &mut VirtualFs, name: &str) -> (r: Result<Session, VfsError>)
    requires
        old(fs).wf(),
    ensures
        final(fs).wf(),
        final(fs).inodes() == old(fs).inodes(),
        final(fs).cwd() == old(fs).cwd(),
        old(fs).reg().uid_index().contains_key(name@) ==> r is Err && r->Err_0@ == ErrorView::AuthError(
            "user already exists: "@ + name@,
        ),
        r is Ok ==> final(fs).reg().uid_index().contains_key(name@) && (user_of(
            final(fs).reg().users(),
            final(fs).reg().uid_index()[name@],
        ) matches Some(u) && session_of(r->Ok_0, u) && u.name == name@),
        r is Ok ==> r->Ok_0.uid == old(fs).reg().next_uid() && r->Ok_0.username@ == name@
            && final(fs).reg().uid_index()[name@] == old(fs).reg().next_uid(),
        !old(fs).reg().uid_index().contains_key(name@) && old(fs).reg().next_uid() < u32::MAX && old(fs).reg().next_gid() < u32::MAX ==> r is Ok,
        r is Ok && old(fs).reg().gid_index().contains_key("wheel"@) ==> {
            let uid = final(fs).reg().uid_index()[name@];
            let g = final(fs).reg().gid_index()["wheel"@];
            &&& user_of(final(fs).reg().users(), uid) matches Some(u) && u.groups.contains(g)
            &&& group_of(final(fs).reg().groups(), g) matches Some(gv) && gv.members.contains(uid)
        },
{
    if fs.registry().lookup_uid(name).is_some() {
        let mut message = owned("user already exists: ");
        push_str(&mut message, name);
        return Err(VfsError::AuthError { message });
    }
    require_user_ids(fs)?;
    let ghost before = *fs;
    let (uid, _) = fs.registry_mut().add_user(name, false)?;
    let ghost reg1 = fs.reg();
    proof {
        reg1.lemma_user_at(reg1.users().len() - 1);
    }
    let wheel = "wheel";
    let _ = fs.registry_mut().usermod_add_group(name, wheel);
    proof {
        before.lemma_tree_wf_frame(fs);
        let reg2 = fs.reg();
        let ui = crate::auth::registry::uid_pos(reg1.users(), uid);
        reg1.lemma_indexed_user(name@);
        assert(reg1.uid_index()[name@] == uid);
        assert(reg1.users()[ui].uid == uid);
        if reg2.users() != reg1.users() {
            reg2.lemma_user_at(ui);
        }
        if reg1.gid_index().contains_key(wheel@) {
            let g = reg1.gid_index()[wheel@];
            reg1.lemma_indexed_group(wheel@);
            let gi = crate::auth::registry::gid_pos(reg1.groups(), g);
            assert(reg1.groups()[gi].gid == g);
            assert(reg2.users()[ui].uid == uid);
            let u = reg1.users()[ui];
            if !u.groups.contains(g) {
                assert(u.groups.push(g)[u.groups.len() as int] == g);
            }
            let gv = reg1.groups()[gi];
            if !gv.members.contains(uid) {
                assert(gv.members.push(uid)[gv.members.len() as int] == uid);
            }
            assert(reg2.users()[ui].groups.contains(g));
            assert(reg2.groups()[gi].gid == g);
            assert(reg2.groups()[gi].members.contains(uid));
            reg2.lemma_user_at(ui);
            reg2.lemma_group_at(gi);
        }
    }
    match fs.registry().get_user(uid) {
        Some(user) => Ok(Session::for_user(user)),
        None => Err(VfsError::AuthError { message: owned("no such user") }),
    }
}

// ───── Version control at the prompt ─────

/// The message `commit` records: its arguments joined by spaces, or
/// "snapshot" when it has none.
pub open spec fn commit_message(args: Seq<Seq<char>>) -> Seq<char> {
    if args.len() == 0 {
        "snapshot"@
    } else {
        join_with(args, " "@)
    }
}

/// The date and time of a commit as `log` shows it, or "???" when chrono
/// has no date for the timestamp.
pub open spec fn long_time_text(epoch: u64) -> Seq<char> {
    match chrono_time(epoch, "%Y-%m-%d %H:%M:%S"@) {
        Some(s) => s,
        None => "???"@,
    }
}

/// A timestamp as `YYYY-MM-DD HH:MM:SS`, or "???".
pub fn format_long_time(epoch: u64) -> (r: String)
    ensures
        r@ == long_time_text(epoch),
{
    match chrono_format(epoch, "%Y-%m-%d %H:%M:%S") {
        Some(s) => s,
        None => owned("???"),
    }
}

/// One line of the shell's `log`: the short id in yellow, the time, the
/// author in cyan, and the message.
pub open spec fn shell_log_line(c: CommitView) -> Seq<char> {
    "\x1b[33m"@ + hex_of(c.id).take(8) + "\x1b[0m "@ + long_time_text(c.timestamp) + " \x1b[36m"@ + c.author
        + "\x1b[0m "@ + c.message + "\n"@
}

/// The `log` lines of some commits, newest first.
pub open spec fn shell_log(cs: Seq<CommitObject>) -> Seq<char>
    decreases cs.len(),
{
    if cs.len() == 0 {
        Seq::empty()
    } else {
        shell_log_line(cs.last()@) + shell_log(cs.drop_last())
    }
}

/// The text of `log`.
fn shell_log_text(vcs: &Vcs) -> (r: String)
    ensures
        r@ == (if vcs.commits@.len() == 0 {
            "No commits yet.\n"@
        } else {
            shell_log(vcs.commits@)
        }),
{
    let commits = vcs.log();
    if commits.len() == 0 {
        return owned("No commits yet.\n");
    }
    let ghost cs = vcs.commits@;
    let n = commits.len();
    let mut out = String::new();
    let mut i: usize = 0;
    proof {
        assert(cs.take(n as int) =~= cs);
    }
    while i < n
        invariant
            n == cs.len(),
            cs == vcs.commits@,
            commits@.len() == n,
            forall|j: int| 0 <= j < n ==> *commits@[j] == cs[n - 1 - j],
            i <= n,
            shell_log(cs) == out@ + shell_log(cs.take(n - i)),
        decreases n - i,
    {
        let c = commits[i];
        proof {
            assert(cs.take(n - i).drop_last() =~= cs.take(n - i - 1));
            assert(cs.take(n - i).last() == cs[n - 1 - i]);
        }
        push_str(&mut out, "\x1b[33m");
        push_str(&mut out, c.id.short_hex().as_str());
        push_str(&mut out, "\x1b[0m ");
        push_str(&mut out, format_long_time(c.timestamp).as_str());
        push_str(&mut out, " \x1b[36m");
        push_str(&mut out, c.author.as_str());
        push_str(&mut out, "\x1b[0m ");
        push_str(&mut out, c.message.as_str());
        push_str(&mut out, "\n");
        i += 1;
    }
    proof {
        assert(cs.take(0) =~= Seq::<CommitObject>::empty());
        assert(out@ =~= out@ + Seq::<char>::empty());
    }
    out
}

/// What a line typed at the prompt gives: `commit`, `log`, `revert` and
/// `status` as the first command act on the repository (the rest of the
/// line is ignored); anything else runs as a pipeline.
pub fn execute_line(line: &str, fs: &mut VirtualFs, vcs: &mut Vcs, session: &mut Session) -> (r: Result<
    String,
    VfsError,
>)
    requires
        old(fs).wf(),
        old(vcs).inv(),
        commands_of(pipe_segments(line@)).len() > 0 && commands_of(pipe_segments(line@))[0].0 == "status"@
            ==> old(fs).file_totals().1 <= u64::MAX,
    ensures
        final(fs).wf(),
        final(vcs).inv(),
        ({
            let cmds = commands_of(pipe_segments(line@));
            if cmds.len() == 0 {
                r is Ok && r->Ok_0@.len() == 0 && *final(fs) == *old(fs) && *final(vcs) == *old(vcs)
            } else {
                let prog = cmds[0].0;
                let args = cmds[0].1;
                if prog == "commit"@ {
                    let snap = snap_dir(old(fs), old(vcs).store@, old(fs).root(), old(fs).inodes().dom().len());
                    &&& *final(fs) == *old(fs)
                    &&& (r is Err <==> snap.1 is Err)
                    &&& (r is Err ==> final(vcs).commits == old(vcs).commits && final(vcs).head == old(vcs).head
                        && r->Err_0@ == snap.1->Err_0)
                    &&& (r is Ok ==> {
                        let c = final(vcs).commits@.last()@;
                        &&& final(vcs).commits@.len() == old(vcs).commits@.len() + 1
                        &&& final(vcs).commits@.drop_last() == old(vcs).commits@
                        &&& c.message == commit_message(args)
                        &&& c.author == old(session).username@
                        &&& final(vcs).head matches Some(h) && h@ == c.id
                        &&& c.tree == snap.1->Ok_0
                        &&& r->Ok_0@ == "["@ + hex_of(c.id).take(8) + "] "@ + commit_message(args) + "\n"@
                    })
                } else if prog == "log"@ {
                    &&& *final(fs) == *old(fs)
                    &&& *final(vcs) == *old(vcs)
                    &&& r is Ok
                    &&& r->Ok_0@ == (if old(vcs).commits@.len() == 0 {
                        "No commits yet.\n"@
                    } else {
                        shell_log(old(vcs).commits@)
                    })
                } else if prog == "revert"@ {
                    if args.len() == 0 {
                        &&& r is Err
                        &&& r->Err_0@ == ErrorView::InvalidArgs("revert: need commit hash prefix"@)
                        &&& *final(fs) == *old(fs)
                        &&& *final(vcs) == *old(vcs)
                    } else {
                        let ms = matching(old(vcs).commits@, args[0]);
                        &&& final(vcs).commits == old(vcs).commits
                        &&& final(vcs).store == old(vcs).store
                        &&& (ms.len() == 0 ==> r is Err && r->Err_0@ == ErrorView::ObjectNotFound(args[0])
                            && *final(fs) == *old(fs))
                        &&& (ms.len() > 1 ==> r is Err && r->Err_0@ == ErrorView::InvalidArgs(
                            "ambiguous commit prefix: "@ + args[0],
                        ) && *final(fs) == *old(fs))
                        &&& (r is Ok ==> ms.len() == 1 && final(vcs).head == Some(ms[0].id)
                            && r->Ok_0@ == "Reverted to "@ + args[0] + "\n"@)
                        &&& (ms.len() == 1 && revert_owed(old(vcs).store@, ms[0].tree@) ==> r is Ok)
                        &&& (ms.len() == 1 ==> final(fs).cwd() == final(fs).root())
                        &&& (r is Ok && crate::vcs::revert::tree_simple(old(vcs).store@, ms[0].tree@, usize::MAX as nat)
                            ==> crate::vcs::revert::holds_tree(
                            *final(fs),
                            final(fs).root(),
                            old(vcs).store@,
                            ms[0].tree@,
                            usize::MAX as nat,
                        ) && crate::vcs::revert::only_tree(
                            *final(fs),
                            final(fs).root(),
                            old(vcs).store@,
                            ms[0].tree@,
                            usize::MAX as nat,
                            final(fs).root() as nat,
                            final(fs).next_id() as nat,
                        ))
                    }
                } else if prog == "status"@ {
                    &&& *final(fs) == *old(fs)
                    &&& *final(vcs) == *old(vcs)
                    &&& r is Ok
                    &&& r->Ok_0@ == match old(vcs).head {
                        None => "No commits yet.\n"@,
                        Some(h) => status_text(
                            h@,
                            old(vcs).store@.dom().len(),
                            old(fs).file_totals().0,
                            old(fs).file_totals().1,
                        ),
                    }
                } else {
                    &&& *final(vcs) == *old(vcs)
                    &&& (kind_of(prog) is None ==> r is Err && r->Err_0@ == ErrorView::UnknownCommand(prog)
                        && *final(fs) == *old(fs))
                    &&& line_ran(*old(fs), *old(session), line@, *final(fs), *final(session), r)
                }
            }
        }),
{
    let pipeline = parse_pipeline(line);
    if pipeline.commands.len() == 0 {
        return Ok(String::new());
    }
    let first: &ParsedCommand = &pipeline.commands[0];
    let p = first.program.as_str();
    proof {
        assert(pipeline.spec_commands()[0] == first@);
        assert(first.args.deep_view() =~= first.args@.map_values(|s: String| s@));
    }
    if str_eq(p, "commit") {
        let msg = if first.args.len() == 0 {
            owned("snapshot")
        } else {
            join_strings(first.args.as_slice(), " ")
        };
        let id = vcs.commit(fs, msg.as_str(), session.username.as_str())?;
        let mut out = owned("[");
        push_str(&mut out, id.short_hex().as_str());
        push_str(&mut out, "] ");
        push_str(&mut out, msg.as_str());
        push_str(&mut out, "\n");
        return Ok(out);
    }
    if str_eq(p, "log") {
        return Ok(shell_log_text(vcs));
    }
    if str_eq(p, "revert") {
        if first.args.len() == 0 {
            return Err(VfsError::InvalidArgs { message: owned("revert: need commit hash prefix") });
        }
        let target = first.args[0].as_str();
        vcs.revert(fs, target)?;
        let mut out = owned("Reverted to ");
        push_str(&mut out, target);
        push_str(&mut out, "\n");
        return Ok(out);
    }
    if str_eq(p, "status") {
        return vcs.status(fs);
    }
    proof {
        reveal_strlit("commit");
        reveal_strlit("log");
        reveal_strlit("revert");
        reveal_strlit("status");
    }
    execute_pipeline(&pipeline, fs, session)
}

// ───── The line editor ─────

/// The path an `edit` line names after the word `edit`, or the message the
/// shell shows instead: the path must be given and be a Markdown file.
pub open spec fn edit_target_of(rest: Seq<char>) -> Result<Seq<char>, Seq<char>> {
    let path = trim(rest);
    if path.len() == 0 {
        Err("markdownfs: edit: missing file path"@)
    } else if !has_suffix(path, ".md"@) {
        Err("markdownfs: only .md files are supported: '"@ + path + "'"@)
    } else {
        Ok(path)
    }
}

/// The file an `edit <path>` line asks for.
pub fn edit_target(line: &str) -> (r: Result<String, String>)
    requires
        has_prefix(line@, "edit "@),
    ensures
        match r {
            Ok(p) => edit_target_of(line@.skip(5)) == Ok::<Seq<char>, Seq<char>>(p@),
            Err(m) => edit_target_of(line@.skip(5)) == Err::<Seq<char>, Seq<char>>(m@),
        },
{
    let chars = to_chars(line);
    let mut rest: Vec<char> = Vec::new();
    let mut i: usize = 5;
    proof {
        reveal_strlit("edit ");
    }
    while i < chars.len()
        invariant
            5 <= i <= chars@.len(),
            chars@ == line@,
            rest@ == line@.subrange(5, i as int),
        decreases chars.len() - i,
    {
        rest.push(chars[i]);
        i += 1;
        proof {
            assert(rest@ =~= line@.subrange(5, i as int));
        }
    }
    proof {
        assert(line@.skip(5) =~= line@.subrange(5, chars@.len() as int));
    }
    let path = trim_chars(&rest);
    if path.len() == 0 {
        return Err(owned("markdownfs: edit: missing file path"));
    }
    let md: Vec<char> = vec!['.', 'm', 'd'];
    proof {
        reveal_strlit(".md");
        assert(md@ =~= ".md"@);
    }
    if !ends_with(path.as_slice(), md.as_slice()) {
        let mut m = owned("markdownfs: only .md files are supported: '");
        push_str(&mut m, from_chars(path.as_slice()).as_str());
        push_str(&mut m, "'");
        return Err(m);
    }
    Ok(from_chars(path.as_slice()))
}

/// What a line typed into the editor does.
#[derive(Clone, Copy, Debug, PartialEq, Eq, Structural)]
pub enum EditStep {
    /// `EOF`: the content is complete.
    Finish,
    /// `CANCEL`: the edit is abandoned.
    Cancel,
    /// Anything else is a line of content.
    Append,
}

/// The step a typed line makes, judged on the line without surrounding
/// white space.
pub open spec fn edit_step_of(input: Seq<char>) -> EditStep {
    if trim(input) == "EOF"@ {
        EditStep::Finish
    } else if trim(input) == "CANCEL"@ {
        EditStep::Cancel
    } else {
        EditStep::Append
    }
}

/// The step a typed line makes.
pub fn edit_step(input: &str) -> (r: EditStep)
    ensures
        r == edit_step_of(input@),
{
    let t = from_chars(trim_chars(&to_chars(input)).as_slice());
    if str_eq(t.as_str(), "EOF") {
        EditStep::Finish
    } else if str_eq(t.as_str(), "CANCEL") {
        EditStep::Cancel
    } else {
        EditStep::Append
    }
}

/// Adds a typed line, and its newline, to the content.
pub fn append_edit_line(content: &mut String, input: &str)
    ensures
        final(content)@ == old(content)@ + input@ + "\n"@,
{
    push_str(content, input);
    push_str(content, "\n");
}

/// Lines numbered from 1, each as `{:>4} | {line}`.
pub open spec fn numbered(lines: Seq<Seq<char>>) -> Seq<char>
    decreases lines.len(),
{
    if lines.len() == 0 {
        Seq::empty()
    } else {
        numbered(lines.drop_last()) + pad_left(decimal(lines.len()), 4) + " | "@ + lines.last() + "\n"@
    }
}

/// What the editor shows of a file before asking for new content: its
/// lines, numbered, between two marks; nothing for a missing or empty file.
pub open spec fn edit_preview_of(fs: &VirtualFs, path: Seq<char>) -> Seq<char> {
    match fs.read(path) {
        Ok(bytes) => {
            let text = utf8_lossy(bytes);
            if text.len() == 0 {
                Seq::empty()
            } else {
                "--- Current content of "@ + path + " ---\n"@ + numbered(lines_of(text)) + "--- End ---\n"@
            }
        },
        Err(_) => Seq::empty(),
    }
}

/// The current content of the file being edited, numbered.
pub fn edit_preview(fs: &VirtualFs, path: &str) -> (r: String)
    requires
        fs.wf(),
    ensures
        r@ == edit_preview_of(fs, path@),
{
    let bytes = match fs.cat(path) {
        Ok(b) => b,
        Err(_) => {
            return String::new();
        },
    };
    let text = utf8_lossy_string(bytes);
    if to_chars(text.as_str()).len() == 0 {
        return String::new();
    }
    let lines = split_lines(text.as_str());
    let ghost ls = lines.deep_view();
    let mut out = owned("--- Current content of ");
    push_str(&mut out, path);
    push_str(&mut out, " ---\n");
    let ghost head = out@;
    let mut i: usize = 0;
    proof {
        assert(ls.take(0) =~= Seq::<Seq<char>>::empty());
        assert(out@ =~= head + numbered(ls.take(0)));
    }
    while i < lines.len()
        invariant
            i <= lines@.len(),
            ls == lines.deep_view(),
            ls.len() == lines@.len(),
            out@ == head + numbered(ls.take(i as int)),
        decreases lines.len() - i,
    {
        proof {
            assert(ls.take(i + 1).drop_last() =~= ls.take(i as int));
            assert(ls[i as int] == lines@[i as int]@);
        }
        let n = decimal_string((i + 1) as u64);
        push_padded_left(&mut out, n.as_str(), 4);
        push_str(&mut out, " | ");
        push_str(&mut out, lines[i].as_str());
        push_str(&mut out, "\n");
        i += 1;
        proof {
            assert(out@ =~= head + numbered(ls.take(i as int)));
        }
    }
    proof {
        assert(ls.take(ls.len() as int) =~= ls);
    }
    push_str(&mut out, "--- End ---\n");
    out
}

/// The content the editor keeps: what was typed, without its last newline.
pub open spec fn edited_content(typed: Seq<char>) -> Seq<char> {
    if typed.len() > 0 && typed.last() == '\n' {
        typed.drop_last()
    } else {
        typed
    }
}

/// What committing an edit of `path` to `c` gives: the file reads `c`, and
/// the commit of the file system `fs` either fails, as the error stream
/// says, or is recorded with the message `edit <path>` and shown.
pub open spec fn edit_committed(
    old_vcs: Vcs,
    new_vcs: Vcs,
    fs: VirtualFs,
    session: Session,
    path: Seq<char>,
    c: Seq<u8>,
    r: Result<String, String>,
) -> bool {
    &&& fs.read(path) == Ok::<Seq<u8>, ErrorView>(c)
    &&& match snap_dir(&fs, old_vcs.store@, fs.root(), fs.inodes().dom().len()).1 {
        Err(e) => r is Err && r->Err_0@ == "auto-commit failed: "@ + message_of(e),
        Ok(_) => r is Ok && new_vcs.commits@.len() == old_vcs.commits@.len() + 1
            && new_vcs.commits@.last().message@ == "edit "@ + path && new_vcs.commits@.last().author@
            == session.username@ && r->Ok_0@ == "["@ + hex_of(new_vcs.commits@.last().id@).take(8) + "] edit "@
            + path,
    }
}

/// Saves what was typed into the file, creating it if needed, and commits
/// with the message `edit <path>`. The result is the line to show, and an
/// error is a message for the error stream.
pub fn finish_edit(fs: &mut VirtualFs, vcs: &mut Vcs, session: &Session, path: &str, typed: String) -> (r:
    Result<String, String>)
    requires
        old(fs).wf(),
        old(vcs).inv(),
    ensures
        final(fs).wf(),
        final(vcs).inv(),
        r is Ok ==> final(fs).read(path@) == Ok::<Seq<u8>, ErrorView>(
            vstd::utf8::encode_utf8(edited_content(typed@)),
        ),
        r is Ok ==> final(vcs).commits@.len() == old(vcs).commits@.len() + 1 && final(vcs).commits@.last().message@ == "edit "@ + path@ && final(vcs).commits@.last().author@
            == session.username@ && r->Ok_0@ == "["@ + hex_of(final(vcs).commits@.last().id@).take(8)
            + "] edit "@ + path@,
        ({
            let c = vstd::utf8::encode_utf8(edited_content(typed@));
            let p = path@;
            match old(fs).resolve(p) {
                Ok(_) => match old(fs).write_target(p) {
                    Err(e) => r is Err && r->Err_0@ == message_of(e) && final(fs).same_as(old(fs))
                        && *final(vcs) == *old(vcs),
                    Ok(_) => edit_committed(*old(vcs), *final(vcs), *final(fs), *session, p, c, r),
                },
                Err(_) => if old(fs).next_id() == u64::MAX {
                    r is Err && r->Err_0@ == message_of(ErrorView::NotSupported("inode ids exhausted"@))
                        && *final(fs) == *old(fs) && *final(vcs) == *old(vcs)
                } else if !is_markdown(p) {
                    r is Err && r->Err_0@ == message_of(ErrorView::InvalidExtension(last_segment(p)))
                        && final(fs).same_as(old(fs)) && *final(vcs) == *old(vcs)
                } else {
                    match old(fs).resolve_parent_spec(p) {
                        Err(e) => r is Err && r->Err_0@ == message_of(e) && final(fs).same_as(old(fs))
                            && *final(vcs) == *old(vcs),
                        Ok((d, _)) => match old(fs).dir_of(d) {
                            Err(e) => r is Err && r->Err_0@ == message_of(e) && *final(vcs) == *old(vcs),
                            Ok(_) => no_up(components(p)) ==> edit_committed(
                                *old(vcs),
                                *final(vcs),
                                *final(fs),
                                *session,
                                p,
                                c,
                                r,
                            ),
                        },
                    }
                },
            }
        }),
{
    let chars = to_chars(typed.as_str());
    let content = if chars.len() > 0 && chars[chars.len() - 1] == '\n' {
        proof {
            assert(chars@.drop_last() =~= chars@.subrange(0, chars@.len() - 1));
        }
        crate::text::substring(chars.as_slice(), 0, chars.len() - 1)
    } else {
        typed
    };
    let ghost fs0 = *fs;
    if fs.resolve_path(path).is_err() {
        if let Err(e) = require_ids(fs) {
            return Err(e.message());
        }
        let t = fs.touch(path, session.uid, session.gid);
        proof {
            if t is Ok && no_up(components(path@)) {
                VirtualFs::lemma_touched_target(&fs0, fs, path@, session.uid, session.gid);
            }
        }
        if let Err(e) = t {
            return Err(e.message());
        }
    }
    let bytes = crate::fs::inode::copy_bytes(content.as_str().as_bytes());
    if let Err(e) = fs.write_file(path, bytes) {
        return Err(e.message());
    }
    let mut message = owned("edit ");
    push_str(&mut message, path);
    match vcs.commit(fs, message.as_str(), session.username.as_str()) {
        Ok(id) => {
            let mut out = owned("[");
            push_str(&mut out, id.short_hex().as_str());
            push_str(&mut out, "] edit ");
            push_str(&mut out, path);
            Ok(out)
        },
        Err(e) => {
            let mut m = owned("auto-commit failed: ");
            push_str(&mut m, e.message().as_str());
            Err(m)
        },
    }
}

} // verus!
