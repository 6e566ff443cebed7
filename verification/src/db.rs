//! The database's state and its operations: the file system and its
//! repository together, the shell as the database runs it, logging in, and
//! the administration calls. Locking, saving and counting writes belong to
//! whoever shares the state between tasks.

use vstd::prelude::*;
use crate::auth::registry::{first_with_token, gid_pos, token_hash, uid_pos, user_of, GroupView, UserRegistry, UserView};
use crate::auth::without;
use crate::auth::session::Session;
use crate::auth::{Gid, Uid, ROOT_GID, ROOT_UID, WHEEL_GID};
use crate::cmd::parser::{commands_of, parse_pipeline, pipe_segments, ParsedCommand};
use crate::cmd::{
    execute_pipeline, group_names, line_ran, join_strings, kind_of, names_of_groups, require_ids, require_user_ids,
};
use crate::error::{ErrorView, VfsError};
use crate::fs::inode::{InodeView, KindView};
use crate::fs::{label, VirtualFs};
use crate::repl::{commit_message, format_long_time, has_other_user, has_users, long_time_text, session_of};
use crate::store::commit::{CommitObject, CommitView};
use crate::text::{decimal, hex_of, owned, push_decimal, push_str, str_eq};
use crate::vcs::{matching, revert_owed, snap_dir, status_text, Vcs};

verus! {

/// The state behind the database: a file system and its repository.
pub struct DbState {
    pub fs: VirtualFs,
    pub vcs: Vcs,
}

/// The programs whose pipelines change the file system or the users.
pub open spec fn is_write_program(p: Seq<char>) -> bool {
    ||| p == "touch"@ ||| p == "write"@ ||| p == "mkdir"@ ||| p == "rm"@ ||| p == "rmdir"@
    ||| p == "mv"@ ||| p == "cp"@ ||| p == "chmod"@ ||| p == "chown"@ ||| p == "ln"@
    ||| p == "adduser"@ ||| p == "addagent"@ ||| p == "deluser"@ ||| p == "addgroup"@
    ||| p == "delgroup"@ ||| p == "usermod"@
}

/// Whether a program writes.
pub fn writes(p: &str) -> (r: bool)
    ensures
        r == is_write_program(p@),
{
    str_eq(p, "touch") || str_eq(p, "write") || str_eq(p, "mkdir") || str_eq(p, "rm") || str_eq(p, "rmdir")
        || str_eq(p, "mv") || str_eq(p, "cp") || str_eq(p, "chmod") || str_eq(p, "chown") || str_eq(p, "ln")
        || str_eq(p, "adduser") || str_eq(p, "addagent") || str_eq(p, "deluser") || str_eq(p, "addgroup")
        || str_eq(p, "delgroup") || str_eq(p, "usermod")
}

/// One line of the database's `log`: short id, time, author and message.
pub open spec fn db_log_line(c: CommitView) -> Seq<char> {
    hex_of(c.id).take(8) + " "@ + long_time_text(c.timestamp) + " "@ + c.author + " "@ + c.message + "\n"@
}

/// The `log` lines of some commits, newest first.
pub open spec fn db_log(cs: Seq<CommitObject>) -> Seq<char>
    decreases cs.len(),
{
    if cs.len() == 0 {
        Seq::empty()
    } else {
        db_log_line(cs.last()@) + db_log(cs.drop_last())
    }
}

/// The error of an administration call by a session that is neither root
/// nor in the wheel group.
pub open spec fn wheel_error(session: &Session, reg: UserRegistry) -> Option<ErrorView> {
    if session.spec_is_effectively_root() || (user_of(reg.users(), session.uid) matches Some(u)
        && u.groups.contains(WHEEL_GID)) {
        None
    } else {
        Some(ErrorView::PermissionDenied("admin"@))
    }
}

impl DbState {
    /// The file system is well formed and the store keeps each id once.
    pub open spec fn inv(&self) -> bool {
        self.fs.wf() && self.vcs.inv()
    }

    /// A fresh file system and an empty repository.
    pub fn new() -> (r: Self)
        ensures
            r.inv(),
            r.vcs.commits@.len() == 0,
    {
        DbState { fs: VirtualFs::new(), vcs: Vcs::new() }
    }

    /// The text of `log`.
    fn log_text(&self) -> (r: String)
        ensures
            r@ == (if self.vcs.commits@.len() == 0 {
                "No commits yet.\n"@
            } else {
                db_log(self.vcs.commits@)
            }),
    {
        let commits = self.vcs.log();
        if commits.len() == 0 {
            return owned("No commits yet.\n");
        }
        let ghost cs = self.vcs.commits@;
        let n = commits.len();
        let mut out = String::new();
        let mut i: usize = 0;
        proof {
            assert(cs.take(n as int) =~= cs);
        }
        while i < n
            invariant
                n == cs.len(),
                cs == self.vcs.commits@,
                commits@.len() == n,
                forall|j: int| 0 <= j < n ==> *commits@[j] == cs[n - 1 - j],
                i <= n,
                db_log(cs) == out@ + db_log(cs.take(n - i)),
            decreases n - i,
        {
            let c = commits[i];
            proof {
                assert(cs.take(n - i).drop_last() =~= cs.take(n - i - 1));
                assert(cs.take(n - i).last() == cs[n - 1 - i]);
            }
            push_str(&mut out, c.id.short_hex().as_str());
            push_str(&mut out, " ");
            push_str(&mut out, format_long_time(c.timestamp).as_str());
            push_str(&mut out, " ");
            push_str(&mut out, c.author.as_str());
            push_str(&mut out, " ");
            push_str(&mut out, c.message.as_str());
            push_str(&mut out, "\n");
            i += 1;
        }
        proof {
            assert(cs.take(0) =~= Seq::<CommitObject>::empty());
            assert(out@ =~= out@ + Seq::<char>::empty());
        }
        out
    }

    /// Commits the file system and returns the new commit's short id.
    pub fn commit(&mut self, message: &str, author: &str) -> (r: Result<String, VfsError>)
        requires
            old(self).inv(),
        ensures
            final(self).inv(),
            final(self).fs == old(self).fs,
            (r is Err) == (snap_dir(
                &old(self).fs,
                old(self).vcs.store@,
                old(self).fs.root(),
                old(self).fs.inodes().dom().len(),
            ).1 is Err),
            r is Err ==> final(self).vcs.commits == old(self).vcs.commits && final(self).vcs.head == old(
                self,
            ).vcs.head && r->Err_0@ == snap_dir(
                &old(self).fs,
                old(self).vcs.store@,
                old(self).fs.root(),
                old(self).fs.inodes().dom().len(),
            ).1->Err_0,
            r is Ok ==> {
                let c = final(self).vcs.commits@.last()@;
                &&& final(self).vcs.commits@.len() == old(self).vcs.commits@.len() + 1
                &&& final(self).vcs.commits@.drop_last() == old(self).vcs.commits@
                &&& final(self).vcs.head matches Some(h) && h@ == c.id
                &&& c.tree == snap_dir(
                    &old(self).fs,
                    old(self).vcs.store@,
                    old(self).fs.root(),
                    old(self).fs.inodes().dom().len(),
                ).1->Ok_0
                &&& c.message == message@
                &&& c.author == author@
                &&& r->Ok_0@ == hex_of(c.id).take(8)
            },
    {
        let id = self.vcs.commit(&self.fs, message, author)?;
        Ok(id.short_hex())
    }

    /// Replaces a file's content, refusing content larger than
    /// `max_file_size` bytes.
    pub fn write_file(&mut self, path: &str, content: Vec<u8>, max_file_size: usize) -> (r: Result<(), VfsError>)
        requires
            old(self).inv(),
        ensures
            final(self).inv(),
            final(self).vcs == old(self).vcs,
            content@.len() > max_file_size ==> r is Err && r->Err_0@ == ErrorView::InvalidArgs(
                "file size "@ + decimal(content@.len()) + " exceeds max "@ + decimal(max_file_size as nat),
            ) && final(self).fs == old(self).fs,
            content@.len() <= max_file_size ==> match old(self).fs.write_target(path@) {
                Err(e) => r is Err && r->Err_0@ == e && final(self).fs.same_as(&old(self).fs),
                Ok(id) => {
                    &&& r is Ok
                    &&& final(self).fs.read(path@) == Ok::<Seq<u8>, ErrorView>(content@)
                    &&& final(self).fs.frame(&old(self).fs)
                    &&& old(self).fs.inodes().contains_key(id)
                    &&& old(self).fs.inodes()[id].kind is File
                    &&& final(self).fs.inodes() == old(self).fs.inodes().insert(
                        id,
                        InodeView {
                            kind: KindView::File(content@),
                            modified: final(self).fs.inodes()[id].modified,
                            ..old(self).fs.inodes()[id]
                        },
                    )
                },
            },
    {
        if content.len() > max_file_size {
            let mut message = owned("file size ");
            push_decimal(&mut message, content.len() as u64);
            push_str(&mut message, " exceeds max ");
            push_decimal(&mut message, max_file_size as u64);
            return Err(VfsError::InvalidArgs { message });
        }
        self.fs.write_file(path, content)
    }

    /// A command line as the database runs it, and whether it may have
    /// changed the state: `commit`, `log`, `revert` and `status` first act
    /// on the repository (the rest of the line is ignored); any other line
    /// runs as a pipeline, which counts as a change when one of its
    /// programs writes.
    pub fn execute_command(&mut self, line: &str, session: &mut Session) -> (r: (Result<String, VfsError>, bool))
        requires
            old(self).inv(),
            commands_of(pipe_segments(line@)).len() > 0 && commands_of(pipe_segments(line@))[0].0 == "status"@
                ==> old(self).fs.file_totals().1 <= u64::MAX,
        ensures
            final(self).inv(),
            ({
                let cmds = commands_of(pipe_segments(line@));
                let res = r.0;
                if cmds.len() == 0 {
                    res is Ok && res->Ok_0@.len() == 0 && !r.1 && *final(self) == *old(self)
                } else {
                    let prog = cmds[0].0;
                    let args = cmds[0].1;
                    if prog == "commit"@ {
                        let snap = snap_dir(
                            &old(self).fs,
                            old(self).vcs.store@,
                            old(self).fs.root(),
                            old(self).fs.inodes().dom().len(),
                        ).1;
                        &&& final(self).fs == old(self).fs
                        &&& r.1 == res is Ok
                        &&& (res is Err <==> snap is Err)
                        &&& (res is Err ==> res->Err_0@ == snap->Err_0 && final(self).vcs.commits == old(
                            self,
                        ).vcs.commits && final(self).vcs.head == old(self).vcs.head)
                        &&& (res is Ok ==> {
                            let c = final(self).vcs.commits@.last()@;
                            &&& final(self).vcs.commits@.drop_last() == old(self).vcs.commits@
                            &&& final(self).vcs.head matches Some(h) && h@ == c.id
                            &&& c.tree == snap->Ok_0
                            &&& final(self).vcs.commits@.len() == old(self).vcs.commits@.len() + 1
                            &&& c.message == commit_message(args)
                            &&& c.author == old(session).username@
                            &&& res->Ok_0@ == "["@ + hex_of(c.id).take(8) + "] "@ + commit_message(args)
                                + "\n"@
                        })
                    } else if prog == "log"@ {
                        &&& *final(self) == *old(self)
                        &&& !r.1
                        &&& res is Ok
                        &&& res->Ok_0@ == (if old(self).vcs.commits@.len() == 0 {
                            "No commits yet.\n"@
                        } else {
                            db_log(old(self).vcs.commits@)
                        })
                    } else if prog == "revert"@ {
                        if args.len() == 0 {
                            &&& res is Err
                            &&& res->Err_0@ == ErrorView::InvalidArgs("revert: need commit hash prefix"@)
                            &&& *final(self) == *old(self)
                            &&& !r.1
                        } else {
                            let ms = matching(old(self).vcs.commits@, args[0]);
                            &&& r.1 == res is Ok
                            &&& final(self).vcs.commits == old(self).vcs.commits
                            &&& (ms.len() == 0 ==> res is Err && res->Err_0@ == ErrorView::ObjectNotFound(args[0])
                                && final(self).fs == old(self).fs)
                            &&& (res is Ok ==> ms.len() == 1 && final(self).vcs.head == Some(ms[0].id)
                                && res->Ok_0@ == "Reverted to "@ + args[0] + "\n"@)
                            &&& (ms.len() > 1 ==> res is Err && res->Err_0@ == ErrorView::InvalidArgs(
                                "ambiguous commit prefix: "@ + args[0],
                            ) && final(self).fs == old(self).fs)
                            &&& (ms.len() == 1 && revert_owed(old(self).vcs.store@, ms[0].tree@) ==> res is Ok)
                            &&& (ms.len() == 1 ==> final(self).fs.cwd() == final(self).fs.root())
                            &&& (res is Ok && crate::vcs::revert::tree_simple(
                                old(self).vcs.store@,
                                ms[0].tree@,
                                usize::MAX as nat,
                            ) ==> crate::vcs::revert::holds_tree(
                                final(self).fs,
                                final(self).fs.root(),
                                old(self).vcs.store@,
                                ms[0].tree@,
                                usize::MAX as nat,
                            ) && crate::vcs::revert::only_tree(
                                final(self).fs,
                                final(self).fs.root(),
                                old(self).vcs.store@,
                                ms[0].tree@,
                                usize::MAX as nat,
                                final(self).fs.root() as nat,
                                final(self).fs.next_id() as nat,
                            ))
                        }
                    } else if prog == "status"@ {
                        &&& *final(self) == *old(self)
                        &&& !r.1
                        &&& res is Ok
                        &&& res->Ok_0@ == match old(self).vcs.head {
                            None => "No commits yet.\n"@,
                            Some(h) => status_text(
                                h@,
                                old(self).vcs.store@.dom().len(),
                                old(self).fs.file_totals().0,
                                old(self).fs.file_totals().1,
                            ),
                        }
                    } else {
                        &&& final(self).vcs == old(self).vcs
                        &&& r.1 == exists|i: int| 0 <= i < cmds.len() && is_write_program(#[trigger] cmds[i].0)
                        &&& (kind_of(prog) is None ==> res is Err && res->Err_0@ == ErrorView::UnknownCommand(prog)
                            && final(self).fs == old(self).fs)
                        &&& line_ran(old(self).fs, *old(session), line@, final(self).fs, *final(session), res)
                    }
                }
            }),
    {
        let pipeline = parse_pipeline(line);
        if pipeline.commands.len() == 0 {
            return (Ok(String::new()), false);
        }
        let first: &ParsedCommand = &pipeline.commands[0];
        let p = first.program.as_str();
        proof {
            assert(pipeline.spec_commands()[0] == first@);
            assert(first.args.deep_view() =~= first.args@.map_values(|s: String| s@));
        }
        if str_eq(p, "commit") {
            let msg = if first.args.len() == 0 {
                owned("snapshot")
            } else {
                join_strings(first.args.as_slice(), " ")
            };
            let hash = match self.commit(msg.as_str(), session.username.as_str()) {
                Ok(h) => h,
                Err(e) => {
                    return (Err(e), false);
                },
            };
            let mut out = owned("[");
            push_str(&mut out, hash.as_str());
            push_str(&mut out, "] ");
            push_str(&mut out, msg.as_str());
            push_str(&mut out, "\n");
            return (Ok(out), true);
        }
        if str_eq(p, "log") {
            return (Ok(self.log_text()), false);
        }
        if str_eq(p, "revert") {
            if first.args.len() == 0 {
                return (Err(VfsError::InvalidArgs { message: owned("revert: need commit hash prefix") }), false);
            }
            let target = first.args[0].as_str();
            if let Err(e) = self.vcs.revert(&mut self.fs, target) {
                return (Err(e), false);
            }
            let mut out = owned("Reverted to ");
            push_str(&mut out, target);
            push_str(&mut out, "\n");
            return (Ok(out), true);
        }
        if str_eq(p, "status") {
            return (self.vcs.status(&self.fs), false);
        }
        let result = execute_pipeline(&pipeline, &mut self.fs, session);
        let mut is_write = false;
        let mut i: usize = 0;
        while i < pipeline.commands.len()
            invariant
                i <= pipeline.commands@.len(),
                is_write == exists|j: int| 0 <= j < i && is_write_program(#[trigger] pipeline.spec_commands()[j].0),
            decreases pipeline.commands.len() - i,
        {
            let w = writes(pipeline.commands[i].program.as_str());
            proof {
                assert(pipeline.spec_commands()[i as int] == pipeline.commands@[i as int]@);
                if w {
                    assert(is_write_program(pipeline.spec_commands()[i as int].0));
                }
            }
            is_write = is_write || w;
            i += 1;
        }
        (result, is_write)
    }
}

/// What the user list shows of a user: its uid, name, the names of its
/// groups, whether it is an agent and whether it has a token.
#[derive(Debug)]
pub struct UserSummary {
    pub uid: Uid,
    pub name: String,
    pub groups: Vec<String>,
    pub is_agent: bool,
    pub has_token: bool,
}

/// What the group list shows of a group: its gid, name and the names of
/// its members.
#[derive(Debug)]
pub struct GroupSummary {
    pub gid: Gid,
    pub name: String,
    pub members: Vec<String>,
}

/// The names of the users of some uids, skipping uids without a user.
pub open spec fn member_names(reg: UserRegistry, uids: Seq<Uid>) -> Seq<Seq<char>>
    decreases uids.len(),
{
    if uids.len() == 0 {
        Seq::empty()
    } else {
        let before = member_names(reg, uids.drop_last());
        match user_of(reg.users(), uids.last()) {
            Some(u) => before.push(u.name),
            None => before,
        }
    }
}

/// Whether a summary shows the user `u` of a file system's registry.
pub open spec fn summarizes_user(s: UserSummary, fs: &VirtualFs, u: UserView) -> bool {
    &&& s.uid == u.uid
    &&& s.name@ == u.name
    &&& s.groups@.map_values(|g: String| g@) == group_names(fs, u.groups)
    &&& s.is_agent == u.is_agent
    &&& s.has_token == u.api_token is Some
}

/// Whether a summary shows the group `g` of a registry.
pub open spec fn summarizes_group(s: GroupSummary, reg: UserRegistry, g: GroupView) -> bool {
    &&& s.gid == g.gid
    &&& s.name@ == g.name
    &&& s.members@.map_values(|m: String| m@) == member_names(reg, g.members)
}

/// The names of the users of some uids.
fn names_of_members(reg: &UserRegistry, uids: &Vec<Uid>) -> (r: Vec<String>)
    requires
        reg.inv(),
    ensures
        r@.map_values(|s: String| s@) == member_names(*reg, uids@),
{
    let mut out: Vec<String> = Vec::new();
    let mut i: usize = 0;
    proof {
        assert(uids@.take(0) =~= Seq::<Uid>::empty());
        assert(out@.map_values(|s: String| s@) =~= Seq::<Seq<char>>::empty());
    }
    while i < uids.len()
        invariant
            reg.inv(),
            i <= uids@.len(),
            out@.map_values(|s: String| s@) == member_names(*reg, uids@.take(i as int)),
        decreases uids.len() - i,
    {
        proof {
            assert(uids@.take(i + 1).drop_last() =~= uids@.take(i as int));
        }
        match reg.user_name(uids[i]) {
            Some(n) => {
                out.push(owned(n));
                proof {
                    assert(out@.map_values(|s: String| s@) =~= member_names(*reg, uids@.take(i as int)).push(
                        n@,
                    ));
                }
            },
            None => {},
        }
        i += 1;
    }
    proof {
        assert(uids@.take(uids@.len() as int) =~= uids@);
    }
    out
}

impl DbState {
    /// The session of the user `username`.
    pub fn login(&self, username: &str) -> (r: Result<Session, VfsError>)
        requires
            self.inv(),
        ensures
            !self.fs.reg().uid_index().contains_key(username@) ==> r is Err && r->Err_0@ == ErrorView::AuthError(
                "unknown user: "@ + username@,
            ),
            self.fs.reg().uid_index().contains_key(username@) ==> r is Ok && (user_of(
                self.fs.reg().users(),
                self.fs.reg().uid_index()[username@],
            ) matches Some(u) && session_of(r->Ok_0, u)),
    {
        let reg = self.fs.registry();
        let uid = match reg.lookup_uid(username) {
            Some(u) => u,
            None => {
                let mut message = owned("unknown user: ");
                push_str(&mut message, username);
                return Err(VfsError::AuthError { message });
            },
        };
        proof {
            reg.lemma_indexed_user(username@);
        }
        match reg.get_user(uid) {
            Some(user) => Ok(Session::for_user(user)),
            None => {
                let mut message = owned("user uid=");
                push_decimal(&mut message, uid as u64);
                push_str(&mut message, " not found");
                Err(VfsError::AuthError { message })
            },
        }
    }

    /// Makes `/home/<username>` the working directory when it exists.
    pub fn cd_to_home(&mut self, username: &str)
        requires
            old(self).inv(),
        ensures
            final(self).inv(),
            final(self).vcs == old(self).vcs,
            final(self).fs.inodes() == old(self).fs.inodes(),
            final(self).fs.reg() == old(self).fs.reg(),
            final(self).fs.root() == old(self).fs.root(),
            ({
                let home = "/home/"@ + username@;
                let fs = old(self).fs;
                match fs.resolve(home) {
                    Ok(t) => if fs.inodes().contains_key(t) && fs.inodes()[t].kind is Directory {
                        let (cp, err) = fs.cd_walk(Seq::empty(), crate::fs::components(home));
                        &&& final(self).fs.cwd_path() == cp
                        &&& final(self).fs.cwd() == (if err is None {
                            t
                        } else {
                            fs.cwd()
                        })
                    } else {
                        final(self).fs.cwd() == fs.cwd() && final(self).fs.cwd_path() == fs.cwd_path()
                    },
                    Err(_) => final(self).fs.cwd() == fs.cwd() && final(self).fs.cwd_path() == fs.cwd_path(),
                }
            }),
    {
        proof {
            reveal_strlit("/home/");
            reveal_strlit("/");
        }
        let mut home = owned("/home/");
        push_str(&mut home, username);
        if self.fs.stat(home.as_str()).is_ok() {
            let _ = self.fs.cd(home.as_str());
        }
    }

    /// The session of the user whose token `raw_token` is.
    pub fn authenticate_token(&self, raw_token: &str) -> (r: Result<Session, VfsError>)
        requires
            self.inv(),
        ensures
            match first_with_token(self.fs.reg().users(), token_hash(raw_token@)) {
                None => r is Err && r->Err_0@ == ErrorView::AuthError("invalid token"@),
                Some(uid) => match user_of(self.fs.reg().users(), uid) {
                    Some(u) => r is Ok && session_of(r->Ok_0, u),
                    None => r is Err && r->Err_0@ == ErrorView::AuthError("token user not found"@),
                },
            },
    {
        let reg = self.fs.registry();
        let uid = match reg.authenticate_token(raw_token) {
            Some(u) => u,
            None => {
                return Err(VfsError::AuthError { message: owned("invalid token") });
            },
        };
        match reg.get_user(uid) {
            Some(user) => Ok(Session::for_user(user)),
            None => Err(VfsError::AuthError { message: owned("token user not found") }),
        }
    }

    /// Whether a user other than root exists.
    pub fn has_users(&self) -> (r: bool)
        ensures
            r == has_other_user(self.fs.reg().users()),
    {
        has_users(self.fs.registry())
    }

    /// An administrator: a new user in the wheel group, with a home
    /// directory `/home/<name>` that only it may list and enter.
    pub fn create_admin(&mut self, name: &str) -> (r: Result<Session, VfsError>)
        requires
            old(self).inv(),
        ensures
            final(self).inv(),
            final(self).vcs == old(self).vcs,
            old(self).fs.reg().uid_index().contains_key(name@) ==> r is Err && r->Err_0@ == ErrorView::AuthError(
                "user already exists: "@ + name@,
            ),
            r is Ok ==> final(self).fs.reg().uid_index().contains_key(name@),
            !old(self).fs.reg().uid_index().contains_key(name@) && old(self).fs.reg().next_uid() < u32::MAX
                && old(self).fs.reg().next_gid() < u32::MAX ==> r is Ok && r->Ok_0.username@ == name@
                && r->Ok_0.uid == old(self).fs.reg().next_uid() && r->Ok_0.delegate is None,
    {
        let session = crate::repl::create_first_admin(&mut self.fs, name)?;
        let ghost reg = self.fs.reg();
        let _ = self.fs.mkdir_p("/home", ROOT_UID, ROOT_GID);
        let mut home = owned("/home/");
        push_str(&mut home, name);
        if require_ids(&self.fs).is_ok() {
            let _ = self.fs.mkdir(home.as_str(), session.uid, session.gid);
        }
        let _ = self.fs.chmod(home.as_str(), 0o700);
        assert(self.fs.reg() == reg);
        Ok(session)
    }

    /// Whether the user of `uid` is in the wheel group, and whether it is
    /// an agent.
    pub fn principal_flags(&self, uid: Uid) -> (r: (bool, bool))
        requires
            self.inv(),
        ensures
            r.0 == (user_of(self.fs.reg().users(), uid) matches Some(u) && u.groups.contains(WHEEL_GID)),
            r.1 == (user_of(self.fs.reg().users(), uid) matches Some(u) && u.is_agent),
    {
        let reg = self.fs.registry();
        let is_wheel = reg.is_wheel_member(uid);
        let is_agent = match reg.get_user(uid) {
            Some(u) => u.is_agent,
            None => false,
        };
        (is_wheel, is_agent)
    }

    /// Administration is for root and the wheel group.
    fn require_wheel(&self, session: &Session) -> (r: Result<(), VfsError>)
        requires
            self.inv(),
        ensures
            match wheel_error(session, self.fs.reg()) {
                Some(e) => r is Err && r->Err_0@ == e,
                None => r is Ok,
            },
    {
        if session.is_effectively_root() || self.fs.registry().is_wheel_member(session.uid) {
            Ok(())
        } else {
            Err(VfsError::PermissionDenied { path: owned("admin") })
        }
    }

    /// The users, in ascending order of uid, with the names of their groups.
    pub fn admin_list_users(&self, session: &Session) -> (r: Result<Vec<UserSummary>, VfsError>)
        requires
            self.inv(),
        ensures
            match wheel_error(session, self.fs.reg()) {
                Some(e) => r is Err && r->Err_0@ == e,
                None => r is Ok && r->Ok_0@.len() == self.fs.reg().users().len() && forall|i: int|
                    0 <= i < r->Ok_0@.len() ==> summarizes_user(
                        #[trigger] r->Ok_0@[i],
                        &self.fs,
                        self.fs.reg().users()[i],
                    ),
            },
    {
        self.require_wheel(session)?;
        let users = self.fs.registry().list_users();
        let mut out: Vec<UserSummary> = Vec::new();
        let mut i: usize = 0;
        while i < users.len()
            invariant
                self.inv(),
                users@.len() == self.fs.reg().users().len(),
                forall|j: int| 0 <= j < users@.len() ==> #[trigger] users@[j]@ == self.fs.reg().users()[j],
                i <= users@.len(),
                out@.len() == i,
                forall|j: int| 0 <= j < i ==> summarizes_user(#[trigger] out@[j], &self.fs, self.fs.reg().users()[j]),
            decreases users.len() - i,
        {
            let u = users[i];
            proof {
                assert(u@ == self.fs.reg().users()[i as int]);
            }
            let groups = names_of_groups(&self.fs, &u.groups, false);
            out.push(
                UserSummary {
                    uid: u.uid,
                    name: owned(u.name.as_str()),
                    groups,
                    is_agent: u.is_agent,
                    has_token: u.api_token.is_some(),
                },
            );
            i += 1;
        }
        Ok(out)
    }

    /// The groups, in ascending order of gid, with the names of their
    /// members.
    pub fn admin_list_groups(&self, session: &Session) -> (r: Result<Vec<GroupSummary>, VfsError>)
        requires
            self.inv(),
        ensures
            match wheel_error(session, self.fs.reg()) {
                Some(e) => r is Err && r->Err_0@ == e,
                None => r is Ok && r->Ok_0@.len() == self.fs.reg().groups().len() && forall|i: int|
                    0 <= i < r->Ok_0@.len() ==> summarizes_group(
                        #[trigger] r->Ok_0@[i],
                        self.fs.reg(),
                        self.fs.reg().groups()[i],
                    ),
            },
    {
        self.require_wheel(session)?;
        let reg = self.fs.registry();
        let groups = reg.list_groups();
        let mut out: Vec<GroupSummary> = Vec::new();
        let mut i: usize = 0;
        while i < groups.len()
            invariant
                self.inv(),
                *reg == self.fs.reg(),
                groups@.len() == reg.groups().len(),
                forall|j: int| 0 <= j < groups@.len() ==> #[trigger] groups@[j]@ == reg.groups()[j],
                i <= groups@.len(),
                out@.len() == i,
                forall|j: int| 0 <= j < i ==> summarizes_group(#[trigger] out@[j], *reg, reg.groups()[j]),
            decreases groups.len() - i,
        {
            let g = groups[i];
            proof {
                assert(g@ == reg.groups()[i as int]);
            }
            let members = names_of_members(reg, &g.members);
            out.push(GroupSummary { gid: g.gid, name: owned(g.name.as_str()), members });
            i += 1;
        }
        Ok(out)
    }
}

impl DbState {
    /// Adds a user (an agent gets a token, returned once) with a home
    /// directory `/home/<name>` that only it may list and enter.
    pub fn admin_add_user(&mut self, session: &Session, name: &str, is_agent: bool) -> (r: Result<
        (Uid, Option<String>),
        VfsError,
    >)
        requires
            old(self).inv(),
        ensures
            final(self).inv(),
            final(self).vcs == old(self).vcs,
            wheel_error(session, old(self).fs.reg()) matches Some(e) ==> r is Err && r->Err_0@ == e
                && final(self).fs == old(self).fs,
            wheel_error(session, old(self).fs.reg()) is None && old(self).fs.reg().uid_index().contains_key(
                name@,
            ) ==> r is Err && r->Err_0@ == ErrorView::AuthError("user already exists: "@ + name@),
            wheel_error(session, old(self).fs.reg()) is None && !old(self).fs.reg().uid_index().contains_key(
                name@,
            ) && old(self).fs.reg().next_uid() < u32::MAX && old(self).fs.reg().next_gid() < u32::MAX ==> {
                &&& r is Ok
                &&& r->Ok_0.0 == old(self).fs.reg().next_uid()
                &&& final(self).fs.reg().uid_index() == old(self).fs.reg().uid_index().insert(
                    name@,
                    old(self).fs.reg().next_uid(),
                )
                &&& (r->Ok_0.1 is Some <==> is_agent)
            },
    {
        self.require_wheel(session)?;
        if self.fs.registry().lookup_uid(name).is_some() {
            let mut message = owned("user already exists: ");
            push_str(&mut message, name);
            return Err(VfsError::AuthError { message });
        }
        require_user_ids(&self.fs)?;
        let ghost before = self.fs;
        let added = self.fs.registry_mut().add_user(name, is_agent);
        proof {
            before.lemma_tree_wf_frame(&self.fs);
        }
        let result = added?;
        let uid = result.0;
        let gid = match self.fs.registry().get_user(uid) {
            Some(u) => crate::auth::first_id(&u.groups),
            None => 0,
        };
        let ghost reg = self.fs.reg();
        let mut home = owned("/home/");
        push_str(&mut home, name);
        let _ = self.fs.mkdir_p(home.as_str(), uid, gid);
        let _ = self.fs.chmod(home.as_str(), 0o700);
        assert(self.fs.reg() == reg);
        Ok(result)
    }

    /// Deletes a user.
    pub fn admin_del_user(&mut self, session: &Session, name: &str) -> (r: Result<(), VfsError>)
        requires
            old(self).inv(),
        ensures
            final(self).inv(),
            final(self).vcs == old(self).vcs,
            final(self).fs.inodes() == old(self).fs.inodes(),
            wheel_error(session, old(self).fs.reg()) matches Some(e) ==> r is Err && r->Err_0@ == e
                && final(self).fs == old(self).fs,
            wheel_error(session, old(self).fs.reg()) is None ==> {
                &&& !old(self).fs.reg().uid_index().contains_key(name@) ==> r is Err && r->Err_0@
                    == ErrorView::AuthError("no such user: "@ + name@)
                &&& old(self).fs.reg().uid_index().contains_key(name@) && old(self).fs.reg().uid_index()[name@]
                    == ROOT_UID ==> r is Err && r->Err_0@ == ErrorView::AuthError("cannot delete root"@)
                &&& old(self).fs.reg().uid_index().contains_key(name@) && old(self).fs.reg().uid_index()[name@]
                    != ROOT_UID ==> r is Ok && final(self).fs.reg().uid_index() == old(self).fs.reg().uid_index().remove(name@)
            },
    {
        self.require_wheel(session)?;
        let ghost before = self.fs;
        let r = self.fs.registry_mut().del_user(name);
        proof {
            before.lemma_tree_wf_frame(&self.fs);
        }
        r
    }

    /// Adds a group and returns its gid.
    pub fn admin_add_group(&mut self, session: &Session, name: &str) -> (r: Result<Gid, VfsError>)
        requires
            old(self).inv(),
        ensures
            final(self).inv(),
            final(self).vcs == old(self).vcs,
            final(self).fs.inodes() == old(self).fs.inodes(),
            wheel_error(session, old(self).fs.reg()) matches Some(e) ==> r is Err && r->Err_0@ == e
                && final(self).fs == old(self).fs,
            wheel_error(session, old(self).fs.reg()) is None ==> {
                &&& old(self).fs.reg().gid_index().contains_key(name@) ==> r is Err && r->Err_0@
                    == ErrorView::AuthError("group already exists: "@ + name@)
                &&& !old(self).fs.reg().gid_index().contains_key(name@) && old(self).fs.reg().next_gid()
                    < u32::MAX ==> r == Ok::<Gid, VfsError>(old(self).fs.reg().next_gid())
                    && final(self).fs.reg().gid_index() == old(self).fs.reg().gid_index().insert(
                    name@,
                    old(self).fs.reg().next_gid(),
                )
            },
    {
        self.require_wheel(session)?;
        if self.fs.registry().lookup_gid(name).is_some() {
            let mut message = owned("group already exists: ");
            push_str(&mut message, name);
            return Err(VfsError::AuthError { message });
        }
        if self.fs.registry().next_ids().1 == u32::MAX {
            return Err(VfsError::NotSupported { message: owned("group ids exhausted") });
        }
        let ghost before = self.fs;
        let r = self.fs.registry_mut().add_group(name);
        proof {
            before.lemma_tree_wf_frame(&self.fs);
        }
        r
    }

    /// Deletes a group other than root and wheel.
    pub fn admin_del_group(&mut self, session: &Session, name: &str) -> (r: Result<(), VfsError>)
        requires
            old(self).inv(),
        ensures
            final(self).inv(),
            final(self).vcs == old(self).vcs,
            final(self).fs.inodes() == old(self).fs.inodes(),
            wheel_error(session, old(self).fs.reg()) matches Some(e) ==> r is Err && r->Err_0@ == e
                && final(self).fs == old(self).fs,
            wheel_error(session, old(self).fs.reg()) is None ==> {
                &&& !old(self).fs.reg().gid_index().contains_key(name@) ==> r is Err && r->Err_0@
                    == ErrorView::AuthError("no such group: "@ + name@)
                &&& old(self).fs.reg().gid_index().contains_key(name@) && (old(self).fs.reg().gid_index()[name@]
                    == ROOT_GID || old(self).fs.reg().gid_index()[name@] == WHEEL_GID) ==> r is Err
                    && r->Err_0@ == ErrorView::AuthError("cannot delete system group: "@ + name@)
                &&& old(self).fs.reg().gid_index().contains_key(name@) && old(self).fs.reg().gid_index()[name@]
                    != ROOT_GID && old(self).fs.reg().gid_index()[name@] != WHEEL_GID ==> r is Ok
            },
    {
        self.require_wheel(session)?;
        let ghost before = self.fs;
        let r = self.fs.registry_mut().del_group(name);
        proof {
            before.lemma_tree_wf_frame(&self.fs);
        }
        r
    }

    /// Adds a user to a group.
    pub fn admin_usermod_add(&mut self, session: &Session, user: &str, group: &str) -> (r: Result<(), VfsError>)
        requires
            old(self).inv(),
        ensures
            final(self).inv(),
            final(self).vcs == old(self).vcs,
            final(self).fs.inodes() == old(self).fs.inodes(),
            wheel_error(session, old(self).fs.reg()) matches Some(e) ==> r is Err && r->Err_0@ == e
                && final(self).fs == old(self).fs,
            wheel_error(session, old(self).fs.reg()) is None ==> {
                &&& !old(self).fs.reg().uid_index().contains_key(user@) ==> r is Err && r->Err_0@
                    == ErrorView::AuthError("no such user: "@ + user@)
                &&& old(self).fs.reg().uid_index().contains_key(user@) && !old(self).fs.reg().gid_index().contains_key(
                    group@,
                ) ==> r is Err && r->Err_0@ == ErrorView::AuthError("no such group: "@ + group@)
                &&& old(self).fs.reg().uid_index().contains_key(user@) && old(self).fs.reg().gid_index().contains_key(
                    group@,
                ) ==> {
                    let reg = old(self).fs.reg();
                    let uid = reg.uid_index()[user@];
                    let gid = reg.gid_index()[group@];
                    let u = reg.users()[uid_pos(reg.users(), uid)];
                    let g = reg.groups()[gid_pos(reg.groups(), gid)];
                    &&& r is Ok
                    &&& final(self).fs.reg().users() == reg.users().update(
                        uid_pos(reg.users(), uid),
                        UserView {
                            groups: if u.groups.contains(gid) {
                                u.groups
                            } else {
                                u.groups.push(gid)
                            },
                            ..u
                        },
                    )
                    &&& final(self).fs.reg().groups() == reg.groups().update(
                        gid_pos(reg.groups(), gid),
                        GroupView {
                            members: if g.members.contains(uid) {
                                g.members
                            } else {
                                g.members.push(uid)
                            },
                            ..g
                        },
                    )
                }
            },
    {
        self.require_wheel(session)?;
        let ghost before = self.fs;
        let r = self.fs.registry_mut().usermod_add_group(user, group);
        proof {
            before.lemma_tree_wf_frame(&self.fs);
        }
        r
    }

    /// Removes a user from a group.
    pub fn admin_usermod_remove(&mut self, session: &Session, user: &str, group: &str) -> (r: Result<
        (),
        VfsError,
    >)
        requires
            old(self).inv(),
        ensures
            final(self).inv(),
            final(self).vcs == old(self).vcs,
            final(self).fs.inodes() == old(self).fs.inodes(),
            wheel_error(session, old(self).fs.reg()) matches Some(e) ==> r is Err && r->Err_0@ == e
                && final(self).fs == old(self).fs,
            wheel_error(session, old(self).fs.reg()) is None ==> {
                &&& !old(self).fs.reg().uid_index().contains_key(user@) ==> r is Err && r->Err_0@
                    == ErrorView::AuthError("no such user: "@ + user@)
                &&& old(self).fs.reg().uid_index().contains_key(user@) && !old(self).fs.reg().gid_index().contains_key(
                    group@,
                ) ==> r is Err && r->Err_0@ == ErrorView::AuthError("no such group: "@ + group@)
                &&& old(self).fs.reg().uid_index().contains_key(user@) && old(self).fs.reg().gid_index().contains_key(
                    group@,
                ) ==> {
                    let reg = old(self).fs.reg();
                    let uid = reg.uid_index()[user@];
                    let gid = reg.gid_index()[group@];
                    let u = reg.users()[uid_pos(reg.users(), uid)];
                    let g = reg.groups()[gid_pos(reg.groups(), gid)];
                    &&& r is Ok
                    &&& final(self).fs.reg().users() == reg.users().update(
                        uid_pos(reg.users(), uid),
                        UserView { groups: without(u.groups, gid), ..u },
                    )
                    &&& final(self).fs.reg().groups() == reg.groups().update(
                        gid_pos(reg.groups(), gid),
                        GroupView { members: without(g.members, uid), ..g },
                    )
                }
            },
    {
        self.require_wheel(session)?;
        let ghost before = self.fs;
        let r = self.fs.registry_mut().usermod_remove_group(user, group);
        proof {
            before.lemma_tree_wf_frame(&self.fs);
        }
        r
    }

    /// Gives a user a fresh token and returns it; the old token stops
    /// working.
    pub fn admin_issue_token(&mut self, session: &Session, name: &str) -> (r: Result<String, VfsError>)
        requires
            old(self).inv(),
        ensures
            final(self).inv(),
            final(self).vcs == old(self).vcs,
            final(self).fs.inodes() == old(self).fs.inodes(),
            final(self).fs.reg().uid_index() == old(self).fs.reg().uid_index(),
            wheel_error(session, old(self).fs.reg()) matches Some(e) ==> r is Err && r->Err_0@ == e
                && final(self).fs == old(self).fs,
            wheel_error(session, old(self).fs.reg()) is None ==> {
                &&& !old(self).fs.reg().uid_index().contains_key(name@) ==> r is Err && r->Err_0@
                    == ErrorView::AuthError("no such user: "@ + name@)
                &&& old(self).fs.reg().uid_index().contains_key(name@) ==> r is Ok && (user_of(
                    final(self).fs.reg().users(),
                    old(self).fs.reg().uid_index()[name@],
                ) matches Some(u) && u.api_token == Some(token_hash(r->Ok_0@)))
            },
    {
        self.require_wheel(session)?;
        let ghost before = self.fs;
        let r = self.fs.registry_mut().regenerate_token(name);
        proof {
            before.lemma_tree_wf_frame(&self.fs);
            if before.reg().uid_index().contains_key(name@) {
                let uid = before.reg().uid_index()[name@];
                before.reg().lemma_indexed_user(name@);
                let ui = crate::auth::registry::uid_pos(before.reg().users(), uid);
                self.fs.reg().lemma_user_at(ui);
            }
        }
        r
    }
}

/// Whether the session may change the metadata of something owned by
/// `owner` outside the ordinary rules: root, the wheel group, or the owner.
pub open spec fn may_administer(session: &Session, reg: UserRegistry, owner: Uid) -> bool {
    ||| session.spec_is_effectively_root()
    ||| (user_of(reg.users(), session.uid) matches Some(u) && u.groups.contains(WHEEL_GID))
    ||| session.spec_is_effective_owner(owner)
}

/// The group `admin_chown` gives when none is named: the new owner's first
/// group, or 0 for an owner without a user.
pub open spec fn default_gid(reg: UserRegistry, uid: Uid) -> Gid {
    match user_of(reg.users(), uid) {
        Some(u) => u.groups[0],
        None => 0,
    }
}

impl DbState {
    /// Sets the mode of what `path` resolves to, for root, the wheel group
    /// and the owner.
    pub fn admin_chmod(&mut self, session: &Session, path: &str, mode: u16) -> (r: Result<(), VfsError>)
        requires
            old(self).inv(),
        ensures
            final(self).inv(),
            final(self).vcs == old(self).vcs,
            final(self).fs.reg() == old(self).fs.reg(),
            match old(self).fs.resolve(path@) {
                Err(e) => r is Err && r->Err_0@ == e && final(self).fs == old(self).fs,
                Ok(id) => if !old(self).fs.inodes().contains_key(id) {
                    r is Err && r->Err_0@ == ErrorView::NotFound(label(id)) && final(self).fs == old(self).fs
                } else if !may_administer(session, old(self).fs.reg(), old(self).fs.inodes()[id].uid) {
                    r is Err && r->Err_0@ == ErrorView::PermissionDenied(path@) && final(self).fs == old(self).fs
                } else {
                    r is Ok && final(self).fs.inodes() == old(self).fs.inodes().insert(
                        id,
                        InodeView { mode, ..old(self).fs.inodes()[id] },
                    )
                },
            },
    {
        let info = self.fs.stat(path)?;
        let is_wheel = self.fs.registry().is_wheel_member(session.uid);
        if !session.is_effectively_root() && !is_wheel && !session.is_effective_owner(info.uid) {
            return Err(VfsError::PermissionDenied { path: owned(path) });
        }
        let ghost before = self.fs;
        let r = self.fs.chmod(path, mode);
        assert(self.fs.frame(&before));
        r
    }

    /// Gives what `path` resolves to a new owner, and a group: the one
    /// named, or the owner's first group. Changing the owner is for root
    /// and the wheel group; changing only the group is also for the owner.
    pub fn admin_chown(&mut self, session: &Session, path: &str, owner: &str, group: Option<&str>) -> (r: Result<
        (),
        VfsError,
    >)
        requires
            old(self).inv(),
            group is None && old(self).fs.reg().uid_index().contains_key(owner@) ==> (user_of(
                old(self).fs.reg().users(),
                old(self).fs.reg().uid_index()[owner@],
            ) matches Some(u) && u.groups.len() > 0),
        ensures
            final(self).inv(),
            final(self).vcs == old(self).vcs,
            final(self).fs.reg() == old(self).fs.reg(),
            ({
                let reg = old(self).fs.reg();
                if !reg.uid_index().contains_key(owner@) {
                    r is Err && r->Err_0@ == ErrorView::AuthError("no such user: "@ + owner@) && final(self).fs
                        == old(self).fs
                } else if group matches Some(g) && !reg.gid_index().contains_key(g@) {
                    r is Err && r->Err_0@ == ErrorView::AuthError("no such group: "@ + group->0@) && final(self).fs == old(self).fs
                } else {
                    let uid = reg.uid_index()[owner@];
                    let gid = match group {
                        Some(g) => reg.gid_index()[g@],
                        None => default_gid(reg, uid),
                    };
                    match old(self).fs.resolve(path@) {
                        Err(e) => r is Err && r->Err_0@ == e && final(self).fs == old(self).fs,
                        Ok(id) => if !old(self).fs.inodes().contains_key(id) {
                            r is Err && r->Err_0@ == ErrorView::NotFound(label(id)) && final(self).fs == old(self).fs
                        } else {
                            let cur = old(self).fs.inodes()[id].uid;
                            let admin = session.spec_is_effectively_root() || (user_of(
                                reg.users(),
                                session.uid,
                            ) matches Some(u) && u.groups.contains(WHEEL_GID));
                            if (cur != uid && !admin) || (cur == uid && !admin
                                && !session.spec_is_effective_owner(cur)) {
                                r is Err && r->Err_0@ == ErrorView::PermissionDenied(path@) && final(self).fs
                                    == old(self).fs
                            } else {
                                r is Ok && final(self).fs.inodes() == old(self).fs.inodes().insert(
                                    id,
                                    InodeView { uid, gid, ..old(self).fs.inodes()[id] },
                                )
                            }
                        },
                    }
                }
            }),
    {
        let reg = self.fs.registry();
        let target_uid = match reg.lookup_uid(owner) {
            Some(u) => u,
            None => {
                let mut message = owned("no such user: ");
                push_str(&mut message, owner);
                return Err(VfsError::AuthError { message });
            },
        };
        let target_gid = match group {
            Some(g) => match reg.lookup_gid(g) {
                Some(gid) => gid,
                None => {
                    let mut message = owned("no such group: ");
                    push_str(&mut message, g);
                    return Err(VfsError::AuthError { message });
                },
            },
            None => match reg.get_user(target_uid) {
                Some(u) => u.groups[0],
                None => 0,
            },
        };
        let is_wheel = reg.is_wheel_member(session.uid);
        let info = self.fs.stat(path)?;
        let is_owner_change = info.uid != target_uid;
        if is_owner_change && !session.is_effectively_root() && !is_wheel {
            return Err(VfsError::PermissionDenied { path: owned(path) });
        }
        if !is_owner_change && !session.is_effectively_root() && !is_wheel && !session.is_effective_owner(
            info.uid,
        ) {
            return Err(VfsError::PermissionDenied { path: owned(path) });
        }
        let ghost before = self.fs;
        let r = self.fs.chown(path, target_uid, target_gid);
        assert(self.fs.frame(&before));
        r
    }
}

} // verus!
