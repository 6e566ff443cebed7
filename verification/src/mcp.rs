//! The tools offered to agents over the model context protocol: each call
//! names a tool and carries arguments; the answer is a text, or an error
//! text. Speaking the protocol and decoding JSON belong to the server that
//! carries the calls.

use vstd::prelude::*;
use crate::auth::perms::Access;
use crate::auth::session::Session;
use crate::cmd::join_strings;
use crate::cmd::join_with;
use crate::cmd::require_ids;
use crate::db::DbState;
use crate::error::{message_of, res_view, ErrorView, VfsError};
use crate::auth::{Gid, Uid};
use crate::fs::search::row_of;
use crate::fs::{components, GrepResult, LsEntry, VirtualFs};
use crate::fs::growth::{lemma_plain_no_up, lemma_walk_path, lemma_walk_push, no_up, plain_comps, plain_name};
use crate::fs::inode::InodeId;
use crate::fs::is_markdown;
use crate::server::routes_fs::deleted;
use crate::vcs::snap_dir;
use crate::vcs::revert::{holds_tree, only_tree, tree_complete, tree_simple, tree_size};
use crate::server::perms::{parent_of, parent_path, stat_of};
use crate::store::commit::{CommitObject, CommitView};
use crate::text::{decimal, has_prefix, hex_of, owned, push_decimal, push_str, str_eq, strip_prefix, utf8_lossy, utf8_lossy_string};
use crate::vcs::matching;

verus! {

/// The arguments of a tool call that the tools read: each is present when
/// the call carries it with the right type.
#[derive(Debug)]
pub struct ToolArgs {
    pub path: Option<String>,
    pub content: Option<String>,
    pub pattern: Option<String>,
    pub name: Option<String>,
    pub recursive: Option<bool>,
    pub source: Option<String>,
    pub destination: Option<String>,
    pub message: Option<String>,
    pub hash: Option<String>,
}

/// The value of an optional text.
pub open spec fn text_of(o: Option<String>) -> Option<Seq<char>> {
    match o {
        Some(s) => Some(s@),
        None => None,
    }
}

/// Why the session may not read `path`, if it may not.
pub open spec fn read_denial(fs: &VirtualFs, session: &Session, path: Seq<char>) -> Option<Seq<char>> {
    if session.spec_is_effectively_root() {
        None
    } else {
        match stat_of(fs, path) {
            Err(e) => Some(message_of(e)),
            Ok(v) => if session.allows(v.mode, v.uid, v.gid, Access::Read) {
                None
            } else {
                Some("permission denied: "@ + path)
            },
        }
    }
}

/// The directory whose write permission guards changes to `path`'s entry.
pub open spec fn guarding_dir(path: Seq<char>) -> Seq<char> {
    if parent_path(path).len() == 0 {
        "/"@
    } else {
        parent_path(path)
    }
}

/// Why the session may not change the entry of `path` in its directory,
/// if it may not.
pub open spec fn parent_write_denial(fs: &VirtualFs, session: &Session, path: Seq<char>) -> Option<
    Seq<char>,
> {
    if session.spec_is_effectively_root() {
        None
    } else {
        match stat_of(fs, guarding_dir(path)) {
            Err(e) => Some(message_of(e)),
            Ok(v) => if session.allows(v.mode, v.uid, v.gid, Access::Write) {
                None
            } else {
                Some("permission denied: "@ + guarding_dir(path))
            },
        }
    }
}

/// Why the session may not write `path`, if it may not: an existing file
/// needs write permission, a new one write permission on its directory.
pub open spec fn write_denial(fs: &VirtualFs, session: &Session, path: Seq<char>) -> Option<Seq<char>> {
    if session.spec_is_effectively_root() {
        None
    } else {
        match stat_of(fs, path) {
            Err(_) => parent_write_denial(fs, session, path),
            Ok(v) => if session.allows(v.mode, v.uid, v.gid, Access::Write) {
                None
            } else {
                Some("permission denied: "@ + path)
            },
        }
    }
}

/// The search results as the tool shows them.
pub open spec fn search_text(rows: Seq<(Seq<char>, int, Seq<char>)>) -> Seq<char>
    decreases rows.len(),
{
    if rows.len() == 0 {
        Seq::empty()
    } else {
        let (file, n, line) = rows.last();
        search_text(rows.drop_last()) + file + ":"@ + decimal(n as nat) + ": "@ + line + "\n"@
    }
}

/// One line of the tool's history: short id, author and message.
pub open spec fn history_line(c: CommitView) -> Seq<char> {
    hex_of(c.id).take(8) + " "@ + c.author + " "@ + c.message + "\n"@
}

/// The history lines of some commits, newest first.
pub open spec fn history(cs: Seq<CommitObject>) -> Seq<char>
    decreases cs.len(),
{
    if cs.len() == 0 {
        Seq::empty()
    } else {
        history_line(cs.last()@) + history(cs.drop_last())
    }
}

/// The author the tools commit as: the session's user, or `mcp-agent` for
/// a session without a name.
pub open spec fn tool_author(session: &Session) -> Seq<char> {
    if session.username@.len() == 0 {
        "mcp-agent"@
    } else {
        session.username@
    }
}

/// The tools that change the database.
pub open spec fn is_write_tool(t: Option<Tool>) -> bool {
    t == Some(Tool::WriteFile) || t == Some(Tool::CreateDirectory) || t == Some(Tool::DeleteFile) || t == Some(
        Tool::MoveFile,
    ) || t == Some(Tool::Commit) || t == Some(Tool::Revert)
}

/// Checks that the session may read `path`.
fn require_read(fs: &VirtualFs, session: &Session, path: &str) -> (r: Result<(), String>)
    requires
        fs.wf(),
    ensures
        match read_denial(fs, session, path@) {
            Some(m) => r is Err && r->Err_0@ == m,
            None => r is Ok,
        },
{
    if session.is_effectively_root() {
        return Ok(());
    }
    let info = match fs.stat(path) {
        Ok(i) => i,
        Err(e) => {
            return Err(e.message());
        },
    };
    if session.has_permission_bits(info.mode, info.uid, info.gid, Access::Read) {
        Ok(())
    } else {
        let mut m = owned("permission denied: ");
        push_str(&mut m, path);
        Err(m)
    }
}

/// Checks that the session may change the entry of `path` in its
/// directory.
fn require_parent_write(fs: &VirtualFs, session: &Session, path: &str) -> (r: Result<(), String>)
    requires
        fs.wf(),
    ensures
        match parent_write_denial(fs, session, path@) {
            Some(m) => r is Err && r->Err_0@ == m,
            None => r is Ok,
        },
{
    if session.is_effectively_root() {
        return Ok(());
    }
    let parent = parent_of(path);
    let parent_path = if parent.as_str().unicode_len() == 0 {
        owned("/")
    } else {
        parent
    };
    let info = match fs.stat(parent_path.as_str()) {
        Ok(i) => i,
        Err(e) => {
            return Err(e.message());
        },
    };
    if session.has_permission_bits(info.mode, info.uid, info.gid, Access::Write) {
        Ok(())
    } else {
        let mut m = owned("permission denied: ");
        push_str(&mut m, parent_path.as_str());
        Err(m)
    }
}

/// Checks that the session may write `path`.
fn require_write(fs: &VirtualFs, session: &Session, path: &str) -> (r: Result<(), String>)
    requires
        fs.wf(),
    ensures
        match write_denial(fs, session, path@) {
            Some(m) => r is Err && r->Err_0@ == m,
            None => r is Ok,
        },
{
    if session.is_effectively_root() {
        return Ok(());
    }
    match fs.stat(path) {
        Ok(info) => {
            if session.has_permission_bits(info.mode, info.uid, info.gid, Access::Write) {
                Ok(())
            } else {
                let mut m = owned("permission denied: ");
                push_str(&mut m, path);
                Err(m)
            }
        },
        Err(_) => require_parent_write(fs, session, path),
    }
}

/// Whether an answer is the expected text or error text.
pub open spec fn answers(r: Result<String, String>, expect: Result<Seq<char>, Seq<char>>) -> bool {
    match (r, expect) {
        (Ok(t), Ok(e)) => t@ == e,
        (Err(t), Err(e)) => t@ == e,
        _ => false,
    }
}

/// The tools there are.
#[derive(Clone, Copy, Debug, PartialEq, Eq, Structural)]
pub enum Tool {
    ReadFile,
    WriteFile,
    ListDirectory,
    SearchFiles,
    FindFiles,
    CreateDirectory,
    DeleteFile,
    MoveFile,
    Commit,
    GetHistory,
    Revert,
}

/// The tool a name selects, if any.
pub open spec fn tool_of(name: Seq<char>) -> Option<Tool> {
    if name == "read_file"@ {
        Some(Tool::ReadFile)
    } else if name == "write_file"@ {
        Some(Tool::WriteFile)
    } else if name == "list_directory"@ {
        Some(Tool::ListDirectory)
    } else if name == "search_files"@ {
        Some(Tool::SearchFiles)
    } else if name == "find_files"@ {
        Some(Tool::FindFiles)
    } else if name == "create_directory"@ {
        Some(Tool::CreateDirectory)
    } else if name == "delete_file"@ {
        Some(Tool::DeleteFile)
    } else if name == "move_file"@ {
        Some(Tool::MoveFile)
    } else if name == "commit"@ {
        Some(Tool::Commit)
    } else if name == "get_history"@ {
        Some(Tool::GetHistory)
    } else if name == "revert"@ {
        Some(Tool::Revert)
    } else {
        None
    }
}

/// Looks a tool up by name.
pub fn tool_named(name: &str) -> (r: Option<Tool>)
    ensures
        r == tool_of(name@),
{
    if str_eq(name, "read_file") {
        Some(Tool::ReadFile)
    } else if str_eq(name, "write_file") {
        Some(Tool::WriteFile)
    } else if str_eq(name, "list_directory") {
        Some(Tool::ListDirectory)
    } else if str_eq(name, "search_files") {
        Some(Tool::SearchFiles)
    } else if str_eq(name, "find_files") {
        Some(Tool::FindFiles)
    } else if str_eq(name, "create_directory") {
        Some(Tool::CreateDirectory)
    } else if str_eq(name, "delete_file") {
        Some(Tool::DeleteFile)
    } else if str_eq(name, "move_file") {
        Some(Tool::MoveFile)
    } else if str_eq(name, "commit") {
        Some(Tool::Commit)
    } else if str_eq(name, "get_history") {
        Some(Tool::GetHistory)
    } else if str_eq(name, "revert") {
        Some(Tool::Revert)
    } else {
        None
    }
}

/// The history text.
fn history_text(vcs: &crate::vcs::Vcs) -> (r: String)
    ensures
        r@ == (if vcs.commits@.len() == 0 {
            "No commits yet."@
        } else {
            history(vcs.commits@)
        }),
{
    let commits = vcs.log();
    if commits.len() == 0 {
        return owned("No commits yet.");
    }
    let ghost cs = vcs.commits@;
    let n = commits.len();
    let mut out = String::new();
    let mut i: usize = 0;
    proof {
        assert(cs.take(n as int) =~= cs);
    }
    while i < n
        invariant
            n == cs.len(),
            cs == vcs.commits@,
            commits@.len() == n,
            forall|j: int| 0 <= j < n ==> *commits@[j] == cs[n - 1 - j],
            i <= n,
            history(cs) == out@ + history(cs.take(n - i)),
        decreases n - i,
    {
        let c = commits[i];
        proof {
            assert(cs.take(n - i).drop_last() =~= cs.take(n - i - 1));
            assert(cs.take(n - i).last() == cs[n - 1 - i]);
        }
        push_str(&mut out, c.id.short_hex().as_str());
        push_str(&mut out, " ");
        push_str(&mut out, c.author.as_str());
        push_str(&mut out, " ");
        push_str(&mut out, c.message.as_str());
        push_str(&mut out, "\n");
        i += 1;
    }
    proof {
        assert(cs.take(0) =~= Seq::<CommitObject>::empty());
        assert(out@ =~= out@ + Seq::<char>::empty());
    }
    out
}

/// The search results as text.
fn search_results_text(results: &Vec<GrepResult>) -> (r: String)
    ensures
        r@ == (if results@.len() == 0 {
            "No matches found."@
        } else {
            search_text(results@.map_values(|g: GrepResult| row_of(g)))
        }),
{
    if results.len() == 0 {
        return owned("No matches found.");
    }
    let ghost rows = results@.map_values(|g: GrepResult| row_of(g));
    let mut out = String::new();
    let mut i: usize = 0;
    proof {
        assert(rows.take(0) =~= Seq::<(Seq<char>, int, Seq<char>)>::empty());
    }
    while i < results.len()
        invariant
            i <= results@.len(),
            rows == results@.map_values(|g: GrepResult| row_of(g)),
            out@ == search_text(rows.take(i as int)),
        decreases results.len() - i,
    {
        let g = &results[i];
        proof {
            assert(rows.take(i + 1).drop_last() =~= rows.take(i as int));
            assert(rows.take(i + 1).last() == row_of(*g));
        }
        push_str(&mut out, g.file.as_str());
        push_str(&mut out, ":");
        push_decimal(&mut out, g.line_num as u64);
        push_str(&mut out, ": ");
        push_str(&mut out, g.line.as_str());
        push_str(&mut out, "\n");
        i += 1;
    }
    proof {
        assert(rows.take(rows.len() as int) =~= rows);
    }
    out
}

/// A flag that was given, or `d`.
pub open spec fn flag_or(o: Option<bool>, d: bool) -> bool {
    match o {
        Some(b) => b,
        None => d,
    }
}

/// The lines that listing `rows` shows the session: the name of each row
/// it may read, directories marked with a trailing `/`.
pub open spec fn listing_text(rows: Seq<LsEntry>, session: &Session) -> Seq<char>
    decreases rows.len(),
{
    if rows.len() == 0 {
        Seq::empty()
    } else {
        let e = rows.last();
        listing_text(rows.drop_last(), session) + if session.spec_is_effectively_root() || session.allows(
            e.mode,
            e.uid,
            e.gid,
            Access::Read,
        ) {
            e.name@ + (if e.is_dir {
                "/"@
            } else {
                Seq::empty()
            }) + "\n"@
        } else {
            Seq::empty()
        }
    }
}

/// What listing `path` answers the session: the listing's error, or its
/// lines.
pub open spec fn listed(fs: &VirtualFs, session: &Session, path: Option<Seq<char>>, r: Result<String, String>) -> bool {
    exists|res: Result<Seq<LsEntry>, ErrorView>|
        #[trigger] fs.ls_gives(path, res) && answers(
            r,
            match res {
                Err(e) => Err(message_of(e)),
                Ok(rows) => Ok(listing_text(rows, session)),
            },
        )
}

/// `list_directory`: the entries of a directory that the session may
/// read, one per line, directories marked with a trailing `/`.
fn list_directory_tool(fs: &VirtualFs, session: &Session, args: &ToolArgs) -> (r: Result<String, String>)
    requires
        fs.wf(),
    ensures
        match args.path {
            Some(p) => match read_denial(fs, session, p@) {
                Some(m) => answers(r, Err(m)),
                None => listed(fs, session, text_of(args.path), r),
            },
            None => listed(fs, session, None, r),
        },
{
    let path = match &args.path {
        Some(p) => Some(p.as_str()),
        None => None,
    };
    if let Some(p) = path {
        require_read(fs, session, p)?;
    }
    let ghost pv: Option<Seq<char>> = text_of(args.path);
    let lr = fs.ls(path);
    proof {
        assert(fs.ls_gives(pv, match lr {
            Ok(v) => Ok(v@),
            Err(e) => Err(e@),
        }));
    }
    let entries = match lr {
        Ok(es) => es,
        Err(e) => {
            return Err(e.message());
        },
    };
    let root = session.is_effectively_root();
    let mut out = String::new();
    let mut i: usize = 0;
    proof {
        assert(entries@.take(0) =~= Seq::<LsEntry>::empty());
    }
    while i < entries.len()
        invariant
            i <= entries@.len(),
            root == session.spec_is_effectively_root(),
            out@ == listing_text(entries@.take(i as int), session),
        decreases entries.len() - i,
    {
        proof {
            assert(entries@.take(i + 1).drop_last() =~= entries@.take(i as int));
            assert(entries@.take(i + 1).last() == entries@[i as int]);
        }
        let e = &entries[i];
        if root || session.has_permission_bits(e.mode, e.uid, e.gid, Access::Read) {
            push_str(&mut out, e.name.as_str());
            if e.is_dir {
                push_str(&mut out, "/");
            }
            push_str(&mut out, "\n");
        }
        i += 1;
    }
    proof {
        assert(entries@.take(i as int) =~= entries@);
    }
    Ok(out)
}

/// Writing `n` bytes to `p`, a path that does not resolve yet, is owed to
/// succeed: its components are plain, it names a Markdown file, the bytes
/// are within the limit, the directory it starts from is one, every
/// directory on the way that exists is one, and the ids last for the
/// directories and the file to make.
pub open spec fn new_write_owed(fs: &VirtualFs, p: Seq<char>, n: nat, max_file_size: usize) -> bool {
    &&& plain_comps(components(p))
    &&& components(p).len() > 0
    &&& is_markdown(p)
    &&& n <= max_file_size
    &&& fs.resolve(p) is Err
    &&& fs.dir_of(fs.start(p)) is Ok
    &&& fs.mkdir_p_ok(fs.start(p), components(p).drop_last())
    &&& fs.next_id() + components(p).len() <= u64::MAX
}

/// `write_file`: creates the file (and its missing parent directories)
/// when needed, then replaces its content.
/// Writes `bytes` to `path`, first making its missing parent directories
/// and the file itself, owned by `uid` and `gid`, when `path` does not
/// exist. Also says whether the database changed.
pub(crate) fn write_creating(db: &mut DbState, path: &str, bytes: Vec<u8>, max_file_size: usize, uid: Uid, gid: Gid) -> (r: (
    Result<(), VfsError>,
    bool,
))
    requires
        old(db).inv(),
    ensures
        final(db).inv(),
        final(db).vcs == old(db).vcs,
        r.0 is Ok ==> r.1 && final(db).fs.read(path@) == Ok::<Seq<u8>, ErrorView>(bytes@),
        stat_of(&old(db).fs, path@) is Ok ==> (r.0 is Ok <==> (bytes@.len() <= max_file_size && old(
            db,
        ).fs.write_target(path@) is Ok)),
        new_write_owed(&old(db).fs, path@, bytes@.len(), max_file_size) ==> r.0 is Ok,
        final(db).fs.kept_owners(&old(db).fs, uid, gid, bytes@),
{
    let mut dirty = false;
    let ghost f0 = db.fs;
    let ghost owed = new_write_owed(&f0, path@, bytes@.len(), max_file_size);
    let ghost cs = components(path@);
    proof {
        f0.lemma_kept_refl(uid, gid, bytes@);
        if owed {
            lemma_plain_no_up(cs);
            reveal_strlit(".");
            reveal_strlit("..");
            assert("."@ =~= seq!['.']);
            assert(".."@ =~= seq!['.', '.']);
        }
    }
    if db.fs.stat(path).is_err() {
        let parent = parent_of(path);
        proof {
            crate::server::perms::lemma_parent_components(path@);
            if owed {
                assert(components(parent@) == cs.drop_last());
                assert(no_up(cs.drop_last())) by {
                    assert forall|j: int| 0 <= j < cs.drop_last().len() implies #[trigger] cs.drop_last()[j] != seq![
                        '.',
                        '.',
                    ] by {
                        assert(cs.drop_last()[j] == cs[j]);
                    }
                }
                assert(plain_comps(cs.drop_last())) by {
                    assert forall|j: int| 0 <= j < cs.drop_last().len() implies plain_name(#[trigger] cs.drop_last()[j]) by {
                        assert(cs.drop_last()[j] == cs[j]);
                    }
                }
                assert(cs.drop_last().push(cs.last()) =~= cs);
                lemma_walk_push(&f0, f0.start(path@), cs.drop_last(), cs.last(), path@);
                if parent@.len() > 0 {
                    assert(f0.start(parent@) == f0.start(path@));
                }
            }
        }
        if parent.as_str().unicode_len() > 0 && db.fs.stat(parent.as_str()).is_err() {
            let mk = db.fs.mkdir_p(parent.as_str(), uid, gid);
            proof {
                db.fs.lemma_kept_grew(&f0, uid, gid, bytes@);
                if owed {
                    if f0.resolve(parent@) is Ok && cs.drop_last().len() > 0 {
                        f0.lemma_mkdir_p_ok_walk(f0.start(path@), cs.drop_last(), parent@);
                    }
                    assert(mk is Ok);
                    assert(f0.resolve(parent@) is Err);
                    let f1 = db.fs;
                    let x = f1.resolve(parent@)->Ok_0;
                    lemma_walk_path(&f1, f1.start(parent@), cs.drop_last(), parent@, path@);
                    lemma_walk_push(&f1, f1.start(path@), cs.drop_last(), cs.last(), path@);
                    assert(f1.resolve(path@) is Err);
                    assert(f1.resolve_parent_spec(path@) == Ok::<(InodeId, Seq<char>), ErrorView>((x, cs.last())));
                }
            }
            if let Err(e) = mk {
                return (Err(e), dirty);
            }
            dirty = true;
        } else {
            proof {
                if owed {
                    let x = f0.walk(f0.start(path@), cs.drop_last(), path@);
                    if cs.drop_last().len() > 0 {
                        lemma_walk_path(&f0, f0.start(path@), cs.drop_last(), parent@, path@);
                        f0.lemma_mkdir_p_ok_walk(f0.start(path@), cs.drop_last(), path@);
                    }
                    assert(f0.resolve_parent_spec(path@) is Ok);
                    assert(f0.dir_of(f0.resolve_parent_spec(path@)->Ok_0.0) is Ok);
                }
            }
        }
        let ghost f2 = db.fs;
        if let Err(e) = require_ids(&db.fs) {
            return (Err(e), dirty);
        }
        let t = db.fs.touch(path, uid, gid);
        proof {
            db.fs.lemma_kept_touch(&f2, &f0, path@, uid, gid, bytes@, res_view(t));
            if owed {
                assert(t is Ok);
                VirtualFs::lemma_touched_target(&f2, &db.fs, path@, uid, gid);
            }
        }
        if let Err(e) = t {
            return (Err(e), dirty);
        }
        dirty = true;
    }
    let ghost f3 = db.fs;
    let ghost content = bytes@;
    let w = db.write_file(path, bytes, max_file_size);
    proof {
        assert(f3.kept_owners(&f0, uid, gid, content));
        if content.len() <= max_file_size {
            if let Ok(id) = f3.write_target(path@) {
                db.fs.lemma_kept_write(&f3, &f0, id, uid, gid, content);
            } else {
                db.fs.lemma_kept_same(&f3, &f0, uid, gid, content);
            }
        }
        assert(db.fs.kept_owners(&f0, uid, gid, content));
    }
    match w {
        Ok(()) => (Ok(()), true),
        Err(e) => (Err(e), dirty),
    }
}

/// The bytes the `write_file` tool writes: the UTF-8 of its content.
pub open spec fn written_bytes(args: &ToolArgs) -> Seq<u8> {
    match args.content {
        Some(c) => vstd::utf8::encode_utf8(c@),
        None => Seq::empty(),
    }
}

fn write_file_tool(db: &mut DbState, session: &Session, max_file_size: usize, args: &ToolArgs) -> (r: (
    Result<String, String>,
    bool,
))
    requires
        old(db).inv(),
    ensures
        final(db).inv(),
        final(db).vcs == old(db).vcs,
        final(db).fs.kept_owners(
            &old(db).fs,
            session.spec_effective_uid(),
            session.spec_effective_gid(),
            written_bytes(args),
        ),
        match (args.path, args.content) {
            (None, _) => answers(r.0, Err("missing path"@)) && *final(db) == *old(db),
            (Some(_), None) => answers(r.0, Err("missing content"@)) && *final(db) == *old(db),
            (Some(p), Some(c)) => {
                &&& match write_denial(&old(db).fs, session, p@) {
                    Some(m) => answers(r.0, Err(m)) && *final(db) == *old(db),
                    None => true,
                }
                &&& r.0 is Ok ==> r.1 && final(db).fs.read(p@) == Ok::<Seq<u8>, ErrorView>(
                    vstd::utf8::encode_utf8(c@),
                ) && answers(r.0, Ok("Written "@ + decimal(vstd::utf8::encode_utf8(c@).len()) + " bytes to "@ + p@))
                &&& write_denial(&old(db).fs, session, p@) is None && stat_of(&old(db).fs, p@) is Ok ==> (r.0 is Ok
                    <==> (vstd::utf8::encode_utf8(c@).len() <= max_file_size && old(db).fs.write_target(p@) is Ok))
                &&& write_denial(&old(db).fs, session, p@) is None && new_write_owed(
                    &old(db).fs,
                    p@,
                    vstd::utf8::encode_utf8(c@).len(),
                    max_file_size,
                ) ==> r.0 is Ok
            },
        },
{
    proof {
        db.fs.lemma_kept_refl(session.spec_effective_uid(), session.spec_effective_gid(), written_bytes(args));
    }
    let path = match &args.path {
        Some(p) => p.as_str(),
        None => {
            return (Err(owned("missing path")), false);
        },
    };
    let content = match &args.content {
        Some(c) => c.as_str(),
        None => {
            return (Err(owned("missing content")), false);
        },
    };
    if let Err(m) = require_write(&db.fs, session, path) {
        return (Err(m), false);
    }
    let bytes = crate::fs::inode::copy_bytes(content.as_bytes());
    let n = bytes.len();
    let (res, dirty) = write_creating(db, path, bytes, max_file_size, session.effective_uid(), session.effective_gid());
    if let Err(e) = res {
        return (Err(e.message()), dirty);
    }
    let mut out = owned("Written ");
    push_decimal(&mut out, n as u64);
    push_str(&mut out, " bytes to ");
    push_str(&mut out, path);
    (Ok(out), true)
}

/// What `create_directory` answers and does.
pub open spec fn created_answer(old: &DbState, new: &DbState, session: &Session, args: &ToolArgs, r: Result<String, String>) -> bool {
    match text_of(args.path) {
        None => answers(r, Err("missing path"@)),
        Some(p) => match parent_write_denial(&old.fs, session, p) {
            Some(m) => answers(r, Err(m)),
            None => {
                &&& r is Ok ==> answers(r, Ok("Created directory: "@ + p))
                &&& new.fs.grew_dirs(&old.fs, session.spec_effective_uid())
                &&& new.vcs == old.vcs
                &&& no_up(components(p)) ==> (r is Ok <==> old.fs.mkdir_p_ok(
                    old.fs.start(p),
                    components(p),
                ))
                &&& r is Ok && no_up(components(p)) ==> new.fs.resolve(p) is Ok
            },
        },
    }
}

/// What `delete_file` answers and does.
pub open spec fn deleted_answer(old: &DbState, new: &DbState, session: &Session, args: &ToolArgs, r: Result<String, String>) -> bool {
    match text_of(args.path) {
        None => answers(r, Err("missing path"@)),
        Some(p) => match parent_write_denial(&old.fs, session, p) {
            Some(m) => answers(r, Err(m)),
            None => new.vcs == old.vcs && exists|res: Result<(), ErrorView>|
                #[trigger] deleted(
                    &old.fs,
                    &new.fs,
                    p,
                    flag_or(args.recursive, false),
                    res,
                ) && answers(
                    r,
                    match res {
                        Ok(_) => Ok("Deleted: "@ + p),
                        Err(e) => Err(message_of(e)),
                    },
                ),
        },
    }
}

/// What `move_file` answers and does.
pub open spec fn moved_answer(old: &DbState, new: &DbState, session: &Session, args: &ToolArgs, r: Result<String, String>) -> bool {
    match (text_of(args.source), text_of(args.destination)) {
        (None, _) => answers(r, Err("missing source"@)),
        (Some(_), None) => answers(r, Err("missing destination"@)),
        (Some(a), Some(b)) => match parent_write_denial(&old.fs, session, a) {
            Some(m) => answers(r, Err(m)),
            None => match parent_write_denial(&old.fs, session, b) {
                Some(m) => answers(r, Err(m)),
                None => new.vcs == old.vcs && exists|res: Result<(), ErrorView>|
                    #[trigger] VirtualFs::mv_done(&old.fs, &new.fs, a, b, res) && answers(
                        r,
                        match res {
                            Ok(_) => Ok("Moved "@ + a + " -> "@ + b),
                            Err(e) => Err(message_of(e)),
                        },
                    ),
            },
        },
    }
}

/// What `commit` answers and does.
pub open spec fn committed_answer(old: &DbState, new: &DbState, session: &Session, args: &ToolArgs, r: Result<String, String>) -> bool {
    match text_of(args.message) {
        None => answers(r, Err("missing message"@)),
        Some(m) => {
            let snap = snap_dir(&old.fs, old.vcs.store@, old.fs.root(), old.fs.inodes().dom().len()).1;
            &&& (r is Ok <==> snap is Ok)
            &&& (r is Err ==> answers(r, Err(message_of(snap->Err_0))) && new.vcs.commits == old.vcs.commits
                && new.vcs.head == old.vcs.head)
            &&& (r is Ok ==> {
                let c = new.vcs.commits@.last()@;
                &&& new.vcs.commits@.len() == old.vcs.commits@.len() + 1
                &&& new.vcs.commits@.drop_last() == old.vcs.commits@
                &&& new.vcs.head matches Some(h) && h@ == c.id
                &&& c.tree == snap->Ok_0
                &&& c.message == m
                &&& c.author == tool_author(session)
                &&& answers(r, Ok("["@ + hex_of(c.id).take(8) + "] "@ + m))
            })
        },
    }
}

/// What `revert` answers and does.
pub open spec fn reverted_answer(old: &DbState, new: &DbState, session: &Session, args: &ToolArgs, r: Result<String, String>) -> bool {
    match text_of(args.hash) {
        None => answers(r, Err("missing hash"@)),
        Some(h) => {
            let ms = matching(old.vcs.commits@, h);
            let n = usize::MAX as nat;
            &&& ms.len() == 0 ==> answers(r, Err(message_of(ErrorView::ObjectNotFound(h))))
            &&& ms.len() > 1 ==> answers(r, Err(message_of(ErrorView::InvalidArgs("ambiguous commit prefix: "@ + h))))
            &&& ms.len() == 1 && tree_simple(old.vcs.store@, ms[0].tree@, n) && tree_complete(
                old.vcs.store@,
                ms[0].tree@,
                n,
            ) && 1 + tree_size(old.vcs.store@, ms[0].tree@, n) <= u64::MAX ==> r is Ok
            &&& r is Ok ==> new.fs.cwd() == new.fs.root()
            &&& r is Ok && tree_simple(old.vcs.store@, ms[0].tree@, n) ==> holds_tree(
                new.fs,
                new.fs.root(),
                old.vcs.store@,
                ms[0].tree@,
                n,
            ) && only_tree(new.fs, new.fs.root(), old.vcs.store@, ms[0].tree@, n, new.fs.root() as nat, new.fs.next_id() as nat)
            &&& r is Ok ==> ms.len() == 1 && new.vcs.head == Some(ms[0].id) && answers(
                r,
                Ok("Reverted to "@ + h),
            )
        },
    }
}

/// The `CreateDirectory` tool.
fn create_directory_tool(db: &mut DbState, session: &Session, args: &ToolArgs) -> (r: (Result<String, String>, bool))
    requires
        old(db).inv(),
    ensures
        final(db).inv(),
        created_answer(old(db), final(db), session, args, r.0),
        r.0 is Ok ==> r.1,
{
    let path = match &args.path {
        Some(p) => p.as_str(),
        None => {
            return (Err(owned("missing path")), false);
        },
    };
    if let Err(m) = require_parent_write(&db.fs, session, path) {
        return (Err(m), false);
    }
    if let Err(e) = db.fs.mkdir_p(path, session.effective_uid(), session.effective_gid()) {
        return (Err(e.message()), false);
    }
    let mut out = owned("Created directory: ");
    push_str(&mut out, path);
    return (Ok(out), true);
}

/// The `DeleteFile` tool.
fn delete_file_tool(db: &mut DbState, session: &Session, args: &ToolArgs) -> (r: (Result<String, String>, bool))
    requires
        old(db).inv(),
    ensures
        final(db).inv(),
        deleted_answer(old(db), final(db), session, args, r.0),
        r.0 is Ok ==> r.1,
{
    let path = match &args.path {
        Some(p) => p.as_str(),
        None => {
            return (Err(owned("missing path")), false);
        },
    };
    let recursive = match args.recursive {
        Some(b) => b,
        None => false,
    };
    if let Err(m) = require_parent_write(&db.fs, session, path) {
        return (Err(m), false);
    }
    let ghost before = db.fs;
    let res = if recursive {
        db.fs.rm_rf(path)
    } else {
        db.fs.rm(path)
    };
    proof {
        assert(deleted(&before, &db.fs, path@, flag_or(args.recursive, false), crate::error::res_view(res)));
    }
    if let Err(e) = res {
        return (Err(e.message()), false);
    }
    let mut out = owned("Deleted: ");
    push_str(&mut out, path);
    return (Ok(out), true);
}

/// The `MoveFile` tool.
fn move_file_tool(db: &mut DbState, session: &Session, args: &ToolArgs) -> (r: (Result<String, String>, bool))
    requires
        old(db).inv(),
    ensures
        final(db).inv(),
        moved_answer(old(db), final(db), session, args, r.0),
        r.0 is Ok ==> r.1,
{
    let src = match &args.source {
        Some(p) => p.as_str(),
        None => {
            return (Err(owned("missing source")), false);
        },
    };
    let dst = match &args.destination {
        Some(p) => p.as_str(),
        None => {
            return (Err(owned("missing destination")), false);
        },
    };
    if let Err(m) = require_parent_write(&db.fs, session, src) {
        return (Err(m), false);
    }
    if let Err(m) = require_parent_write(&db.fs, session, dst) {
        return (Err(m), false);
    }
    let ghost before = db.fs;
    let res = db.fs.mv(src, dst);
    proof {
        assert(VirtualFs::mv_done(&before, &db.fs, src@, dst@, crate::error::res_view(res)));
    }
    if let Err(e) = res {
        return (Err(e.message()), false);
    }
    let mut out = owned("Moved ");
    push_str(&mut out, src);
    push_str(&mut out, " -> ");
    push_str(&mut out, dst);
    return (Ok(out), true);
}

/// The `Commit` tool.
fn commit_tool(db: &mut DbState, session: &Session, args: &ToolArgs) -> (r: (Result<String, String>, bool))
    requires
        old(db).inv(),
    ensures
        final(db).inv(),
        committed_answer(old(db), final(db), session, args, r.0),
        r.0 is Ok ==> r.1,
{
    let message = match &args.message {
        Some(m) => m.as_str(),
        None => {
            return (Err(owned("missing message")), false);
        },
    };
    let author = if session.username.as_str().unicode_len() == 0 {
        owned("mcp-agent")
    } else {
        owned(session.username.as_str())
    };
    let hash = match db.commit(message, author.as_str()) {
        Ok(h) => h,
        Err(e) => {
            return (Err(e.message()), false);
        },
    };
    let mut out = owned("[");
    push_str(&mut out, hash.as_str());
    push_str(&mut out, "] ");
    push_str(&mut out, message);
    return (Ok(out), true);
}

/// The `Revert` tool.
fn revert_tool(db: &mut DbState, session: &Session, args: &ToolArgs) -> (r: (Result<String, String>, bool))
    requires
        old(db).inv(),
    ensures
        final(db).inv(),
        reverted_answer(old(db), final(db), session, args, r.0),
        r.0 is Ok ==> r.1,
{
    let hash = match &args.hash {
        Some(h) => h.as_str(),
        None => {
            return (Err(owned("missing hash")), false);
        },
    };
    if let Err(e) = db.vcs.revert(&mut db.fs, hash) {
        return (Err(e.message()), false);
    }
    let mut out = owned("Reverted to ");
    push_str(&mut out, hash);
    return (Ok(out), true);
}

/// Runs a tool for a session and returns its answer, and whether the
/// database changed. Files larger than `max_file_size` bytes are refused.
pub fn handle_tool(db: &mut DbState, session: &Session, max_file_size: usize, name: &str, args: &ToolArgs) -> (r: (
    Result<String, String>,
    bool,
))
    requires
        old(db).inv(),
    ensures
        final(db).inv(),
        !is_write_tool(tool_of(name@)) ==> *final(db) == *old(db) && !r.1,
        is_write_tool(tool_of(name@)) && r.0 is Ok ==> r.1,
        tool_of(name@) is None ==> answers(r.0, Err("unknown tool: "@ + name@)),
        tool_of(name@) == Some(Tool::ReadFile) ==> answers(
            r.0,
            match text_of(args.path) {
                None => Err("missing path"@),
                Some(p) => match read_denial(&old(db).fs, session, p) {
                    Some(m) => Err(m),
                    None => match old(db).fs.read(p) {
                        Err(e) => Err(message_of(e)),
                        Ok(b) => Ok(utf8_lossy(b)),
                    },
                },
            },
        ),
        tool_of(name@) == Some(Tool::WriteFile) ==> final(db).fs.kept_owners(
            &old(db).fs,
            session.spec_effective_uid(),
            session.spec_effective_gid(),
            written_bytes(args),
        ),
        tool_of(name@) == Some(Tool::WriteFile) ==> match (args.path, args.content) {
            (None, _) => answers(r.0, Err("missing path"@)),
            (Some(_), None) => answers(r.0, Err("missing content"@)),
            (Some(p), Some(c)) => {
                &&& match write_denial(&old(db).fs, session, p@) {
                    Some(m) => answers(r.0, Err(m)),
                    None => true,
                }
                &&& r.0 is Ok ==> final(db).fs.read(p@) == Ok::<Seq<u8>, ErrorView>(vstd::utf8::encode_utf8(c@))
                    && answers(r.0, Ok("Written "@ + decimal(vstd::utf8::encode_utf8(c@).len()) + " bytes to "@ + p@))
                &&& write_denial(&old(db).fs, session, p@) is None && stat_of(&old(db).fs, p@) is Ok ==> (r.0 is Ok
                    <==> (vstd::utf8::encode_utf8(c@).len() <= max_file_size && old(db).fs.write_target(p@) is Ok))
                &&& write_denial(&old(db).fs, session, p@) is None && new_write_owed(
                    &old(db).fs,
                    p@,
                    vstd::utf8::encode_utf8(c@).len(),
                    max_file_size,
                ) ==> r.0 is Ok
            },
        },
        tool_of(name@) == Some(Tool::ListDirectory) ==> match args.path {
            Some(p) => match read_denial(&old(db).fs, session, p@) {
                Some(m) => answers(r.0, Err(m)),
                None => listed(&old(db).fs, session, text_of(args.path), r.0),
            },
            None => listed(&old(db).fs, session, None, r.0),
        },
        tool_of(name@) == Some(Tool::SearchFiles) ==> answers(
            r.0,
            match text_of(args.pattern) {
                None => Err("missing pattern"@),
                Some(pat) => match old(db).fs.grep_result(
                    pat,
                    text_of(args.path),
                    match args.recursive {
                        Some(b) => b,
                        None => true,
                    },
                    Some(session),
                ) {
                    Err(e) => Err(message_of(e)),
                    Ok(rows) => Ok(
                        if rows.len() == 0 {
                            "No matches found."@
                        } else {
                            search_text(rows)
                        },
                    ),
                },
            },
        ),
        tool_of(name@) == Some(Tool::FindFiles) ==> answers(
            r.0,
            match old(db).fs.find_result(text_of(args.path), text_of(args.name), Some(session)) {
                Err(e) => Err(message_of(e)),
                Ok(rows) => Ok(join_with(rows, "\n"@)),
            },
        ),
        tool_of(name@) == Some(Tool::CreateDirectory) ==> created_answer(old(db), final(db), session, args, r.0),
        tool_of(name@) == Some(Tool::DeleteFile) ==> deleted_answer(old(db), final(db), session, args, r.0),
        tool_of(name@) == Some(Tool::MoveFile) ==> moved_answer(old(db), final(db), session, args, r.0),
        tool_of(name@) == Some(Tool::Commit) ==> committed_answer(old(db), final(db), session, args, r.0),
        tool_of(name@) == Some(Tool::GetHistory) ==> answers(
            r.0,
            Ok(
                if old(db).vcs.commits@.len() == 0 {
                    "No commits yet."@
                } else {
                    history(old(db).vcs.commits@)
                },
            ),
        ),
        tool_of(name@) == Some(Tool::Revert) ==> reverted_answer(old(db), final(db), session, args, r.0),
{
    let tool = tool_named(name);
    if tool == Some(Tool::ReadFile) {
        let path = match &args.path {
            Some(p) => p.as_str(),
            None => {
                return (Err(owned("missing path")), false);
            },
        };
        if let Err(m) = require_read(&db.fs, session, path) {
            return (Err(m), false);
        }
        return match db.fs.cat(path) {
            Ok(content) => (Ok(utf8_lossy_string(content)), false),
            Err(e) => (Err(e.message()), false),
        };
    }
    if tool == Some(Tool::WriteFile) {
        return write_file_tool(db, session, max_file_size, args);
    }
    if tool == Some(Tool::ListDirectory) {
        return (list_directory_tool(&db.fs, session, args), false);
    }
    if tool == Some(Tool::SearchFiles) {
        let pattern = match &args.pattern {
            Some(p) => p.as_str(),
            None => {
                return (Err(owned("missing pattern")), false);
            },
        };
        let path = match &args.path {
            Some(p) => Some(p.as_str()),
            None => None,
        };
        let recursive = match args.recursive {
            Some(b) => b,
            None => true,
        };
        return match db.fs.grep(pattern, path, recursive, Some(session)) {
            Ok(results) => (Ok(search_results_text(&results)), false),
            Err(e) => (Err(e.message()), false),
        };
    }
    if tool == Some(Tool::FindFiles) {
        let path = match &args.path {
            Some(p) => Some(p.as_str()),
            None => None,
        };
        let pattern = match &args.name {
            Some(p) => Some(p.as_str()),
            None => None,
        };
        return match db.fs.find(path, pattern, Some(session)) {
            Ok(results) => {
                proof {
                    assert(results.deep_view() =~= results@.map_values(|s: String| s@));
                }
                (Ok(join_strings(results.as_slice(), "\n")), false)
            },
            Err(e) => (Err(e.message()), false),
        };
    }
    if tool == Some(Tool::CreateDirectory) {
        return create_directory_tool(db, session, args);
    }
    if tool == Some(Tool::DeleteFile) {
        return delete_file_tool(db, session, args);
    }
    if tool == Some(Tool::MoveFile) {
        return move_file_tool(db, session, args);
    }
    if tool == Some(Tool::Commit) {
        return commit_tool(db, session, args);
    }
    if tool == Some(Tool::GetHistory) {
        return (Ok(history_text(&db.vcs)), false);
    }
    if tool == Some(Tool::Revert) {
        return revert_tool(db, session, args);
    }
    let mut m = owned("unknown tool: ");
    push_str(&mut m, name);
    (Err(m), false)
}

/// Why a resource could not be read: the file system refused, or the
/// address names no resource.
#[derive(Debug)]
pub enum ResourceError {
    Internal(String),
    InvalidParams(String),
}

/// Whether a resource address names the directory tree.
pub open spec fn is_tree_uri(uri: Seq<char>) -> bool {
    uri == "mdfs://tree"@ || uri == "markdownfs://tree"@
}

/// The path of the file a resource address names, if it names one.
pub open spec fn resource_file(uri: Seq<char>) -> Option<Seq<char>> {
    if has_prefix(uri, "mdfs://files/"@) {
        Some(uri.skip("mdfs://files/"@.len() as int))
    } else if has_prefix(uri, "markdownfs://files/"@) {
        Some(uri.skip("markdownfs://files/"@.len() as int))
    } else {
        None
    }
}

/// Reads a resource: the tree below the working directory, the text of a
/// file (invalid UTF-8 replaced), or an error.
pub fn read_resource(fs: &VirtualFs, uri: &str) -> (r: Result<String, ResourceError>)
    requires
        fs.wf(),
    ensures
        is_tree_uri(uri@) ==> match fs.tree_text(fs.cwd(), Seq::empty(), None, fs.inodes().dom().len()) {
            Err(e) => r matches Err(ResourceError::Internal(m)) && m@ == message_of(e),
            Ok(t) => r matches Ok(text) && text@ == ".\n"@ + t,
        },
        !is_tree_uri(uri@) ==> match resource_file(uri@) {
            Some(p) => match fs.read(p) {
                Err(e) => r matches Err(ResourceError::Internal(m)) && m@ == message_of(e),
                Ok(b) => r matches Ok(text) && text@ == utf8_lossy(b),
            },
            None => r matches Err(ResourceError::InvalidParams(m)) && m@ == "unknown resource: "@ + uri@,
        },
{
    if str_eq(uri, "mdfs://tree") || str_eq(uri, "markdownfs://tree") {
        let e: &str = "";
        proof {
            reveal_strlit("");
            assert(e@ =~= Seq::<char>::empty());
        }
        return match fs.tree(None, e, None) {
            Ok(t) => Ok(t),
            Err(err) => Err(ResourceError::Internal(err.message())),
        };
    }
    let path = match strip_prefix(uri, "mdfs://files/") {
        Some(p) => Some(p),
        None => strip_prefix(uri, "markdownfs://files/"),
    };
    match path {
        Some(p) => match fs.cat_owned(p.as_str()) {
            Ok(content) => Ok(utf8_lossy_string(content.as_slice())),
            Err(err) => Err(ResourceError::Internal(err.message())),
        },
        None => {
            let mut message = owned("unknown resource: ");
            push_str(&mut message, uri);
            Err(ResourceError::InvalidParams(message))
        },
    }
}

} // verus!
