//! What the file routes of the HTTP front end do once the caller is known:
//! the checks, the file system operations and the answers, with each
//! failure as a status code and a message. Routing, authentication and
//! JSON belong to the server.

use vstd::prelude::*;
use crate::auth::perms::Access;
use crate::auth::session::Session;
use crate::db::DbState;
use crate::error::{message_of, res_view, ErrorView, VfsError};
use crate::fs::inode::view_size;
use crate::fs::search::opt_text;
use crate::fs::inode::KindView;
use crate::fs::{components, describes, first_missing, label, GrepResult, LsEntry, StatInfo, VirtualFs};
use crate::fs::growth::no_up;
use crate::mcp::{new_write_owed, write_creating};
use crate::text::{owned, push_str, str_eq};
use super::perms::{parent_write_check, perm_check, require_parent_write, require_perm, stat_of};

verus! {

/// The query of a file route: `stat` asks for metadata, `op` and `dst`
/// name a copy or a move, `recursive` a recursive delete.
#[derive(Debug)]
pub struct FsQuery {
    pub stat: Option<bool>,
    pub op: Option<String>,
    pub dst: Option<String>,
    pub recursive: Option<bool>,
}

/// The query of a search route.
#[derive(Debug)]
pub struct SearchQuery {
    pub pattern: Option<String>,
    pub path: Option<String>,
    pub name: Option<String>,
    pub recursive: Option<bool>,
}

/// A failed request: the HTTP status and the message.
#[derive(Debug)]
pub struct HttpError {
    pub status: u16,
    pub message: String,
}

/// The status of a file system error: 403 for a refusal, 404 for a missing
/// path, 400 for anything else.
pub open spec fn status_of(e: ErrorView) -> u16 {
    match e {
        ErrorView::PermissionDenied(_) => 403,
        ErrorView::NotFound(_) => 404,
        _ => 400,
    }
}

/// The status of a file system error.
pub fn vfs_status(e: &VfsError) -> (r: u16)
    ensures
        r == status_of(e@),
{
    match e {
        VfsError::PermissionDenied { .. } => 403,
        VfsError::NotFound { .. } => 404,
        _ => 400,
    }
}

/// A file system error as a failed request.
pub fn vfs_err(e: VfsError) -> (r: HttpError)
    ensures
        r.status == status_of(e@),
        r.message@ == message_of(e@),
{
    HttpError { status: vfs_status(&e), message: e.message() }
}

/// Whether a request failed with the file system error `e`.
pub open spec fn fails_with<T>(r: Result<T, HttpError>, e: ErrorView) -> bool {
    r is Err && r->Err_0.status == status_of(e) && r->Err_0.message@ == message_of(e)
}

/// Whether a request failed with a status and message.
pub open spec fn fails_as<T>(r: Result<T, HttpError>, status: u16, message: Seq<char>) -> bool {
    r is Err && r->Err_0.status == status && r->Err_0.message@ == message
}

/// Whether the session may read an entry: root may read everything.
pub open spec fn readable(e: LsEntry, session: &Session) -> bool {
    session.spec_is_effectively_root() || session.allows(e.mode, e.uid, e.gid, Access::Read)
}

/// The entries of a listing that the session may read, in order.
pub open spec fn visible(es: Seq<LsEntry>, session: &Session) -> Seq<LsEntry>
    decreases es.len(),
{
    if es.len() == 0 {
        Seq::empty()
    } else {
        let rest = visible(es.drop_first(), session);
        if readable(es[0], session) {
            seq![es[0]] + rest
        } else {
            rest
        }
    }
}

/// Every entry kept is one the session may read.
pub proof fn lemma_visible_readable(es: Seq<LsEntry>, session: &Session)
    ensures
        forall|i: int| 0 <= i < visible(es, session).len() ==> readable(#[trigger] visible(es, session)[i], session),
    decreases es.len(),
{
    if es.len() > 0 {
        lemma_visible_readable(es.drop_first(), session);
        let rest = visible(es.drop_first(), session);
        if readable(es[0], session) {
            assert forall|i: int| 0 <= i < visible(es, session).len() implies readable(
                #[trigger] visible(es, session)[i],
                session,
            ) by {
                if i > 0 {
                    assert(visible(es, session)[i] == rest[i - 1]);
                }
            }
        }
    }
}

/// The entries of a listing that the session may read.
fn keep_visible(entries: Vec<LsEntry>, session: &Session) -> (r: Vec<LsEntry>)
    ensures
        r@ == visible(entries@, session),
{
    let root = session.is_effectively_root();
    let mut rest = entries;
    let mut out: Vec<LsEntry> = Vec::new();
    while rest.len() > 0
        invariant
            root == session.spec_is_effectively_root(),
            visible(entries@, session) == out@ + visible(rest@, session),
        decreases rest.len(),
    {
        let ghost before = rest@;
        let e = rest.remove(0);
        proof {
            assert(before.drop_first() =~= rest@);
        }
        if root || session.has_permission_bits(e.mode, e.uid, e.gid, Access::Read) {
            out.push(e);
            proof {
                assert(visible(before, session) == seq![before[0]] + visible(rest@, session));
                assert(out@.drop_last() + visible(before, session) =~= out@ + visible(rest@, session));
            }
        }
    }
    proof {
        assert(visible(rest@, session) =~= Seq::<LsEntry>::empty());
        assert(out@ + Seq::<LsEntry>::empty() =~= out@);
    }
    out
}

/// What reading a path gives.
#[derive(Debug)]
pub enum FsGet {
    /// The metadata asked for.
    Stat(StatInfo),
    /// The content of a file.
    File(Vec<u8>),
    /// The entries of a directory that the session may read.
    Listing(Vec<LsEntry>),
}

/// The working directory's entries that the session may read, once it may
/// read the root.
pub fn get_fs_root(db: &DbState, session: &Session) -> (r: Result<Vec<LsEntry>, HttpError>)
    requires
        db.inv(),
    ensures
        perm_check(&db.fs, session, "/"@, Access::Read) matches Err(e) ==> fails_with(r, e),
        r matches Ok(es) ==> forall|i: int| 0 <= i < es@.len() ==> readable(#[trigger] es@[i], session),
{
    if let Err(e) = require_perm(&db.fs, session, "/", Access::Read) {
        return Err(vfs_err(e));
    }
    match db.fs.ls(None) {
        Ok(entries) => {
            let ghost all = entries@;
            let kept = keep_visible(entries, session);
            proof {
                lemma_visible_readable(all, session);
            }
            Ok(kept)
        },
        Err(e) => Err(vfs_err(e)),
    }
}

/// What listing `path` answers the session: the rows of a directory's
/// entries (or the one row of a file or link) that it may read, in order.
pub open spec fn shows_listing(fs: &VirtualFs, path: Seq<char>, session: &Session, r: Result<FsGet, HttpError>) -> bool {
    match fs.resolve(path) {
        Err(e) => fails_with(r, e),
        Ok(id) => if !fs.inodes().contains_key(id) {
            fails_with(r, ErrorView::NotFound(label(id)))
        } else {
            match fs.inodes()[id].kind {
                KindView::Directory(es) => match first_missing(es, fs.inodes()) {
                    Some(i) => fails_with(r, ErrorView::NotFound(label(es[i].1))),
                    None => r matches Ok(FsGet::Listing(out)) && exists|all: Seq<LsEntry>|
                        #[trigger] visible(all, session) == out@ && all.len() == es.len() && forall|i: int|
                            0 <= i < es.len() ==> describes(#[trigger] all[i], es[i].0@, fs.inodes()[es[i].1]),
                },
                _ => r matches Ok(FsGet::Listing(out)) && exists|e: LsEntry|
                    #[trigger] visible(seq![e], session) == out@ && describes(e, path, fs.inodes()[id]),
            }
        },
    }
}

/// The answer to a request whose file system operation gave `res`: success,
/// or the error's status and message.
pub open spec fn answers<T>(r: Result<T, HttpError>, res: Result<(), ErrorView>) -> bool {
    match res {
        Ok(_) => r is Ok,
        Err(e) => fails_with(r, e),
    }
}

/// What deleting `path` (with everything under it when `recursive`) did.
pub open spec fn deleted(old: &VirtualFs, new: &VirtualFs, path: Seq<char>, recursive: bool, res: Result<(), ErrorView>) -> bool {
    if recursive {
        VirtualFs::rm_rf_done(old, new, path, res)
    } else {
        VirtualFs::rm_done(old, new, path, res)
    }
}

/// Reads a path: its metadata when `stat` is asked for, else the content
/// of a file or the readable entries of a directory.
pub fn get_fs(db: &DbState, session: &Session, path: &str, stat: bool) -> (r: Result<FsGet, HttpError>)
    requires
        db.inv(),
    ensures
        match perm_check(&db.fs, session, path@, Access::Read) {
            Err(e) => fails_with(r, e),
            Ok(false) => fails_as(r, 404, "not found: "@ + path@),
            Ok(true) => if stat {
                match stat_of(&db.fs, path@) {
                    Ok(v) => r matches Ok(FsGet::Stat(info)) && crate::fs::shows_inode(info, db.fs.resolve(path@)->Ok_0, v),
                    Err(e) => fails_with(r, e),
                }
            } else {
                match db.fs.read(path@) {
                    Ok(b) => r matches Ok(FsGet::File(c)) && c@ == b,
                    Err(ErrorView::IsDirectory(_)) => shows_listing(&db.fs, path@, session, r),
                    Err(e) => fails_with(r, e),
                }
            },
        },
{
    let exists = match require_perm(&db.fs, session, path, Access::Read) {
        Ok(b) => b,
        Err(e) => {
            return Err(vfs_err(e));
        },
    };
    if !exists {
        let mut message = owned("not found: ");
        push_str(&mut message, path);
        return Err(HttpError { status: 404, message });
    }
    if stat {
        return match db.fs.stat(path) {
            Ok(info) => Ok(FsGet::Stat(info)),
            Err(e) => Err(vfs_err(e)),
        };
    }
    match db.fs.cat_owned(path) {
        Ok(content) => Ok(FsGet::File(content)),
        Err(VfsError::IsDirectory { .. }) => match db.fs.ls(Some(path)) {
            Ok(entries) => {
                let ghost all = entries@;
                let kept = keep_visible(entries, session);
                proof {
                    if all.len() == 1 {
                        assert(all =~= seq![all[0]]);
                    }
                }
                Ok(FsGet::Listing(kept))
            },
            Err(e) => Err(vfs_err(e)),
        },
        Err(e) => Err(vfs_err(e)),
    }
}

/// What writing a path did.
#[derive(Debug)]
pub enum FsPut {
    /// A directory was made, with its missing parents.
    Directory,
    /// A file now holds this many bytes.
    Written(usize),
}

/// Whether the session may put `path`: write access to it when it
/// exists, else to its parent.
pub open spec fn put_allowed(fs: &VirtualFs, session: &Session, path: Seq<char>) -> bool {
    if stat_of(fs, path) is Ok {
        perm_check(fs, session, path, Access::Write) is Ok
    } else {
        parent_write_check(fs, session, path) is Ok
    }
}

/// Writes a path: makes a directory (and its parents) when `is_dir`, else
/// stores `body` as the file's content, creating the file and its missing
/// parent directories first. Also says whether the database changed.
pub fn put_fs(db: &mut DbState, session: &Session, path: &str, is_dir: bool, body: Vec<u8>, max_file_size: usize) -> (r: (
    Result<FsPut, HttpError>,
    bool,
))
    requires
        old(db).inv(),
    ensures
        final(db).inv(),
        final(db).vcs == old(db).vcs,
        stat_of(&old(db).fs, path@) is Ok ==> match perm_check(&old(db).fs, session, path@, Access::Write) {
            Err(e) => fails_with(r.0, e) && *final(db) == *old(db),
            Ok(_) => true,
        },
        stat_of(&old(db).fs, path@) is Err ==> match parent_write_check(&old(db).fs, session, path@) {
            Err(e) => fails_with(r.0, e) && *final(db) == *old(db),
            Ok(_) => true,
        },
        r.0 is Ok ==> r.1,
        r.0 matches Ok(FsPut::Written(n)) ==> !is_dir && n == body@.len() && final(db).fs.read(path@) == Ok::<
            Seq<u8>,
            ErrorView,
        >(body@),
        r.0 matches Ok(FsPut::Directory) ==> is_dir,
        !is_dir ==> final(db).fs.kept_owners(
            &old(db).fs,
            session.spec_effective_uid(),
            session.spec_effective_gid(),
            body@,
        ),
        is_dir ==> final(db).fs.grew_dirs(&old(db).fs, session.spec_effective_uid()),
        is_dir && put_allowed(&old(db).fs, session, path@) && no_up(components(path@)) ==> (r.0 is Ok
            <==> old(db).fs.mkdir_p_ok(old(db).fs.start(path@), components(path@))),
        !is_dir && put_allowed(&old(db).fs, session, path@) && stat_of(&old(db).fs, path@) is Ok ==> (r.0 is Ok
            <==> (body@.len() <= max_file_size && old(db).fs.write_target(path@) is Ok)),
        !is_dir && put_allowed(&old(db).fs, session, path@) && new_write_owed(
            &old(db).fs,
            path@,
            body@.len(),
            max_file_size,
        ) ==> r.0 is Ok,
{
    proof {
        db.fs.lemma_kept_refl(session.spec_effective_uid(), session.spec_effective_gid(), body@);
        db.fs.lemma_grew_dirs_refl(session.spec_effective_uid());
    }
    let target_exists = db.fs.stat(path).is_ok();
    if target_exists {
        if let Err(e) = require_perm(&db.fs, session, path, Access::Write) {
            return (Err(vfs_err(e)), false);
        }
    } else if let Err(e) = require_parent_write(&db.fs, session, path) {
        return (Err(vfs_err(e)), false);
    }
    let uid = session.effective_uid();
    let gid = session.effective_gid();
    if is_dir {
        return match db.fs.mkdir_p(path, uid, gid) {
            Ok(()) => (Ok(FsPut::Directory), true),
            Err(e) => (Err(vfs_err(e)), true),
        };
    }
    let size = body.len();
    let (res, dirty) = write_creating(db, path, body, max_file_size, uid, gid);
    match res {
        Ok(()) => (Ok(FsPut::Written(size)), true),
        Err(e) => (Err(vfs_err(e)), dirty),
    }
}

/// Deletes a path, and with `recursive` everything under a directory.
/// Anyone but root also needs write permission on the path itself.
pub fn delete_fs(db: &mut DbState, session: &Session, path: &str, recursive: bool) -> (r: Result<(), HttpError>)
    requires
        old(db).inv(),
    ensures
        final(db).inv(),
        final(db).vcs == old(db).vcs,
        match parent_write_check(&old(db).fs, session, path@) {
            Err(e) => fails_with(r, e) && *final(db) == *old(db),
            Ok(_) => if !session.spec_is_effectively_root() && perm_check(&old(db).fs, session, path@, Access::Write) is Err {
                fails_with(r, perm_check(&old(db).fs, session, path@, Access::Write)->Err_0) && *final(db) == *old(db)
            } else {
                exists|res: Result<(), ErrorView>|
                    #[trigger] deleted(&old(db).fs, &final(db).fs, path@, recursive, res) && answers(r, res)
            },
        },
{
    if let Err(e) = require_parent_write(&db.fs, session, path) {
        return Err(vfs_err(e));
    }
    if !session.is_effectively_root() {
        if let Err(e) = require_perm(&db.fs, session, path, Access::Write) {
            return Err(vfs_err(e));
        }
    }
    let ghost before = db.fs;
    let result = if recursive {
        db.fs.rm_rf(path)
    } else {
        db.fs.rm(path)
    };
    proof {
        assert(deleted(&before, &db.fs, path@, recursive, res_view(result)));
    }
    match result {
        Ok(()) => Ok(()),
        Err(e) => Err(vfs_err(e)),
    }
}

/// Copies (`op` "copy") or moves (`op` "move") a path to `dst`. Copying
/// needs read permission on the source; both need write permission where
/// the names come and go.
pub fn post_fs(db: &mut DbState, session: &Session, path: &str, op: Option<&str>, dst: Option<&str>) -> (r: Result<
    (),
    HttpError,
>)
    requires
        old(db).inv(),
    ensures
        final(db).inv(),
        final(db).vcs == old(db).vcs,
        op is None ==> fails_as(r, 400, "missing op parameter"@) && *final(db) == *old(db),
        op is Some && op->0@ != "copy"@ && op->0@ != "move"@ ==> fails_as(r, 400, "unknown op: "@ + op->0@)
            && *final(db) == *old(db),
        op is Some && (op->0@ == "copy"@ || op->0@ == "move"@) && dst is None ==> fails_as(
            r,
            400,
            "missing dst parameter"@,
        ) && *final(db) == *old(db),
        op is Some && op->0@ == "copy"@ && dst is Some ==> match perm_check(&old(db).fs, session, path@, Access::Read) {
            Err(e) => fails_with(r, e) && *final(db) == *old(db),
            Ok(_) => match parent_write_check(&old(db).fs, session, dst->0@) {
                Err(e) => fails_with(r, e) && *final(db) == *old(db),
                Ok(_) => if old(db).fs.next_id() == u64::MAX {
                    fails_with(r, ErrorView::NotSupported("inode ids exhausted"@)) && *final(db) == *old(db)
                } else {
                    exists|res: Result<(), ErrorView>|
                        #[trigger] VirtualFs::cp_done(
                            &old(db).fs,
                            &final(db).fs,
                            path@,
                            dst->0@,
                            session.spec_effective_uid(),
                            session.spec_effective_gid(),
                            res,
                        ) && answers(r, res)
                },
            },
        },
        op is Some && op->0@ == "move"@ && dst is Some ==> match parent_write_check(&old(db).fs, session, path@) {
            Err(e) => fails_with(r, e) && *final(db) == *old(db),
            Ok(_) => match parent_write_check(&old(db).fs, session, dst->0@) {
                Err(e) => fails_with(r, e) && *final(db) == *old(db),
                Ok(_) => exists|res: Result<(), ErrorView>|
                    #[trigger] VirtualFs::mv_done(&old(db).fs, &final(db).fs, path@, dst->0@, res) && answers(r, res),
            },
        },
{
    let o = match op {
        Some(o) => o,
        None => {
            return Err(HttpError { status: 400, message: owned("missing op parameter") });
        },
    };
    proof {
        reveal_strlit("copy");
        reveal_strlit("move");
        assert("copy"@[0] != "move"@[0]);
    }
    let copy = str_eq(o, "copy");
    let mv = str_eq(o, "move");
    if !copy && !mv {
        let mut message = owned("unknown op: ");
        push_str(&mut message, o);
        return Err(HttpError { status: 400, message });
    }
    let d = match dst {
        Some(d) => d,
        None => {
            return Err(HttpError { status: 400, message: owned("missing dst parameter") });
        },
    };
    if copy {
        if let Err(e) = require_perm(&db.fs, session, path, Access::Read) {
            return Err(vfs_err(e));
        }
        if let Err(e) = require_parent_write(&db.fs, session, d) {
            return Err(vfs_err(e));
        }
        let uid = session.effective_uid();
        let gid = session.effective_gid();
        if let Err(e) = crate::cmd::require_ids(&db.fs) {
            return Err(vfs_err(e));
        }
        let ghost before = db.fs;
        let res = db.fs.cp(path, d, uid, gid);
        proof {
            assert(VirtualFs::cp_done(&before, &db.fs, path@, d@, uid, gid, res_view(res)));
        }
        match res {
            Ok(()) => Ok(()),
            Err(e) => Err(vfs_err(e)),
        }
    } else {
        if let Err(e) = require_parent_write(&db.fs, session, path) {
            return Err(vfs_err(e));
        }
        if let Err(e) = require_parent_write(&db.fs, session, d) {
            return Err(vfs_err(e));
        }
        let ghost before = db.fs;
        let res = db.fs.mv(path, d);
        proof {
            assert(VirtualFs::mv_done(&before, &db.fs, path@, d@, res_view(res)));
        }
        match res {
            Ok(()) => Ok(()),
            Err(e) => Err(vfs_err(e)),
        }
    }
}

/// Searches file contents for a regular expression (recursively unless
/// told otherwise), within what the session may read.
pub fn search_grep(db: &DbState, session: &Session, pattern: Option<&str>, path: Option<&str>, recursive: Option<bool>) -> (r:
    Result<Vec<GrepResult>, HttpError>)
    requires
        db.inv(),
    ensures
        match pattern {
            None => fails_as(r, 400, "missing pattern parameter"@),
            Some(p) => match db.fs.grep_result(
                p@,
                opt_text(path),
                match recursive {
                    Some(b) => b,
                    None => true,
                },
                Some(session),
            ) {
                Err(e) => fails_with(r, e),
                Ok(rows) => r is Ok && r->Ok_0@.map_values(|g: GrepResult| crate::fs::search::row_of(g)) == rows,
            },
        },
{
    let p = match pattern {
        Some(p) => p,
        None => {
            return Err(HttpError { status: 400, message: owned("missing pattern parameter") });
        },
    };
    let rec = match recursive {
        Some(b) => b,
        None => true,
    };
    match db.fs.grep(p, path, rec, Some(session)) {
        Ok(results) => Ok(results),
        Err(e) => Err(vfs_err(e)),
    }
}

/// Finds files by name pattern, within what the session may read.
pub fn search_find(db: &DbState, session: &Session, path: Option<&str>, name: Option<&str>) -> (r: Result<
    Vec<String>,
    HttpError,
>)
    requires
        db.inv(),
    ensures
        match db.fs.find_result(opt_text(path), opt_text(name), Some(session)) {
            Err(e) => fails_with(r, e),
            Ok(rows) => r is Ok && r->Ok_0.deep_view() == rows,
        },
{
    match db.fs.find(path, name, Some(session)) {
        Ok(results) => Ok(results),
        Err(e) => Err(vfs_err(e)),
    }
}

/// The tree under a path (the working directory when none is given), as
/// far as the session may see.
pub fn get_tree(db: &DbState, session: &Session, path: Option<&str>) -> (r: Result<String, HttpError>)
    requires
        db.inv(),
    ensures
        match db.fs.target_of(path) {
            Err(e) => fails_with(r, e),
            Ok(id) => match db.fs.tree_text(id, Seq::empty(), Some(session), db.fs.inodes().dom().len()) {
                Err(e) => fails_with(r, e),
                Ok(t) => r is Ok && r->Ok_0@ == ".\n"@ + t,
            },
        },
{
    let no_prefix = String::new();
    match db.fs.tree(path, no_prefix.as_str(), Some(session)) {
        Ok(t) => Ok(t),
        Err(e) => Err(vfs_err(e)),
    }
}

} // verus!
