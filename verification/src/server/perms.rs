//! Permission checks of the HTTP front end: the parent of a client path,
//! access to a path, and write access to where a path goes.

use vstd::prelude::*;
use crate::auth::perms::Access;
use crate::auth::session::Session;
use crate::error::{ErrorView, VfsError};
use crate::fs::inode::InodeView;
use crate::fs::{comp_run, components, is_abs, label, VirtualFs};
use crate::fs::growth::{lemma_comp_run_name, lemma_components_push};
use crate::text::{owned, substring, to_chars};

verus! {

/// The sequence without trailing slashes (`trim_end_matches('/')`).
pub open spec fn trim_trailing_slashes(s: Seq<char>) -> Seq<char>
    decreases s.len(),
{
    if s.len() > 0 && s.last() == '/' {
        trim_trailing_slashes(s.drop_last())
    } else {
        s
    }
}

/// Whether `i` is the position of the last '/' of `s`.
pub open spec fn is_last_slash(s: Seq<char>, i: int) -> bool {
    &&& 0 <= i < s.len()
    &&& s[i] == '/'
    &&& forall|j: int| i < j < s.len() ==> s[j] != '/'
}

/// The parent of a path: what precedes its last '/' once trailing slashes
/// are gone, or the empty string for a top-level name.
pub open spec fn parent_path(path: Seq<char>) -> Seq<char> {
    let t = trim_trailing_slashes(path);
    if exists|i: int| is_last_slash(t, i) {
        t.subrange(0, choose|i: int| is_last_slash(t, i))
    } else {
        Seq::empty()
    }
}

/// Trailing slashes add no component.
proof fn lemma_trim_components(s: Seq<char>)
    ensures
        components(trim_trailing_slashes(s)) == components(s),
    decreases s.len(),
{
    if s.len() > 0 && s.last() == '/' {
        lemma_trim_components(s.drop_last());
        let (done, cur) = comp_run(s.drop_last());
        assert(comp_run(s) == (if cur.len() > 0 {
            done.push(cur)
        } else {
            done
        }, Seq::<char>::empty()));
    }
}

/// A text without '/' is one component in progress.
proof fn lemma_comp_run_plain(t: Seq<char>)
    requires
        !t.contains('/'),
    ensures
        comp_run(t) == (Seq::<Seq<char>>::empty(), t),
    decreases t.len(),
{
    if t.len() > 0 {
        assert(!t.drop_last().contains('/')) by {
            if t.drop_last().contains('/') {
                let k = choose|k: int| 0 <= k < t.drop_last().len() && t.drop_last()[k] == '/';
                assert(t[k] == '/');
            }
        }
        lemma_comp_run_plain(t.drop_last());
        assert(t.last() != '/') by {
            if t.last() == '/' {
                assert(t[t.len() - 1] == '/');
            }
        }
        assert(t.drop_last().push(t.last()) =~= t);
    }
}

/// Trimming keeps a prefix of the text that does not end with '/'.
proof fn lemma_trim_facts(s: Seq<char>)
    ensures
        trim_trailing_slashes(s).len() <= s.len(),
        trim_trailing_slashes(s) == s.subrange(0, trim_trailing_slashes(s).len() as int),
        trim_trailing_slashes(s).len() > 0 ==> trim_trailing_slashes(s).last() != '/',
    decreases s.len(),
{
    if s.len() > 0 && s.last() == '/' {
        lemma_trim_facts(s.drop_last());
        let t = trim_trailing_slashes(s.drop_last());
        assert(s.drop_last().subrange(0, t.len() as int) =~= s.subrange(0, t.len() as int));
    } else {
        assert(s.subrange(0, s.len() as int) =~= s);
    }
}

/// A text with a '/' has a last one.
proof fn lemma_last_slash_exists(t: Seq<char>, k: int)
    requires
        0 <= k < t.len(),
        t[k] == '/',
    ensures
        exists|j: int| is_last_slash(t, j),
    decreases t.len() - k,
{
    if exists|m: int| k < m < t.len() && t[m] == '/' {
        let m = choose|m: int| k < m < t.len() && t[m] == '/';
        lemma_last_slash_exists(t, m);
    } else {
        assert(is_last_slash(t, k));
    }
}

/// The parent of a path has its components but the last, and starts where
/// the path does when it is not empty.
pub proof fn lemma_parent_components(p: Seq<char>)
    ensures
        components(parent_path(p)) == components(p).drop_last() || components(p).len() == 0,
        parent_path(p).len() > 0 ==> (is_abs(parent_path(p)) <==> is_abs(p)),
{
    let t = trim_trailing_slashes(p);
    lemma_trim_components(p);
    lemma_trim_facts(p);
    if exists|i: int| is_last_slash(t, i) {
        let i = choose|i: int| is_last_slash(t, i);
        let x = t.subrange(0, i);
        let y = t.subrange(i + 1, t.len() as int);
        assert(!y.contains('/')) by {
            if y.contains('/') {
                let k = choose|k: int| 0 <= k < y.len() && y[k] == '/';
                assert(t[i + 1 + k] == '/');
            }
        }
        assert(t =~= x + seq!['/'] + y);
        if y.len() == 0 {
            lemma_comp_run_name(x, y);
            assert(t.last() == '/');
            assert(false);
        } else {
            lemma_components_push(x, y);
        }
        if x.len() > 0 {
            assert(x[0] == t[0]);
            assert(t[0] == p[0]);
        }
        assert(parent_path(p) == x);
    } else {
        assert(!t.contains('/')) by {
            if t.contains('/') {
                let k = choose|k: int| 0 <= k < t.len() && t[k] == '/';
                lemma_last_slash_exists(t, k);
            }
        }
        lemma_comp_run_plain(t);
        assert(components(Seq::<char>::empty()) == Seq::<Seq<char>>::empty());
    }
}

/// The parent directory path of `path`; "" for top-level entries.
pub fn parent_of(path: &str) -> (r: String)
    ensures
        r@ == parent_path(path@),
{
    let chars = to_chars(path);
    let mut end: usize = chars.len();
    assert(chars@.subrange(0, end as int) =~= chars@);
    while end > 0 && chars[end - 1] == '/'
        invariant
            end <= chars@.len(),
            trim_trailing_slashes(chars@) == trim_trailing_slashes(chars@.subrange(0, end as int)),
        decreases end,
    {
        proof {
            assert(chars@.subrange(0, end as int).drop_last() =~= chars@.subrange(0, end - 1));
        }
        end -= 1;
    }
    let ghost t = chars@.subrange(0, end as int);
    proof {
        if end > 0 {
            assert(t.last() == chars@[end - 1]);
        }
        assert(trim_trailing_slashes(chars@) == t);
    }
    let mut k: usize = end;
    while k > 0 && chars[k - 1] != '/'
        invariant
            k <= end <= chars@.len(),
            t == chars@.subrange(0, end as int),
            forall|j: int| k <= j < end ==> chars@[j] != '/',
        decreases k,
    {
        k -= 1;
    }
    if k == 0 {
        proof {
            assert forall|i: int| !is_last_slash(t, i) by {
                if 0 <= i < t.len() {
                    assert(t[i] == chars@[i]);
                }
            }
        }
        return String::new();
    }
    proof {
        assert(is_last_slash(t, k - 1));
        let c = choose|i: int| is_last_slash(t, i);
        if c != k - 1 {
            if c < k - 1 {
                assert(t[k - 1] == '/');
            } else {
                assert(chars@[c] != '/');
            }
        }
        assert(t.subrange(0, k - 1) =~= chars@.subrange(0, k - 1));
    }
    substring(chars.as_slice(), 0, k - 1)
}

/// Removing trailing slashes never lengthens a path.
pub proof fn lemma_trim_shorter(s: Seq<char>)
    ensures
        trim_trailing_slashes(s).len() <= s.len(),
    decreases s.len(),
{
    if s.len() > 0 && s.last() == '/' {
        lemma_trim_shorter(s.drop_last());
    }
}

/// A path's parent is shorter than the path.
pub proof fn lemma_parent_shorter(s: Seq<char>)
    requires
        s.len() > 0,
    ensures
        parent_path(s).len() < s.len(),
{
    lemma_trim_shorter(s);
    let t = trim_trailing_slashes(s);
    if exists|i: int| is_last_slash(t, i) {
        let i = choose|i: int| is_last_slash(t, i);
        assert(t.subrange(0, i).len() == i);
    }
}

/// What `stat` finds at a path: the inode, or the error.
pub open spec fn stat_of(fs: &VirtualFs, path: Seq<char>) -> Result<InodeView, ErrorView> {
    match fs.resolve(path) {
        Err(e) => Err(e),
        Ok(id) => if !fs.inodes().contains_key(id) {
            Err(ErrorView::NotFound(label(id)))
        } else {
            Ok(fs.inodes()[id])
        },
    }
}

/// Whether `path` exists, given that the session may make `access` to it:
/// `false` for a path that does not exist, an error for one the session
/// may not use. Root, and for reading the wheel group, pass every check.
pub open spec fn perm_check(fs: &VirtualFs, session: &Session, path: Seq<char>, access: Access) -> Result<
    bool,
    ErrorView,
> {
    if session.spec_is_effectively_root() || ((access == Access::Read || access == Access::Execute)
        && session.spec_can_read_anywhere()) {
        Ok(stat_of(fs, path) is Ok)
    } else {
        match stat_of(fs, path) {
            Ok(v) => if session.allows(v.mode, v.uid, v.gid, access) {
                Ok(true)
            } else {
                Err(ErrorView::PermissionDenied(path))
            },
            Err(_) => Ok(false),
        }
    }
}

/// Looks `path` up and checks that the session may make `access` to it.
pub fn require_perm(fs: &VirtualFs, session: &Session, path: &str, access: Access) -> (r: Result<bool, VfsError>)
    requires
        fs.wf(),
    ensures
        match perm_check(fs, session, path@, access) {
            Ok(b) => r == Ok::<bool, VfsError>(b),
            Err(e) => r is Err && r->Err_0@ == e,
        },
{
    let reading = match access {
        Access::Read => true,
        Access::Execute => true,
        Access::Write => false,
    };
    if session.is_effectively_root() || (reading && session.can_read_anywhere()) {
        return Ok(fs.stat(path).is_ok());
    }
    match fs.stat(path) {
        Ok(info) => {
            if session.has_permission_bits(info.mode, info.uid, info.gid, access) {
                Ok(true)
            } else {
                Err(VfsError::PermissionDenied { path: owned(path) })
            }
        },
        Err(_) => Ok(false),
    }
}

/// The write check on where `path` goes, starting at the directory
/// `current` and walking up past missing directories to the nearest one
/// that exists.
pub open spec fn parent_write_from(fs: &VirtualFs, session: &Session, path: Seq<char>, current: Seq<char>) -> Result<
    (),
    ErrorView,
>
    decreases current.len(),
{
    let probe = if current.len() == 0 {
        "/"@
    } else {
        current
    };
    match stat_of(fs, probe) {
        Ok(v) => if session.allows(v.mode, v.uid, v.gid, Access::Write) {
            Ok(())
        } else {
            Err(ErrorView::PermissionDenied(probe))
        },
        Err(_) => if current.len() == 0 {
            Err(ErrorView::NotFound(path))
        } else {
            proof {
                lemma_parent_shorter(current);
            }
            parent_write_from(fs, session, path, parent_path(current))
        },
    }
}

/// Whether the session may create, delete or rename `path`: root may;
/// anyone else needs write permission on the nearest existing directory
/// above it, as `mkdir -p` would create the rest.
pub open spec fn parent_write_check(fs: &VirtualFs, session: &Session, path: Seq<char>) -> Result<(), ErrorView> {
    if session.spec_is_effectively_root() {
        Ok(())
    } else {
        parent_write_from(fs, session, path, parent_path(path))
    }
}

/// Checks that the session may create, delete or rename `path`.
pub fn require_parent_write(fs: &VirtualFs, session: &Session, path: &str) -> (r: Result<(), VfsError>)
    requires
        fs.wf(),
    ensures
        match parent_write_check(fs, session, path@) {
            Ok(()) => r is Ok,
            Err(e) => r is Err && r->Err_0@ == e,
        },
{
    if session.is_effectively_root() {
        return Ok(());
    }
    let mut current = parent_of(path);
    loop
        invariant
            fs.wf(),
            parent_write_from(fs, session, path@, current@) == parent_write_check(fs, session, path@),
        decreases current@.len(),
    {
        let is_top = current.as_str().unicode_len() == 0;
        let probe = if is_top {
            owned("/")
        } else {
            owned(current.as_str())
        };
        match fs.stat(probe.as_str()) {
            Ok(info) => {
                if session.has_permission_bits(info.mode, info.uid, info.gid, Access::Write) {
                    return Ok(());
                }
                return Err(VfsError::PermissionDenied { path: probe });
            },
            Err(_) => {
                if is_top {
                    return Err(VfsError::NotFound { path: owned(path) });
                }
                proof {
                    lemma_parent_shorter(current@);
                }
                current = parent_of(current.as_str());
            },
        }
    }
}

} // verus!
