//! The shell commands: each takes its arguments (and the output of the
//! command before it in a pipeline), checks the session's permissions,
//! acts on the file system or the user registry, and returns its output.

pub mod parser;

use vstd::prelude::*;
use crate::auth::perms::{has_sticky_bit, Access};
use crate::auth::session::{DelegateContext, Session};
use crate::auth::{Gid, Uid, ROOT_GID, ROOT_UID, WHEEL_GID};
use crate::error::{res_view, ErrorView, VfsError};
use crate::fs::inode::{InodeId, InodeView, KindView};
use crate::auth::registry::{gid_pos, strip_group, strip_member, uid_pos, GroupView, UserRegistry};
use crate::fs::search::row_of;
use crate::fs::GrepResult;
use crate::fs::{components, label, parent_string, VirtualFs};
use crate::pattern::{compile, regex_compiled, regex_matches};
use vstd::string::StringSliceAdditionalSpecFns;
use crate::text::{
    decimal, lines_of, owned, push_char, push_decimal, push_str, split_lines, str_eq, to_chars, unsigned_value, utf8_lossy, utf8_lossy_string,
};
use parser::{is_whitespace, is_ws, ParsedCommand, Pipeline};

verus! {

// ───── Text ─────

/// Parts joined with a separator between each two.
pub open spec fn join_with(parts: Seq<Seq<char>>, sep: Seq<char>) -> Seq<char>
    decreases parts.len(),
{
    if parts.len() == 0 {
        Seq::empty()
    } else if parts.len() == 1 {
        parts[0]
    } else {
        join_with(parts.drop_last(), sep) + sep + parts.last()
    }
}

/// Joins strings with a separator.
pub fn join_strings(parts: &[String], sep: &str) -> (r: String)
    ensures
        r@ == join_with(parts@.map_values(|s: String| s@), sep@),
{
    let ghost ps = parts@.map_values(|s: String| s@);
    let mut out = String::new();
    let mut i: usize = 0;
    proof {
        assert(ps.take(0) =~= Seq::<Seq<char>>::empty());
    }
    while i < parts.len()
        invariant
            i <= parts@.len(),
            ps == parts@.map_values(|s: String| s@),
            out@ == join_with(ps.take(i as int), sep@),
        decreases parts.len() - i,
    {
        proof {
            assert(ps.take(i + 1).drop_last() =~= ps.take(i as int));
            assert(ps.take(i + 1).last() == parts@[i as int]@);
        }
        if i > 0 {
            push_str(&mut out, sep);
        }
        push_str(&mut out, parts[i].as_str());
        proof {
            if i == 0 {
                assert(out@ =~= ps.take(1)[0]);
            }
        }
        i += 1;
    }
    proof {
        assert(ps.take(parts@.len() as int) =~= ps);
    }
    out
}

/// `n` spaces.
pub open spec fn spaces(n: nat) -> Seq<char> {
    Seq::new(n, |i: int| ' ')
}

/// A text padded with spaces on the right to `w` characters.
pub open spec fn pad_right(s: Seq<char>, w: nat) -> Seq<char> {
    if s.len() < w {
        s + spaces((w - s.len()) as nat)
    } else {
        s
    }
}

/// A text padded with spaces on the left to `w` characters.
pub open spec fn pad_left(s: Seq<char>, w: nat) -> Seq<char> {
    if s.len() < w {
        spaces((w - s.len()) as nat) + s
    } else {
        s
    }
}

fn push_spaces(out: &mut String, n: usize)
    ensures
        final(out)@ == old(out)@ + spaces(n as nat),
{
    let mut i: usize = 0;
    let mut stop = false;
    while i < n && !stop
        invariant
            i <= n,
            out@ == old(out)@ + spaces(i as nat),
        decreases n - i,
    {
        push_char(out, ' ');
        proof {
            assert(spaces((i + 1) as nat) =~= spaces(i as nat).push(' '));
        }
        i += 1;
    }
}

fn push_padded_right(out: &mut String, s: &str, w: usize)
    ensures
        final(out)@ == old(out)@ + pad_right(s@, w as nat),
{
    let n = to_chars(s).len();
    push_str(out, s);
    if n < w {
        push_spaces(out, w - n);
    }
    proof {
        if n >= w {
            assert(pad_right(s@, w as nat) == s@);
        }
    }
}

pub(crate) fn push_padded_left(out: &mut String, s: &str, w: usize)
    ensures
        final(out)@ == old(out)@ + pad_left(s@, w as nat),
{
    let n = to_chars(s).len();
    if n < w {
        push_spaces(out, w - n);
    }
    push_str(out, s);
}

/// The `rwxrwxrwx` text of a mode.
pub open spec fn perm_string(mode: u16) -> Seq<char> {
    let t = |shift: u16| (mode >> shift) & 7u16;
    let tri = |b: u16|
        seq![
            if b & 4u16 != 0 { 'r' } else { '-' },
            if b & 2u16 != 0 { 'w' } else { '-' },
            if b & 1u16 != 0 { 'x' } else { '-' },
        ];
    tri(t(6u16)) + tri(t(3u16)) + tri(t(0u16))
}

/// The permission text shows the owner's triple first, then the group's,
/// then the others': its characters are `r`, `w`, `x` in turn exactly
/// where mode bits 0o400, 0o200, 0o100, 0o040, 0o020, 0o010, 0o004, 0o002,
/// 0o001 are set, and `-` elsewhere.
pub proof fn lemma_perm_string_bits(mode: u16)
    ensures
        perm_string(mode).len() == 9,
        perm_string(mode)[0] == (if mode & 0o400u16 != 0 { 'r' } else { '-' }),
        perm_string(mode)[1] == (if mode & 0o200u16 != 0 { 'w' } else { '-' }),
        perm_string(mode)[2] == (if mode & 0o100u16 != 0 { 'x' } else { '-' }),
        perm_string(mode)[3] == (if mode & 0o040u16 != 0 { 'r' } else { '-' }),
        perm_string(mode)[4] == (if mode & 0o020u16 != 0 { 'w' } else { '-' }),
        perm_string(mode)[5] == (if mode & 0o010u16 != 0 { 'x' } else { '-' }),
        perm_string(mode)[6] == (if mode & 0o004u16 != 0 { 'r' } else { '-' }),
        perm_string(mode)[7] == (if mode & 0o002u16 != 0 { 'w' } else { '-' }),
        perm_string(mode)[8] == (if mode & 0o001u16 != 0 { 'x' } else { '-' }),
{
    crate::auth::perms::lemma_mode_bits(mode);
}

/// The permission bits of a mode as `rwxrwxrwx`.
pub fn format_permissions(mode: u16) -> (r: String)
    ensures
        r@ == perm_string(mode),
{
    let mut s = String::new();
    let shifts: [u16; 3] = [6, 3, 0];
    let mut k: usize = 0;
    while k < 3
        invariant
            k <= 3,
            shifts@ == seq![6u16, 3u16, 0u16],
            s@ == (if k == 0 {
                Seq::empty()
            } else if k == 1 {
                perm_string(mode).take(3)
            } else if k == 2 {
                perm_string(mode).take(6)
            } else {
                perm_string(mode)
            }),
        decreases 3 - k,
    {
        let shift = shifts[k];
        let bits = (mode >> shift) & 7;
        push_char(&mut s, if bits & 4 != 0 { 'r' } else { '-' });
        push_char(&mut s, if bits & 2 != 0 { 'w' } else { '-' });
        push_char(&mut s, if bits & 1 != 0 { 'x' } else { '-' });
        proof {
            assert(perm_string(mode).len() == 9);
            if k == 0 {
                assert(s@ =~= perm_string(mode).take(3));
            } else if k == 1 {
                assert(s@ =~= perm_string(mode).take(6));
            } else {
                assert(s@ =~= perm_string(mode));
            }
        }
        k += 1;
    }
    s
}

/// The text of a Unix timestamp in UTC under a chrono format string, when
/// chrono can represent the timestamp.
pub uninterp spec fn chrono_time(epoch: u64, fmt: Seq<char>) -> Option<Seq<char>>;

/// Formats a timestamp with `chrono::DateTime::from_timestamp` (the
/// timestamp taken as an `i64`, no nanoseconds) and `format(fmt)`.
///
/// Claims that the text is the one named `chrono_time` for the timestamp
/// and the format, `None` where chrono gives no date; the calendar itself
/// is not stated. chrono panics while writing a format string it cannot
/// parse, so only the two formats used here are admitted.
#[verifier::external_body]
pub(crate) fn chrono_format(epoch: u64, fmt: &str) -> (r: Option<String>)
    requires
        fmt@ == "%b %d %H:%M"@ || fmt@ == "%Y-%m-%d %H:%M:%S"@,
    ensures
        match r {
            Some(s) => chrono_time(epoch, fmt@) == Some(s@),
            None => chrono_time(epoch, fmt@) is None,
        },
{
    chrono::DateTime::from_timestamp(epoch as i64, 0).map(|d| d.format(fmt).to_string())
}

/// The time text of `ls -l` and `stat`: chrono's, or "???".
pub open spec fn time_text(epoch: u64) -> Seq<char> {
    match chrono_time(epoch, "%b %d %H:%M"@) {
        Some(s) => s,
        None => "???"@,
    }
}

/// A timestamp as `Mon DD HH:MM`, or "???" when it has no date.
pub fn format_time(epoch: u64) -> (r: String)
    ensures
        r@ == time_text(epoch),
{
    match chrono_format(epoch, "%b %d %H:%M") {
        Some(s) => s,
        None => owned("???"),
    }
}

// ───── Permissions ─────

/// The error that checking `access` to inode `id` gives, if any.
pub open spec fn access_error(fs: &VirtualFs, id: InodeId, session: &Session, access: Access, path: Seq<char>) -> Option<
    ErrorView,
> {
    if !fs.inodes().contains_key(id) {
        Some(ErrorView::NotFound(label(id)))
    } else if !session.allows(fs.inodes()[id].mode, fs.inodes()[id].uid, fs.inodes()[id].gid, access) {
        Some(ErrorView::PermissionDenied(path))
    } else {
        None
    }
}

/// Checks that the session has `access` to inode `id` (principal and
/// delegate both).
pub(crate) fn require_access(fs: &VirtualFs, inode_id: InodeId, session: &Session, access: Access, path: &str) -> (r: Result<
    (),
    VfsError,
>)
    ensures
        match access_error(fs, inode_id, session, access, path@) {
            None => r is Ok,
            Some(e) => r is Err && r->Err_0@ == e,
        },
{
    let inode = fs.get_inode(inode_id)?;
    if !session.has_permission(inode, access) {
        return Err(VfsError::PermissionDenied { path: owned(path) });
    }
    Ok(())
}

/// Whether an identity is an administrator: root, or in the wheel group.
pub open spec fn is_admin(uid: Uid, groups: Seq<Gid>) -> bool {
    uid == ROOT_UID || groups.contains(WHEEL_GID)
}

/// The error that an administrative command gives for a session, if any:
/// both the principal and the delegate must be administrators.
pub open spec fn admin_error(session: &Session) -> Option<ErrorView> {
    if !is_admin(session.uid, session.groups@) {
        Some(ErrorView::PermissionDenied("admin operation"@))
    } else if session.delegate matches Some(d) && !is_admin(d.uid, d.groups@) {
        Some(ErrorView::PermissionDenied("admin operation (delegate lacks admin)"@))
    } else {
        None
    }
}

fn require_admin(session: &Session) -> (r: Result<(), VfsError>)
    ensures
        match admin_error(session) {
            None => r is Ok,
            Some(e) => r is Err && r->Err_0@ == e,
        },
{
    let principal_admin = session.uid == ROOT_UID || crate::auth::contains_id(
        session.groups.as_slice(),
        WHEEL_GID,
    );
    if !principal_admin {
        return Err(VfsError::PermissionDenied { path: owned("admin operation") });
    }
    if let Some(delegate) = &session.delegate {
        let delegate_admin = delegate.uid == ROOT_UID || crate::auth::contains_id(
            delegate.groups.as_slice(),
            WHEEL_GID,
        );
        if !delegate_admin {
            return Err(
                VfsError::PermissionDenied { path: owned("admin operation (delegate lacks admin)") },
            );
        }
    }
    Ok(())
}

/// Where the parent of `path` is found with Execute checks, as
/// `resolve_parent_checked` finds it.
pub open spec fn parent_checked(fs: &VirtualFs, path: Seq<char>, session: &Session) -> Result<
    InodeId,
    ErrorView,
> {
    if components(path).len() == 0 {
        Err(ErrorView::InvalidPath(path))
    } else {
        fs.resolve_checked(parent_string(path), *session)
    }
}

fn parent_of_checked(fs: &VirtualFs, path: &str, session: &Session) -> (r: Result<InodeId, VfsError>)
    requires
        fs.wf(),
    ensures
        match r {
            Ok(p) => parent_checked(fs, path@, session) == Ok::<InodeId, ErrorView>(p),
            Err(e) => parent_checked(fs, path@, session) == Err::<InodeId, ErrorView>(e@),
        },
{
    let (p, _) = fs.resolve_parent_checked(path, session)?;
    Ok(p)
}


// ───── Text commands ─────

/// The arguments as texts.
pub open spec fn texts(args: Seq<String>) -> Seq<Seq<char>> {
    args.map_values(|s: String| s@)
}

/// `echo`: the arguments joined by spaces, and a newline.
fn cmd_echo(args: &Vec<String>) -> (r: Result<String, VfsError>)
    ensures
        r is Ok && r->Ok_0@ == join_with(texts(args@), " "@) + "\n"@,
{
    let mut out = join_strings(args.as_slice(), " ");
    push_str(&mut out, "\n");
    Ok(out)
}

/// A number as `str::parse::<usize>` reads it, or 10.
pub open spec fn count_or_ten(s: Seq<char>) -> nat {
    match unsigned_value(s, 10) {
        Some(v) => if v <= usize::MAX {
            v
        } else {
            10
        },
        None => 10,
    }
}

/// The line count that `head` and `tail` take from the first `k`
/// arguments: `-n N` or `-N` sets it, the last one counting; 10 without.
pub open spec fn line_count(args: Seq<Seq<char>>, k: nat) -> nat
    decreases k,
{
    if k == 0 || k > args.len() {
        10
    } else {
        let i = k - 1;
        let a = args[i];
        if a == "-n"@ && i + 1 < args.len() {
            count_or_ten(args[i + 1])
        } else if a.len() > 0 && a[0] == '-' {
            count_or_ten(a.drop_first())
        } else {
            line_count(args, (k - 1) as nat)
        }
    }
}

fn parse_count(s: &str) -> (r: usize)
    ensures
        r == count_or_ten(s@),
{
    match crate::text::parse_unsigned(s, 10, usize::MAX as u64) {
        Some(v) => v as usize,
        None => 10,
    }
}

/// The text after the first character.
fn after_first(s: &str) -> (r: String)
    ensures
        s@.len() > 0 ==> r@ == s@.drop_first(),
{
    let chars = to_chars(s);
    if chars.len() == 0 {
        return String::new();
    }
    crate::text::substring(chars.as_slice(), 1, chars.len())
}

fn count_arg(args: &Vec<String>) -> (r: usize)
    ensures
        r == line_count(texts(args@), args@.len()),
{
    let ghost ts = texts(args@);
    let mut n: usize = 10;
    let mut i: usize = 0;
    proof {
        reveal_strlit("-n");
    }
    while i < args.len()
        invariant
            i <= args@.len(),
            ts == texts(args@),
            n == line_count(ts, i as nat),
        decreases args.len() - i,
    {
        let a = args[i].as_str();
        let chars = to_chars(a);
        let dash = chars.len() > 0 && chars[0] == '-';
        proof {
            assert(ts[i as int] == a@);
        }
        if str_eq(a, "-n") && i + 1 < args.len() {
            n = parse_count(args[i + 1].as_str());
        } else if dash {
            n = parse_count(after_first(a).as_str());
        }
        i += 1;
    }
    n
}

/// `head`: the first lines of the input.
fn cmd_head(args: &Vec<String>, stdin: Option<&str>) -> (r: Result<String, VfsError>)
    ensures
        match stdin {
            None => r is Err && r->Err_0@ == ErrorView::InvalidArgs("head: no input"@),
            Some(input) => r is Ok && r->Ok_0@ == join_with(
                lines_of(input@).take(
                    if line_count(texts(args@), args@.len()) < lines_of(input@).len() {
                        line_count(texts(args@), args@.len()) as int
                    } else {
                        lines_of(input@).len() as int
                    },
                ),
                "\n"@,
            ) + "\n"@,
        },
{
    let input = match stdin {
        Some(i) => i,
        None => {
            return Err(VfsError::InvalidArgs { message: owned("head: no input") });
        },
    };
    let n = count_arg(args);
    let lines = split_lines(input);
    let take = if n < lines.len() {
        n
    } else {
        lines.len()
    };
    let mut out = join_strings(&lines.as_slice()[0..take], "\n");
    proof {
        assert(lines@.subrange(0, take as int).map_values(|s: String| s@) =~= lines.deep_view().take(
            take as int,
        ));
    }
    push_str(&mut out, "\n");
    Ok(out)
}

/// `tail`: the last lines of the input.
fn cmd_tail(args: &Vec<String>, stdin: Option<&str>) -> (r: Result<String, VfsError>)
    ensures
        match stdin {
            None => r is Err && r->Err_0@ == ErrorView::InvalidArgs("tail: no input"@),
            Some(input) => r is Ok && r->Ok_0@ == join_with(
                lines_of(input@).skip(
                    if line_count(texts(args@), args@.len()) < lines_of(input@).len() {
                        lines_of(input@).len() - line_count(texts(args@), args@.len())
                    } else {
                        0
                    },
                ),
                "\n"@,
            ) + "\n"@,
        },
{
    let input = match stdin {
        Some(i) => i,
        None => {
            return Err(VfsError::InvalidArgs { message: owned("tail: no input") });
        },
    };
    let n = count_arg(args);
    let lines = split_lines(input);
    let start = if n < lines.len() {
        lines.len() - n
    } else {
        0
    };
    let mut out = join_strings(&lines.as_slice()[start..lines.len()], "\n");
    proof {
        assert(lines@.subrange(start as int, lines@.len() as int).map_values(|s: String| s@)
            =~= lines.deep_view().skip(start as int));
    }
    push_str(&mut out, "\n");
    Ok(out)
}

/// The number of words of a text: the maximal runs of characters that
/// are not white space.
pub open spec fn word_count(s: Seq<char>) -> nat
    decreases s.len(),
{
    if s.len() == 0 {
        0
    } else {
        word_count(s.drop_last()) + if !is_ws(s.last()) && (s.len() == 1 || is_ws(s[s.len() - 2])) {
            1nat
        } else {
            0nat
        }
    }
}

/// Any white space character, a newline or a tab as well as a space,
/// separates words: the words around it are counted apart.
pub proof fn lemma_word_count_split(a: Seq<char>, c: char, b: Seq<char>)
    requires
        is_ws(c),
    ensures
        word_count(a + seq![c] + b) == word_count(a) + word_count(b),
    decreases b.len(),
{
    let u = a + seq![c] + b;
    if b.len() == 0 {
        assert(u.drop_last() =~= a);
    } else {
        assert(u.drop_last() =~= a + seq![c] + b.drop_last());
        lemma_word_count_split(a, c, b.drop_last());
        assert(u.last() == b.last());
        if b.len() == 1 {
            assert(u[u.len() - 2] == c);
        } else {
            assert(u[u.len() - 2] == b[b.len() - 2]);
        }
    }
}

/// A run of characters none of which is white space is one word; text
/// made only of white space has none.
pub proof fn lemma_word_count_runs(s: Seq<char>)
    ensures
        s.len() > 0 && (forall|i: int| 0 <= i < s.len() ==> !is_ws(#[trigger] s[i])) ==> word_count(s) == 1,
        (forall|i: int| 0 <= i < s.len() ==> is_ws(#[trigger] s[i])) ==> word_count(s) == 0,
    decreases s.len(),
{
    if s.len() > 0 {
        lemma_word_count_runs(s.drop_last());
        assert forall|i: int| 0 <= i < s.drop_last().len() implies s.drop_last()[i] == s[i] by {}
        if s.len() > 1 {
            assert(s[s.len() - 2] == s.drop_last()[s.len() - 2]);
        }
    }
}

fn count_words(s: &str) -> (r: usize)
    ensures
        r == word_count(s@),
{
    let chars = to_chars(s);
    let mut n: usize = 0;
    let mut i: usize = 0;
    proof {
        assert(chars@.take(0) =~= Seq::<char>::empty());
    }
    while i < chars.len()
        invariant
            i <= chars@.len(),
            chars@ == s@,
            n == word_count(chars@.take(i as int)),
            n <= i,
        decreases chars.len() - i,
    {
        proof {
            assert(chars@.take(i + 1).drop_last() =~= chars@.take(i as int));
        }
        if !is_whitespace(chars[i]) && (i == 0 || is_whitespace(chars[i - 1])) {
            n += 1;
        }
        i += 1;
    }
    proof {
        assert(chars@.take(chars@.len() as int) =~= chars@);
    }
    n
}

/// Whether the arguments include `flag`.
fn has_arg(args: &Vec<String>, flag: &str) -> (r: bool)
    ensures
        r == texts(args@).contains(flag@),
{
    let mut i: usize = 0;
    while i < args.len()
        invariant
            i <= args@.len(),
            forall|j: int| 0 <= j < i ==> args@[j]@ != flag@,
        decreases args.len() - i,
    {
        if str_eq(args[i].as_str(), flag) {
            proof {
                assert(texts(args@)[i as int] == flag@);
            }
            return true;
        }
        i += 1;
    }
    proof {
        if texts(args@).contains(flag@) {
            let j = choose|j: int| 0 <= j < texts(args@).len() && texts(args@)[j] == flag@;
            assert(args@[j]@ == flag@);
        }
    }
    false
}

/// `wc`: lines, words and bytes of the input, or one of them.
fn cmd_wc(args: &Vec<String>, stdin: Option<&str>) -> (r: Result<String, VfsError>)
    ensures
        match stdin {
            None => r is Err && r->Err_0@ == ErrorView::InvalidArgs("wc: no input"@),
            Some(input) => {
                let l = decimal(lines_of(input@).len());
                let w = decimal(word_count(input@));
                let c = decimal(vstd::utf8::encode_utf8(input@).len());
                r is Ok && r->Ok_0@ == if texts(args@).contains("-l"@) {
                    l + "\n"@
                } else if texts(args@).contains("-w"@) {
                    w + "\n"@
                } else if texts(args@).contains("-c"@) {
                    c + "\n"@
                } else {
                    l + " "@ + w + " "@ + c + "\n"@
                }
            },
        },
{
    let input = match stdin {
        Some(i) => i,
        None => {
            return Err(VfsError::InvalidArgs { message: owned("wc: no input") });
        },
    };
    let lines = split_lines(input).len();
    let words = count_words(input);
    let bytes = input.as_bytes().len();
    let mut out = String::new();
    if has_arg(args, "-l") {
        push_decimal(&mut out, lines as u64);
    } else if has_arg(args, "-w") {
        push_decimal(&mut out, words as u64);
    } else if has_arg(args, "-c") {
        push_decimal(&mut out, bytes as u64);
    } else {
        push_decimal(&mut out, lines as u64);
        push_str(&mut out, " ");
        push_decimal(&mut out, words as u64);
        push_str(&mut out, " ");
        push_decimal(&mut out, bytes as u64);
    }
    push_str(&mut out, "\n");
    Ok(out)
}


// ───── Reading commands ─────

/// What `cat` shows of one path: the file's bytes decoded as UTF-8 (each
/// invalid sequence replaced), once the path resolves with Execute checks
/// and the session may read the file.
pub open spec fn cat_one(fs: &VirtualFs, path: Seq<char>, session: &Session) -> Result<Seq<char>, ErrorView> {
    match fs.resolve_checked(path, *session) {
        Err(e) => Err(e),
        Ok(id) => match access_error(fs, id, session, Access::Read, path) {
            Some(e) => Err(e),
            None => match fs.read(path) {
                Err(e) => Err(e),
                Ok(c) => Ok(utf8_lossy(c)),
            },
        },
    }
}

/// What `cat` shows of several paths, one after another, or the first
/// error.
pub open spec fn cat_all(fs: &VirtualFs, paths: Seq<Seq<char>>, session: &Session) -> Result<Seq<char>, ErrorView>
    decreases paths.len(),
{
    if paths.len() == 0 {
        Ok(Seq::empty())
    } else {
        match cat_all(fs, paths.drop_last(), session) {
            Err(e) => Err(e),
            Ok(t) => match cat_one(fs, paths.last(), session) {
                Err(e) => Err(e),
                Ok(x) => Ok(t + x),
            },
        }
    }
}

proof fn lemma_cat_all_err(fs: &VirtualFs, ps: Seq<Seq<char>>, session: &Session, j: int)
    requires
        0 <= j <= ps.len(),
        cat_all(fs, ps.take(j), session) is Err,
    ensures
        cat_all(fs, ps, session) == cat_all(fs, ps.take(j), session),
    decreases ps.len() - j,
{
    if j < ps.len() {
        assert(ps.take(j + 1).drop_last() =~= ps.take(j));
        lemma_cat_all_err(fs, ps, session, j + 1);
    } else {
        assert(ps.take(j) =~= ps);
    }
}

/// `cat`: the files one after another; with no paths, the input.
fn cmd_cat(fs: &VirtualFs, args: &Vec<String>, stdin: Option<&str>, session: &Session) -> (r: Result<
    String,
    VfsError,
>)
    requires
        fs.wf(),
    ensures
        args@.len() == 0 ==> match stdin {
            Some(input) => r is Ok && r->Ok_0@ == input@,
            None => r is Err && r->Err_0@ == ErrorView::InvalidArgs("cat: missing operand"@),
        },
        args@.len() > 0 ==> match cat_all(fs, texts(args@), session) {
            Ok(t) => r is Ok && r->Ok_0@ == t,
            Err(e) => r is Err && r->Err_0@ == e,
        },
{
    if args.len() == 0 {
        return match stdin {
            Some(input) => Ok(owned(input)),
            None => Err(VfsError::InvalidArgs { message: owned("cat: missing operand") }),
        };
    }
    let ghost ps = texts(args@);
    let mut output = String::new();
    let mut i: usize = 0;
    proof {
        assert(ps.take(0) =~= Seq::<Seq<char>>::empty());
    }
    while i < args.len()
        invariant
            fs.wf(),
            ps == texts(args@),
            i <= args@.len(),
            cat_all(fs, ps.take(i as int), session) == Ok::<Seq<char>, ErrorView>(output@),
        decreases args.len() - i,
    {
        let path = args[i].as_str();
        proof {
            assert(ps.take(i + 1).drop_last() =~= ps.take(i as int));
            assert(ps.take(i + 1).last() == path@);
        }
        let id = match fs.resolve_path_checked(path, session) {
            Ok(id) => id,
            Err(e) => {
                proof {
                    lemma_cat_all_err(fs, ps, session, i + 1);
                }
                return Err(e);
            },
        };
        match require_access(fs, id, session, Access::Read, path) {
            Ok(()) => {},
            Err(e) => {
                proof {
                    lemma_cat_all_err(fs, ps, session, i + 1);
                }
                return Err(e);
            },
        }
        let content = match fs.cat(path) {
            Ok(c) => c,
            Err(e) => {
                proof {
                    lemma_cat_all_err(fs, ps, session, i + 1);
                }
                return Err(e);
            },
        };
        let text = utf8_lossy_string(content);
        push_str(&mut output, text.as_str());
        i += 1;
    }
    proof {
        assert(ps.take(args@.len() as int) =~= ps);
    }
    Ok(output)
}

/// `cd`: changes the working directory (to the root without a path) when
/// the path resolves with Execute checks and the session may enter it.
fn cmd_cd(fs: &mut VirtualFs, args: &Vec<String>, session: &Session) -> (r: Result<String, VfsError>)
    requires
        old(fs).wf(),
    ensures
        final(fs).wf(),
        ({
            let path = if args@.len() > 0 {
                args@[0]@
            } else {
                "/"@
            };
            match old(fs).resolve_checked(path, *session) {
                Err(e) => r is Err && r->Err_0@ == e && *final(fs) == *old(fs),
                Ok(t) => match access_error(old(fs), t, session, Access::Execute, path) {
                    Some(e) => r is Err && r->Err_0@ == e && *final(fs) == *old(fs),
                    None => r is Ok ==> r->Ok_0@.len() == 0 && (path == "/"@ || final(fs).cwd()
                        == old(fs).resolve(path)->Ok_0),
                },
            }
        }),
{
    let path = if args.len() > 0 {
        args[0].as_str()
    } else {
        "/"
    };
    let target = fs.resolve_path_checked(path, session)?;
    require_access(fs, target, session, Access::Execute, path)?;
    fs.cd(path)?;
    Ok(String::new())
}

/// The rows that `ls` shows before filtering: the entries of a directory
/// with their inodes, or a file or link under the path as given.
pub open spec fn ls_rows(fs: &VirtualFs, path: Option<Seq<char>>) -> Result<Seq<(Seq<char>, crate::fs::inode::InodeView)>, ErrorView> {
    let target = match path {
        Some(p) => fs.resolve(p),
        None => Ok(fs.cwd()),
    };
    match target {
        Err(e) => Err(e),
        Ok(id) => if !fs.inodes().contains_key(id) {
            Err(ErrorView::NotFound(label(id)))
        } else {
            let v = fs.inodes()[id];
            match v.kind {
                KindView::Directory(es) => match crate::fs::first_missing(es, fs.inodes()) {
                    Some(i) => Err(ErrorView::NotFound(label(es[i].1))),
                    None => Ok(Seq::new(es.len(), |i: int| (es[i].0@, fs.inodes()[es[i].1]))),
                },
                _ => Ok(
                    seq![
                        (
                            match path {
                                Some(p) => p,
                                None => Seq::empty(),
                            },
                            v,
                        ),
                    ],
                ),
            }
        },
    }
}

/// The name of a user, or "?".
pub open spec fn owner_text(fs: &VirtualFs, uid: Uid) -> Seq<char> {
    match crate::auth::registry::user_of(fs.reg().users(), uid) {
        Some(u) => u.name,
        None => "?"@,
    }
}

/// The name of a group, or "?".
pub open spec fn group_text(fs: &VirtualFs, gid: Gid) -> Seq<char> {
    match crate::auth::registry::group_of(fs.reg().groups(), gid) {
        Some(g) => g.name,
        None => "?"@,
    }
}

/// The line of `ls` for an inode named `name`.
pub open spec fn ls_line(fs: &VirtualFs, name: Seq<char>, v: crate::fs::inode::InodeView, long: bool) -> Seq<char> {
    let slash = if v.kind is Directory {
        "/"@
    } else {
        Seq::empty()
    };
    if long {
        let kind = if v.kind is Directory {
            'd'
        } else if v.kind is Symlink {
            'l'
        } else {
            '-'
        };
        seq![kind] + perm_string(v.mode) + " "@ + pad_right(owner_text(fs, v.uid), 8) + " "@
            + pad_right(group_text(fs, v.gid), 8) + " "@ + pad_left(
            decimal(crate::fs::inode::view_size(v)),
            8,
        ) + " "@ + time_text(v.modified) + " "@ + name + slash + "\n"@
    } else {
        name + slash + "\n"@
    }
}

/// The lines of `ls` for the rows a session may read.
pub open spec fn ls_text(
    fs: &VirtualFs,
    rows: Seq<(Seq<char>, crate::fs::inode::InodeView)>,
    session: &Session,
    long: bool,
) -> Seq<char>
    decreases rows.len(),
{
    if rows.len() == 0 {
        Seq::empty()
    } else {
        let (name, v) = rows.last();
        ls_text(fs, rows.drop_last(), session, long) + if session.allows(v.mode, v.uid, v.gid, Access::Read) {
            ls_line(fs, name, v, long)
        } else {
            Seq::empty()
        }
    }
}

/// The flags and the path of `ls` from its first `k` arguments: `-l`
/// (also in `-la`, `-al`) asks for the long format; `-a` is accepted; any
/// other argument is the path, the last one counting.
pub open spec fn ls_args(args: Seq<Seq<char>>, k: nat) -> (bool, Option<int>)
    decreases k,
{
    if k == 0 || k > args.len() {
        (false, None)
    } else {
        let (long, path) = ls_args(args, (k - 1) as nat);
        let a = args[k - 1];
        if a == "-l"@ || a == "-la"@ || a == "-al"@ {
            (true, path)
        } else if a == "-a"@ {
            (long, path)
        } else {
            (long, Some(k - 1))
        }
    }
}

/// The line of `ls` for a row.
pub open spec fn row_line(fs: &VirtualFs, e: crate::fs::LsEntry, long: bool) -> Seq<char> {
    let slash = if e.is_dir {
        "/"@
    } else {
        Seq::empty()
    };
    if long {
        let kind = if e.is_dir {
            'd'
        } else if e.is_symlink {
            'l'
        } else {
            '-'
        };
        seq![kind] + perm_string(e.mode) + " "@ + pad_right(owner_text(fs, e.uid), 8) + " "@
            + pad_right(group_text(fs, e.gid), 8) + " "@ + pad_left(decimal(e.size as nat), 8) + " "@
            + time_text(e.modified) + " "@ + e.name@ + slash + "\n"@
    } else {
        e.name@ + slash + "\n"@
    }
}

fn render_row(fs: &VirtualFs, e: &crate::fs::LsEntry, long: bool) -> (r: String)
    requires
        fs.wf(),
    ensures
        r@ == row_line(fs, *e, long),
{
    let reg = fs.registry();
    let mut output = String::new();
    if long {
        let kind = if e.is_dir {
            'd'
        } else if e.is_symlink {
            'l'
        } else {
            '-'
        };
        push_char(&mut output, kind);
        push_str(&mut output, format_permissions(e.mode).as_str());
        push_str(&mut output, " ");
        let owner = match reg.user_name(e.uid) {
            Some(n) => n,
            None => "?",
        };
        push_padded_right(&mut output, owner, 8);
        push_str(&mut output, " ");
        let group = match reg.group_name(e.gid) {
            Some(n) => n,
            None => "?",
        };
        push_padded_right(&mut output, group, 8);
        push_str(&mut output, " ");
        let size = crate::text::decimal_string(e.size);
        push_padded_left(&mut output, size.as_str(), 8);
        push_str(&mut output, " ");
        push_str(&mut output, format_time(e.modified).as_str());
        push_str(&mut output, " ");
    }
    push_str(&mut output, e.name.as_str());
    if e.is_dir {
        push_str(&mut output, "/");
    }
    push_str(&mut output, "\n");
    proof {
        assert(output@ =~= row_line(fs, *e, long));
    }
    output
}

/// `ls [-l] [path]`: the entries of a directory that the session may read,
/// once it may read and enter the directory.
fn cmd_ls(fs: &VirtualFs, args: &Vec<String>, session: &Session) -> (r: Result<String, VfsError>)
    requires
        fs.wf(),
    ensures
        ({
            let (long, pi) = ls_args(texts(args@), args@.len());
            let path: Option<Seq<char>> = match pi {
                Some(i) => Some(args@[i]@),
                None => None,
            };
            let dir_path = match pi {
                Some(i) => args@[i]@,
                None => "."@,
            };
            match fs.resolve_checked(dir_path, *session) {
                Err(e) => r is Err && r->Err_0@ == e,
                Ok(d) => match access_error(fs, d, session, Access::Read, dir_path) {
                    Some(e) => r is Err && r->Err_0@ == e,
                    None => match access_error(fs, d, session, Access::Execute, dir_path) {
                        Some(e) => r is Err && r->Err_0@ == e,
                        None => match ls_rows(fs, path) {
                            Err(e) => r is Err && r->Err_0@ == e,
                            Ok(rows) => r is Ok && r->Ok_0@ == ls_text(fs, rows, session, long),
                        },
                    },
                },
            }
        }),
{
    proof {
        reveal_strlit("-l");
        reveal_strlit("-la");
        reveal_strlit("-al");
        reveal_strlit("-a");
    }
    let mut long = false;
    let mut path: Option<&str> = None;
    let mut i: usize = 0;
    while i < args.len()
        invariant
            i <= args@.len(),
            ls_args(texts(args@), i as nat).0 == long,
            match ls_args(texts(args@), i as nat).1 {
                Some(k) => 0 <= k < i && path is Some && path->0@ == args@[k]@,
                None => path is None,
            },
        decreases args.len() - i,
    {
        let a = args[i].as_str();
        proof {
            assert(texts(args@)[i as int] == a@);
        }
        if str_eq(a, "-l") || str_eq(a, "-la") || str_eq(a, "-al") {
            long = true;
        } else if str_eq(a, "-a") {
        } else {
            path = Some(a);
        }
        i += 1;
    }
    let dir_path = match path {
        Some(p) => p,
        None => ".",
    };
    let dir_id = fs.resolve_path_checked(dir_path, session)?;
    require_access(fs, dir_id, session, Access::Read, dir_path)?;
    require_access(fs, dir_id, session, Access::Execute, dir_path)?;
    let entries = fs.ls(path)?;
    let ghost pv: Option<Seq<char>> = match path {
        Some(p) => Some(p@),
        None => None,
    };
    let ghost rows = ls_rows(fs, pv)->Ok_0;
    let mut output = String::new();
    let mut k: usize = 0;
    proof {
        assert(rows.take(0) =~= Seq::<(Seq<char>, crate::fs::inode::InodeView)>::empty());
        assert(entries@.len() == rows.len());
        assert forall|j: int| 0 <= j < rows.len() implies crate::fs::describes(
            #[trigger] entries@[j],
            rows[j].0,
            rows[j].1,
        ) by {}
    }
    while k < entries.len()
        invariant
            fs.wf(),
            k <= entries@.len(),
            entries@.len() == rows.len(),
            forall|j: int| 0 <= j < rows.len() ==> crate::fs::describes(#[trigger] entries@[j], rows[j].0, rows[j].1),
            output@ == ls_text(fs, rows.take(k as int), session, long),
        decreases entries.len() - k,
    {
        let e = &entries[k];
        proof {
            assert(rows.take(k + 1).drop_last() =~= rows.take(k as int));
            assert(rows.take(k + 1).last() == rows[k as int]);
            assert(crate::fs::describes(*e, rows[k as int].0, rows[k as int].1));
        }
        if session.has_permission_bits(e.mode, e.uid, e.gid, Access::Read) {
            let line = render_row(fs, e, long);
            push_str(&mut output, line.as_str());
        }
        proof {
            let (name, v) = rows[k as int];
            if session.allows(v.mode, v.uid, v.gid, Access::Read) {
                assert(row_line(fs, *e, long) == ls_line(fs, name, v, long));
                assert(output@ =~= ls_text(fs, rows.take(k as int), session, long) + ls_line(fs, name, v, long));
            } else {
                assert(output@ =~= ls_text(fs, rows.take(k as int), session, long) + Seq::<char>::empty());
            }
        }
        k += 1;
    }
    proof {
        assert(rows.take(rows.len() as int) =~= rows);
    }
    Ok(output)
}


/// The octal rendering of a number, without leading zeros.
pub open spec fn octal(n: nat) -> Seq<char>
    decreases n,
{
    if n < 8 {
        seq![crate::text::digit_char(n)]
    } else {
        octal(n / 8).push(crate::text::digit_char(n % 8))
    }
}

/// A mode in octal, zero-padded to four digits.
pub open spec fn mode_octal(mode: u16) -> Seq<char> {
    let o = octal(mode as nat);
    if o.len() < 4 {
        Seq::new((4 - o.len()) as nat, |i: int| '0') + o
    } else {
        o
    }
}

fn push_octal(s: &mut String, n: u64)
    ensures
        final(s)@ == old(s)@ + octal(n as nat),
    decreases n,
{
    if n >= 8 {
        push_octal(s, n / 8);
    }
    push_char(s, crate::text::digit(n % 8));
    proof {
        if n >= 8 {
            assert(old(s)@ + octal((n / 8) as nat) + seq![crate::text::digit_char((n % 8) as nat)] =~= old(s)@
                + octal(n as nat));
        } else {
            assert(old(s)@.push(crate::text::digit_char(n as nat)) =~= old(s)@ + octal(n as nat));
        }
    }
}

fn push_mode(s: &mut String, mode: u16)
    ensures
        final(s)@ == old(s)@ + mode_octal(mode),
{
    let mut o = String::new();
    push_octal(&mut o, mode as u64);
    proof {
        assert(o@ =~= octal(mode as nat));
    }
    let n = to_chars(o.as_str()).len();
    let mut i = n;
    while i < 4
        invariant
            n <= i <= 4 || (n > 4 && i == n),
            s@ == old(s)@ + Seq::new((i - n) as nat, |j: int| '0'),
        decreases 4 - i,
    {
        push_char(s, '0');
        proof {
            assert(Seq::new((i + 1 - n) as nat, |j: int| '0') =~= Seq::new((i - n) as nat, |j: int| '0').push('0'));
        }
        i += 1;
    }
    push_str(s, o.as_str());
    proof {
        if n < 4 {
            assert(s@ =~= old(s)@ + mode_octal(mode));
        } else {
            assert(Seq::new((i - n) as nat, |j: int| '0') =~= Seq::<char>::empty());
            assert(s@ =~= old(s)@ + mode_octal(mode));
        }
    }
}

/// The text of `stat` for the inode `v` numbered `id`, named by `path`.
pub open spec fn stat_text(fs: &VirtualFs, path: Seq<char>, id: InodeId, v: crate::fs::inode::InodeView) -> Seq<char> {
    let size = crate::fs::inode::view_size(v);
    "  File: "@ + path + "\n  Size: "@ + decimal(size) + "\n Blocks: "@ + decimal((size + 511) / 512)
        + "\n IO Block: "@ + decimal(v.block_size as nat) + "\n  Type: "@ + crate::fs::kind_word(v)
        + "\n Inode: "@ + decimal(id as nat) + "\n Links: "@ + decimal(v.nlink as nat) + "\n  Mode: "@
        + mode_octal(v.mode) + "\n   Uid: "@ + decimal(v.uid as nat) + " ("@ + owner_text(fs, v.uid)
        + ")\n   Gid: "@ + decimal(v.gid as nat) + " ("@ + group_text(fs, v.gid) + ")\nCreated: "@
        + time_text(v.created) + "."@ + decimal(v.created_at.nanos as nat) + "\nAccessed: "@ + time_text(
        v.accessed_at.secs,
    ) + "."@ + decimal(v.accessed_at.nanos as nat) + "\nModified: "@ + time_text(v.modified) + "."@
        + decimal(v.modified_at.nanos as nat) + "\n Changed: "@ + time_text(v.changed_at.secs) + "."@
        + decimal(v.changed_at.nanos as nat) + "\n"@
}

/// `stat <path>`: the inode's fields, once the path resolves with Execute
/// checks.
fn cmd_stat(fs: &VirtualFs, args: &Vec<String>, session: &Session) -> (r: Result<String, VfsError>)
    requires
        fs.wf(),
    ensures
        args@.len() == 0 ==> r is Err && r->Err_0@ == ErrorView::InvalidArgs("stat: missing operand"@),
        args@.len() > 0 ==> match fs.resolve_checked(args@[0]@, *session) {
            Err(e) => r is Err && r->Err_0@ == e,
            Ok(_) => match fs.resolve(args@[0]@) {
                Err(e) => r is Err && r->Err_0@ == e,
                Ok(id) => if !fs.inodes().contains_key(id) {
                    r is Err && r->Err_0@ == ErrorView::NotFound(label(id))
                } else {
                    r is Ok && r->Ok_0@ == stat_text(fs, args@[0]@, id, fs.inodes()[id])
                },
            },
        },
{
    if args.len() == 0 {
        return Err(VfsError::InvalidArgs { message: owned("stat: missing operand") });
    }
    let path = args[0].as_str();
    let _id = fs.resolve_path_checked(path, session)?;
    let info = fs.stat(path)?;
    let reg = fs.registry();
    let owner = match reg.user_name(info.uid) {
        Some(n) => n,
        None => "?",
    };
    let group = match reg.group_name(info.gid) {
        Some(n) => n,
        None => "?",
    };
    let mut out = owned("  File: ");
    push_str(&mut out, path);
    push_str(&mut out, "\n  Size: ");
    push_decimal(&mut out, info.size);
    push_str(&mut out, "\n Blocks: ");
    push_decimal(&mut out, info.blocks);
    push_str(&mut out, "\n IO Block: ");
    push_decimal(&mut out, info.block_size);
    push_str(&mut out, "\n  Type: ");
    push_str(&mut out, info.kind);
    push_str(&mut out, "\n Inode: ");
    push_decimal(&mut out, info.inode_id);
    push_str(&mut out, "\n Links: ");
    push_decimal(&mut out, info.nlink);
    push_str(&mut out, "\n  Mode: ");
    push_mode(&mut out, info.mode);
    push_str(&mut out, "\n   Uid: ");
    push_decimal(&mut out, info.uid as u64);
    push_str(&mut out, " (");
    push_str(&mut out, owner);
    push_str(&mut out, ")\n   Gid: ");
    push_decimal(&mut out, info.gid as u64);
    push_str(&mut out, " (");
    push_str(&mut out, group);
    push_str(&mut out, ")\nCreated: ");
    push_str(&mut out, format_time(info.created).as_str());
    push_str(&mut out, ".");
    push_decimal(&mut out, info.created_nanos as u64);
    push_str(&mut out, "\nAccessed: ");
    push_str(&mut out, format_time(info.accessed).as_str());
    push_str(&mut out, ".");
    push_decimal(&mut out, info.accessed_nanos as u64);
    push_str(&mut out, "\nModified: ");
    push_str(&mut out, format_time(info.modified).as_str());
    push_str(&mut out, ".");
    push_decimal(&mut out, info.modified_nanos as u64);
    push_str(&mut out, "\n Changed: ");
    push_str(&mut out, format_time(info.changed).as_str());
    push_str(&mut out, ".");
    push_decimal(&mut out, info.changed_nanos as u64);
    push_str(&mut out, "\n");
    proof {
        let id = fs.resolve(path@)->Ok_0;
        assert(out@ =~= stat_text(fs, path@, id, fs.inodes()[id]));
    }
    Ok(out)
}

/// The checks of `tree`, `find` and a path of `grep` on an optional path:
/// none without one; else the path resolves with Execute checks and the
/// session has each access asked for.
pub open spec fn path_checks(fs: &VirtualFs, path: Seq<char>, session: &Session, read: bool, exec: bool) -> Option<ErrorView> {
    match fs.resolve_checked(path, *session) {
        Err(e) => Some(e),
        Ok(id) => if read && access_error(fs, id, session, Access::Read, path) is Some {
            access_error(fs, id, session, Access::Read, path)
        } else if exec && access_error(fs, id, session, Access::Execute, path) is Some {
            access_error(fs, id, session, Access::Execute, path)
        } else {
            None
        },
    }
}

fn check_path(fs: &VirtualFs, path: &str, session: &Session, read: bool, exec: bool) -> (r: Result<(), VfsError>)
    requires
        fs.wf(),
    ensures
        match path_checks(fs, path@, session, read, exec) {
            None => r is Ok,
            Some(e) => r is Err && r->Err_0@ == e,
        },
{
    let id = fs.resolve_path_checked(path, session)?;
    if read {
        require_access(fs, id, session, Access::Read, path)?;
    }
    if exec {
        require_access(fs, id, session, Access::Execute, path)?;
    }
    Ok(())
}

/// `tree [path]`: the tree below a directory that the session may read
/// and enter, showing what it may read.
fn cmd_tree(fs: &VirtualFs, args: &Vec<String>, session: &Session) -> (r: Result<String, VfsError>)
    requires
        fs.wf(),
    ensures
        args@.len() > 0 && path_checks(fs, args@[0]@, session, true, true) is Some ==> r is Err && r->Err_0@
            == path_checks(fs, args@[0]@, session, true, true)->0,
        args@.len() == 0 || path_checks(fs, args@[0]@, session, true, true) is None ==> ({
            let target = if args@.len() > 0 {
                fs.resolve(args@[0]@)
            } else {
                Ok(fs.cwd())
            };
            match target {
                Err(e) => r is Err && r->Err_0@ == e,
                Ok(id) => match fs.tree_text(id, Seq::empty(), Some(session), fs.inodes().dom().len()) {
                    Err(e) => r is Err && r->Err_0@ == e,
                    Ok(t) => r is Ok && r->Ok_0@ == ".\n"@ + t,
                },
            }
        }),
{
    let path: Option<&str> = if args.len() > 0 {
        Some(args[0].as_str())
    } else {
        None
    };
    if let Some(p) = path {
        check_path(fs, p, session, true, true)?;
    }
    let no_prefix = String::new();
    fs.tree(path, no_prefix.as_str(), Some(session))
}


/// The path and the pattern of `find` from its arguments from position `i`
/// on: `-name P` gives the pattern; the first other argument is the path.
pub open spec fn find_scan(args: Seq<Seq<char>>, i: int, path: Option<int>, pat: Option<int>) -> (
    Option<int>,
    Option<int>,
)
    decreases args.len() - i,
{
    if i < 0 || i >= args.len() {
        (path, pat)
    } else if args[i] == "-name"@ {
        if i + 1 < args.len() {
            find_scan(args, i + 2, path, Some(i + 1))
        } else {
            (path, pat)
        }
    } else {
        find_scan(
            args,
            i + 1,
            if path is None {
                Some(i)
            } else {
                path
            },
            pat,
        )
    }
}

/// The argument at an optional position.
pub open spec fn arg_at(args: Seq<Seq<char>>, i: Option<int>) -> Option<Seq<char>> {
    match i {
        Some(k) => Some(args[k]),
        None => None,
    }
}

/// Lines, each followed by a newline.
pub open spec fn lines_text(ls: Seq<Seq<char>>) -> Seq<char> {
    if ls.len() == 0 {
        Seq::empty()
    } else {
        join_with(ls, "\n"@) + "\n"@
    }
}

/// `find [path] [-name pattern]`: the paths below a directory that the
/// session may read and enter, one per line.
fn cmd_find(fs: &VirtualFs, args: &Vec<String>, session: &Session) -> (r: Result<String, VfsError>)
    requires
        fs.wf(),
    ensures
        ({
            let (pi, qi) = find_scan(texts(args@), 0, None, None);
            let path = arg_at(texts(args@), pi);
            let pattern = arg_at(texts(args@), qi);
            match path {
                Some(p) if path_checks(fs, p, session, true, true) is Some => r is Err && r->Err_0@
                    == path_checks(fs, p, session, true, true)->0,
                _ => match fs.find_result(path, pattern, Some(session)) {
                    Err(e) => r is Err && r->Err_0@ == e,
                    Ok(rows) => r is Ok && r->Ok_0@ == lines_text(rows),
                },
            }
        }),
{
    let ghost ts = texts(args@);
    let mut path_i: Option<usize> = None;
    let mut pat_i: Option<usize> = None;
    let mut i: usize = 0;
    proof {
        reveal_strlit("-name");
    }
    while i < args.len()
        invariant
            ts == texts(args@),
            find_scan(ts, i as int, opt_index(path_i), opt_index(pat_i)) == find_scan(ts, 0, None, None),
            path_i matches Some(k) ==> k < args@.len(),
            pat_i matches Some(k) ==> k < args@.len(),
            i <= args@.len(),
        decreases args.len() - i,
    {
        proof {
            assert(ts[i as int] == args@[i as int]@);
        }
        if str_eq(args[i].as_str(), "-name") {
            if i + 1 < args.len() {
                pat_i = Some(i + 1);
                i += 2;
            } else {
                i = args.len();
            }
        } else {
            if path_i.is_none() {
                path_i = Some(i);
            }
            i += 1;
        }
    }
    let path: Option<&str> = match path_i {
        Some(k) => Some(args[k].as_str()),
        None => None,
    };
    let pattern: Option<&str> = match pat_i {
        Some(k) => Some(args[k].as_str()),
        None => None,
    };
    proof {
        assert(crate::fs::search::opt_text(path) == arg_at(ts, opt_index(path_i)));
        assert(crate::fs::search::opt_text(pattern) == arg_at(ts, opt_index(pat_i)));
    }
    if let Some(p) = path {
        check_path(fs, p, session, true, true)?;
    }
    let results = fs.find(path, pattern, Some(session))?;
    let mut out = join_strings(results.as_slice(), "\n");
    if results.len() > 0 {
        push_str(&mut out, "\n");
    }
    proof {
        assert(results@.map_values(|s: String| s@) =~= results.deep_view());
    }
    Ok(out)
}

/// A position as an integer.
pub open spec fn opt_index(i: Option<usize>) -> Option<int> {
    match i {
        Some(k) => Some(k as int),
        None => None,
    }
}

/// The flags, the pattern and the path of `grep` from its first `k`
/// arguments: `-r` or `-R` asks for recursion; the first other argument
/// is the pattern and the second the path.
pub open spec fn grep_args(args: Seq<Seq<char>>, k: nat) -> (bool, Option<int>, Option<int>)
    decreases k,
{
    if k == 0 || k > args.len() {
        (false, None, None)
    } else {
        let (rec, pat, path) = grep_args(args, (k - 1) as nat);
        let a = args[k - 1];
        if a == "-r"@ || a == "-R"@ {
            (true, pat, path)
        } else if pat is None {
            (rec, Some(k - 1), path)
        } else if path is None {
            (rec, pat, Some(k - 1))
        } else {
            (rec, pat, path)
        }
    }
}

/// The lines of a text that a regular expression matches, each followed by
/// a newline.
pub open spec fn matching_text(pattern: Seq<char>, lines: Seq<Seq<char>>) -> Seq<char>
    decreases lines.len(),
{
    if lines.len() == 0 {
        Seq::empty()
    } else {
        matching_text(pattern, lines.drop_last()) + if regex_matches(pattern, lines.last()) {
            lines.last() + "\n"@
        } else {
            Seq::empty()
        }
    }
}

/// The output of `grep` for its matches: `file:line:text` per match.
pub open spec fn grep_text(rows: Seq<(Seq<char>, int, Seq<char>)>) -> Seq<char>
    decreases rows.len(),
{
    if rows.len() == 0 {
        Seq::empty()
    } else {
        let (f, n, l) = rows.last();
        grep_text(rows.drop_last()) + f + ":"@ + decimal(n as nat) + ":"@ + l + "\n"@
    }
}

/// `grep [-r] <pattern> [path]`: the lines that match, in a file or below
/// a directory; on piped input, the input lines that match.
fn cmd_grep(fs: &VirtualFs, args: &Vec<String>, stdin: Option<&str>, session: &Session) -> (r: Result<
    String,
    VfsError,
>)
    requires
        fs.wf(),
    ensures
        match stdin {
            Some(input) => if args@.len() == 0 {
                r is Err && r->Err_0@ == ErrorView::InvalidArgs("grep: missing pattern"@)
            } else {
                match regex_compiled(args@[0]@) {
                    Err(msg) => r is Err && r->Err_0@ == ErrorView::InvalidArgs("invalid regex: "@ + msg),
                    Ok(_) => r is Ok && r->Ok_0@ == matching_text(args@[0]@, lines_of(input@)),
                }
            },
            None => {
                let (rec, pi, qi) = grep_args(texts(args@), args@.len());
                match pi {
                    None => r is Err && r->Err_0@ == ErrorView::InvalidArgs("grep: missing pattern"@),
                    Some(p) => match arg_at(texts(args@), qi) {
                        Some(path) if path_checks(fs, path, session, true, false) is Some => r is Err
                            && r->Err_0@ == path_checks(fs, path, session, true, false)->0,
                        _ => match fs.grep_result(args@[p]@, arg_at(texts(args@), qi), rec, Some(session)) {
                            Err(e) => r is Err && r->Err_0@ == e,
                            Ok(rows) => r is Ok && r->Ok_0@ == grep_text(rows),
                        },
                    },
                }
            },
        },
{
    if let Some(input) = stdin {
        if args.len() == 0 {
            return Err(VfsError::InvalidArgs { message: owned("grep: missing pattern") });
        }
        let re = match compile(args[0].as_str()) {
            Ok(p) => p,
            Err(msg) => {
                let mut message = owned("invalid regex: ");
                push_str(&mut message, msg.as_str());
                return Err(VfsError::InvalidArgs { message });
            },
        };
        let lines = split_lines(input);
        let ghost ls = lines.deep_view();
        let mut output = String::new();
        let mut i: usize = 0;
        proof {
            assert(ls.take(0) =~= Seq::<Seq<char>>::empty());
        }
        while i < lines.len()
            invariant
                i <= ls.len(),
                ls == lines.deep_view(),
                re@ == args@[0]@,
                output@ == matching_text(args@[0]@, ls.take(i as int)),
            decreases lines.len() - i,
        {
            proof {
                assert(ls.take(i + 1).drop_last() =~= ls.take(i as int));
                assert(ls.take(i + 1).last() == lines@[i as int]@);
            }
            if re.is_match(lines[i].as_str()) {
                push_str(&mut output, lines[i].as_str());
                push_str(&mut output, "\n");
            }
            proof {
                assert(output@ =~= matching_text(args@[0]@, ls.take(i + 1)));
            }
            i += 1;
        }
        proof {
            assert(ls.take(ls.len() as int) =~= ls);
        }
        return Ok(output);
    }
    let ghost ts = texts(args@);
    let mut recursive = false;
    let mut pat_i: Option<usize> = None;
    let mut path_i: Option<usize> = None;
    let mut i: usize = 0;
    proof {
        reveal_strlit("-r");
        reveal_strlit("-R");
    }
    while i < args.len()
        invariant
            ts == texts(args@),
            i <= args@.len(),
            grep_args(ts, i as nat) == (recursive, opt_index(pat_i), opt_index(path_i)),
            pat_i matches Some(k) ==> k < i,
            path_i matches Some(k) ==> k < i,
        decreases args.len() - i,
    {
        let a = args[i].as_str();
        proof {
            assert(ts[i as int] == a@);
        }
        if str_eq(a, "-r") || str_eq(a, "-R") {
            recursive = true;
        } else if pat_i.is_none() {
            pat_i = Some(i);
        } else if path_i.is_none() {
            path_i = Some(i);
        }
        i += 1;
    }
    let p = match pat_i {
        Some(k) => k,
        None => {
            return Err(VfsError::InvalidArgs { message: owned("grep: missing pattern") });
        },
    };
    let path: Option<&str> = match path_i {
        Some(k) => Some(args[k].as_str()),
        None => None,
    };
    proof {
        assert(crate::fs::search::opt_text(path) == arg_at(ts, opt_index(path_i)));
    }
    if let Some(q) = path {
        check_path(fs, q, session, true, false)?;
    }
    let results = fs.grep(args[p].as_str(), path, recursive, Some(session))?;
    let ghost rows = results@.map_values(|g: GrepResult| row_of(g));
    let mut output = String::new();
    let mut k: usize = 0;
    proof {
        assert(rows.take(0) =~= Seq::<(Seq<char>, int, Seq<char>)>::empty());
    }
    while k < results.len()
        invariant
            k <= results@.len(),
            rows == results@.map_values(|g: GrepResult| row_of(g)),
            output@ == grep_text(rows.take(k as int)),
        decreases results.len() - k,
    {
        let g = &results[k];
        push_str(&mut output, g.file.as_str());
        push_str(&mut output, ":");
        push_decimal(&mut output, g.line_num as u64);
        push_str(&mut output, ":");
        push_str(&mut output, g.line.as_str());
        push_str(&mut output, "\n");
        proof {
            assert(rows.take(k + 1).drop_last() =~= rows.take(k as int));
            assert(rows.take(k + 1).last() == row_of(*g));
            assert(output@ =~= grep_text(rows.take(k + 1)));
        }
        k += 1;
    }
    proof {
        assert(rows.take(rows.len() as int) =~= rows);
    }
    Ok(output)
}



// ───── Changing commands ─────

/// Refuses to go on when inode ids have run out.
pub(crate) fn require_ids(fs: &VirtualFs) -> (r: Result<(), VfsError>)
    ensures
        r is Ok <==> fs.next_id() < u64::MAX,
        r is Err ==> r->Err_0@ == ErrorView::NotSupported("inode ids exhausted"@),
{
    if fs.next_inode_id() == u64::MAX {
        return Err(VfsError::NotSupported { message: owned("inode ids exhausted") });
    }
    Ok(())
}

/// Why the session may not write in and enter the parent of `path`, if
/// it may not.
pub open spec fn parent_wx_error(fs: &VirtualFs, path: Seq<char>, session: &Session) -> Option<ErrorView> {
    match parent_checked(fs, path, session) {
        Err(e) => Some(e),
        Ok(p) => match access_error(fs, p, session, Access::Write, path) {
            Some(e) => Some(e),
            None => access_error(fs, p, session, Access::Execute, path),
        },
    }
}

/// Checks Write and Execute on the parent of `path`.
fn require_parent_wx(fs: &VirtualFs, path: &str, session: &Session) -> (r: Result<(), VfsError>)
    requires
        fs.wf(),
    ensures
        match parent_checked(fs, path@, session) {
            Err(e) => r is Err && r->Err_0@ == e,
            Ok(p) => match access_error(fs, p, session, Access::Write, path@) {
                Some(e) => r is Err && r->Err_0@ == e,
                None => match access_error(fs, p, session, Access::Execute, path@) {
                    Some(e) => r is Err && r->Err_0@ == e,
                    None => r is Ok,
                },
            },
        },
        match parent_wx_error(fs, path@, session) {
            Some(e) => r is Err && r->Err_0@ == e,
            None => r is Ok,
        },
{
    let parent_id = parent_of_checked(fs, path, session)?;
    require_access(fs, parent_id, session, Access::Write, path)?;
    require_access(fs, parent_id, session, Access::Execute, path)?;
    Ok(())
}

/// The commands that act on their operands one after the other.
#[derive(PartialEq, Eq, Structural, Clone, Copy)]
pub enum EachOp {
    Touch,
    Mkdir,
    MkdirP,
    Rm,
    RmR,
    Rmdir,
}

/// A command's result with its output dropped and its error by its view.
pub open spec fn unit_view(r: Result<String, VfsError>) -> Result<(), ErrorView> {
    match r {
        Ok(_) => Ok(()),
        Err(e) => Err(e@),
    }
}

/// What the turn of operand `p` does, from file system `fs0` to `fs1`, with
/// result `r`: the refusal the session gets, the exhausted ids, or what the
/// file system's operation does for the session's effective owner and group.
pub open spec fn op_step(op: EachOp, fs0: &VirtualFs, fs1: &VirtualFs, p: Seq<char>, session: &Session, r: Result<
    (),
    ErrorView,
>) -> bool {
    let uid = session.spec_effective_uid();
    let gid = session.spec_effective_gid();
    let exhausted = r == Err::<(), ErrorView>(ErrorView::NotSupported("inode ids exhausted"@)) && *fs1 == *fs0;
    match op {
        EachOp::Touch => match touch_error(fs0, p, session) {
            Some(e) => r == Err::<(), ErrorView>(e) && *fs1 == *fs0,
            None => if fs0.next_id() < u64::MAX {
                VirtualFs::touch_done(fs0, fs1, p, uid, gid, r)
            } else {
                exhausted
            },
        },
        EachOp::Mkdir => match parent_wx_error(fs0, p, session) {
            Some(e) => r == Err::<(), ErrorView>(e) && *fs1 == *fs0,
            None => if fs0.next_id() < u64::MAX {
                VirtualFs::mkdir_done(fs0, fs1, p, uid, gid, r)
            } else {
                exhausted
            },
        },
        EachOp::MkdirP => {
            &&& fs1.wf()
            &&& fs1.grew_dirs(fs0, uid)
            &&& crate::fs::growth::no_up(components(p)) ==> (r is Ok <==> fs0.mkdir_p_ok(fs0.start(p), components(p)))
            &&& r is Ok && crate::fs::growth::no_up(components(p)) ==> fs1.resolve(p) is Ok
        },
        EachOp::Rm => match remove_error(fs0, p, session) {
            Some(e) => r == Err::<(), ErrorView>(e) && *fs1 == *fs0,
            None => VirtualFs::rm_done(fs0, fs1, p, r),
        },
        EachOp::RmR => match remove_error(fs0, p, session) {
            Some(e) => r == Err::<(), ErrorView>(e) && *fs1 == *fs0,
            None => VirtualFs::rm_rf_done(fs0, fs1, p, r),
        },
        EachOp::Rmdir => match parent_wx_error(fs0, p, session) {
            Some(e) => r == Err::<(), ErrorView>(e) && *fs1 == *fs0,
            None => VirtualFs::rmdir_done(fs0, fs1, p, r),
        },
    }
}

/// The turn of operand `k - 1` of `ps`, after the turns before it left file
/// system `fm` and result `rm`: an error before ends the run.
pub open spec fn each_step(
    op: EachOp,
    ps: Seq<Seq<char>>,
    session: Session,
    k: nat,
    fm: VirtualFs,
    rm: Result<(), ErrorView>,
    fs1: VirtualFs,
    res: Result<(), ErrorView>,
) -> bool {
    match rm {
        Err(_) => fs1 == fm && res == rm,
        Ok(_) => op_step(op, &fm, &fs1, ps[k - 1], &session, res),
    }
}

/// The state after the first `k` operands of `ps` had their turn, from file
/// system `fs0`: each in order, until one fails.
pub open spec fn each_done(
    op: EachOp,
    fs0: VirtualFs,
    ps: Seq<Seq<char>>,
    session: Session,
    k: nat,
    fs1: VirtualFs,
    res: Result<(), ErrorView>,
) -> bool
    decreases k,
{
    if k == 0 {
        fs1 == fs0 && res is Ok
    } else {
        exists|fm: VirtualFs, rm: Result<(), ErrorView>|
            each_done(op, fs0, ps, session, (k - 1) as nat, fm, rm) && #[trigger] each_step(
                op,
                ps,
                session,
                k,
                fm,
                rm,
                fs1,
                res,
            )
    }
}

/// One more turn extends a run over the operands.
proof fn lemma_each_step(
    op: EachOp,
    fs0: VirtualFs,
    ps: Seq<Seq<char>>,
    session: Session,
    k: nat,
    fm: VirtualFs,
    rm: Result<(), ErrorView>,
    fs1: VirtualFs,
    res: Result<(), ErrorView>,
)
    requires
        each_done(op, fs0, ps, session, k, fm, rm),
        each_step(op, ps, session, k + 1, fm, rm, fs1, res),
    ensures
        each_done(op, fs0, ps, session, k + 1, fs1, res),
{
    let k1: nat = k + 1;
    assert((k1 - 1) as nat == k);
    assert(each_step(op, ps, session, k1, fm, rm, fs1, res));
}

/// A run that failed keeps its state through the operands left.
proof fn lemma_each_carry(
    op: EachOp,
    fs0: VirtualFs,
    ps: Seq<Seq<char>>,
    session: Session,
    k: nat,
    n: nat,
    fs1: VirtualFs,
    res: Result<(), ErrorView>,
)
    requires
        each_done(op, fs0, ps, session, k, fs1, res),
        k <= n,
        res is Err,
    ensures
        each_done(op, fs0, ps, session, n, fs1, res),
    decreases n - k,
{
    if k < n {
        lemma_each_step(op, fs0, ps, session, k, fs1, res, fs1, res);
        lemma_each_carry(op, fs0, ps, session, (k + 1) as nat, n, fs1, res);
    }
}

/// Touches one operand, once the session may.
fn touch_operand(fs: &mut VirtualFs, arg: &str, session: &Session) -> (r: Result<(), VfsError>)
    requires
        old(fs).wf(),
    ensures
        final(fs).wf(),
        op_step(EachOp::Touch, old(fs), final(fs), arg@, session, res_view(r)),
{
    if fs.resolve_path(arg).is_ok() {
        let id = fs.resolve_path_checked(arg, session)?;
        require_access(fs, id, session, Access::Write, arg)?;
    } else {
        require_parent_wx(fs, arg, session)?;
    }
    require_ids(fs)?;
    fs.touch(arg, session.effective_uid(), session.effective_gid())
}

/// Removes one empty directory, once the session may.
fn rmdir_operand(fs: &mut VirtualFs, path: &str, session: &Session) -> (r: Result<(), VfsError>)
    requires
        old(fs).wf(),
    ensures
        final(fs).wf(),
        op_step(EachOp::Rmdir, old(fs), final(fs), path@, session, res_view(r)),
{
    require_parent_wx(fs, path, session)?;
    fs.rmdir(path)
}

/// The operands of `rm`: its arguments without the recursive flags.
pub open spec fn rm_operands(args: Seq<Seq<char>>) -> Seq<Seq<char>>
    decreases args.len(),
{
    if args.len() == 0 {
        Seq::empty()
    } else {
        let rest = rm_operands(args.drop_last());
        if is_rm_flag(args.last()) {
            rest
        } else {
            rest.push(args.last())
        }
    }
}

/// What `rm` does to each operand: with a recursive flag anywhere among
/// the arguments, the whole tree below it.
pub open spec fn rm_op(args: Seq<Seq<char>>) -> EachOp {
    if exists|j: int| 0 <= j < args.len() && #[trigger] is_rm_flag(args[j]) {
        EachOp::RmR
    } else {
        EachOp::Rm
    }
}

/// What `mkdir` does to each operand: with `-p` anywhere among the
/// arguments, it makes the missing parents too.
pub open spec fn mkdir_op(args: Seq<Seq<char>>) -> EachOp {
    if args.contains("-p"@) {
        EachOp::MkdirP
    } else {
        EachOp::Mkdir
    }
}

/// Removes one operand (with the tree below it when `recursive`), once the
/// session may.
fn rm_operand(fs: &mut VirtualFs, path: &str, recursive: bool, session: &Session) -> (r: Result<(), VfsError>)
    requires
        old(fs).wf(),
    ensures
        final(fs).wf(),
        op_step(
            if recursive {
                EachOp::RmR
            } else {
                EachOp::Rm
            },
            old(fs),
            final(fs),
            path@,
            session,
            res_view(r),
        ),
{
    let parent_id = parent_of_checked(fs, path, session)?;
    require_access(fs, parent_id, session, Access::Write, path)?;
    require_access(fs, parent_id, session, Access::Execute, path)?;
    sticky_check(fs, parent_id, path, session)?;
    if recursive {
        fs.rm_rf(path)
    } else {
        fs.rm(path)
    }
}

/// Makes one directory (with its missing parents when `parents`), once the
/// session may.
fn mkdir_operand(fs: &mut VirtualFs, path: &str, parents: bool, session: &Session) -> (r: Result<(), VfsError>)
    requires
        old(fs).wf(),
    ensures
        final(fs).wf(),
        op_step(
            if parents {
                EachOp::MkdirP
            } else {
                EachOp::Mkdir
            },
            old(fs),
            final(fs),
            path@,
            session,
            res_view(r),
        ),
{
    if parents {
        fs.mkdir_p(path, session.effective_uid(), session.effective_gid())
    } else {
        require_parent_wx(fs, path, session)?;
        require_ids(fs)?;
        fs.mkdir(path, session.effective_uid(), session.effective_gid())
    }
}

/// `mkdir [-p] <path>...`: makes each directory, once the session may
/// write in and enter its parent; with `-p`, every missing directory on
/// the way.
fn cmd_mkdir(fs: &mut VirtualFs, args: &Vec<String>, session: &Session) -> (r: Result<String, VfsError>)
    requires
        old(fs).wf(),
    ensures
        final(fs).wf(),
        (forall|i: int| 0 <= i < args@.len() ==> args@[i]@ == "-p"@) ==> r is Err && r->Err_0@
            == ErrorView::InvalidArgs("mkdir: missing operand"@) && *final(fs) == *old(fs),
        r is Ok ==> r->Ok_0@.len() == 0,
        !(forall|i: int| 0 <= i < args@.len() ==> args@[i]@ == "-p"@) ==> {
            let ps = non_flags(texts(args@), "-p"@);
            each_done(mkdir_op(texts(args@)), *old(fs), ps, *session, ps.len(), *final(fs), unit_view(r))
        },
{
    let ghost all = texts(args@);
    let mut parents = false;
    let mut paths: Vec<&str> = Vec::new();
    let mut i: usize = 0;
    while i < args.len()
        invariant
            i <= args@.len(),
            all == texts(args@),
            paths@.len() == 0 <==> forall|j: int| 0 <= j < i ==> args@[j]@ == "-p"@,
            paths@.len() == non_flags(all.take(i as int), "-p"@).len(),
            forall|j: int| 0 <= j < paths@.len() ==> #[trigger] paths@[j]@ == non_flags(all.take(i as int), "-p"@)[j],
            parents <==> all.take(i as int).contains("-p"@),
        decreases args.len() - i,
    {
        proof {
            assert(all.take(i + 1).drop_last() =~= all.take(i as int));
            assert(all.take(i + 1).last() == args@[i as int]@);
        }
        if str_eq(args[i].as_str(), "-p") {
            parents = true;
            proof {
                assert(all.take(i + 1)[i as int] == "-p"@);
            }
        } else {
            paths.push(args[i].as_str());
        }
        proof {
            if !all.take(i as int).contains("-p"@) && args@[i as int]@ != "-p"@ {
                assert forall|j: int| 0 <= j < i + 1 implies #[trigger] all.take(i + 1)[j] != "-p"@ by {
                    if j < i {
                        assert(all.take(i + 1)[j] == all.take(i as int)[j]);
                    }
                }
            }
            if all.take(i as int).contains("-p"@) {
                let j = choose|j: int| 0 <= j < i && all.take(i as int)[j] == "-p"@;
                assert(all.take(i + 1)[j] == "-p"@);
            }
        }
        i += 1;
    }
    if paths.len() == 0 {
        return Err(VfsError::InvalidArgs { message: owned("mkdir: missing operand") });
    }
    let ghost ps = non_flags(all, "-p"@);
    let ghost op = mkdir_op(all);
    proof {
        assert(all.take(args@.len() as int) =~= all);
    }
    let mut k: usize = 0;
    while k < paths.len()
        invariant
            fs.wf(),
            k <= paths@.len(),
            !(forall|j: int| 0 <= j < args@.len() ==> args@[j]@ == "-p"@),
            ps == non_flags(texts(args@), "-p"@),
            op == mkdir_op(texts(args@)),
            paths@.len() == ps.len(),
            forall|j: int| 0 <= j < paths@.len() ==> #[trigger] paths@[j]@ == ps[j],
            op == (if parents {
                EachOp::MkdirP
            } else {
                EachOp::Mkdir
            }),
            each_done(op, *old(fs), ps, *session, k as nat, *fs, Ok(())),
        decreases paths.len() - k,
    {
        let ghost before = *fs;
        let path = paths[k];
        let res = mkdir_operand(fs, path, parents, session);
        proof {
            assert(ps[k as int] == path@);
            lemma_each_step(op, *old(fs), ps, *session, k as nat, before, Ok(()), *fs, res_view(res));
        }
        if let Err(e) = res {
            proof {
                lemma_each_carry(op, *old(fs), ps, *session, (k + 1) as nat, ps.len(), *fs, Err(e@));
            }
            return Err(e);
        }
        k += 1;
    }
    Ok(String::new())
}

/// `touch <path>...`: updates each existing file's time (the session must
/// may write it), or makes an empty file (the session may write in and
/// enter its parent).
/// Why the session may not touch `p`, if it may not: an existing entry
/// must be reachable and writable; for a new one, the parent must be
/// reachable, writable and enterable.
pub open spec fn touch_error(fs: &VirtualFs, p: Seq<char>, session: &Session) -> Option<ErrorView> {
    if fs.resolve(p) is Ok {
        match fs.resolve_checked(p, *session) {
            Err(e) => Some(e),
            Ok(id) => access_error(fs, id, session, Access::Write, p),
        }
    } else {
        parent_wx_error(fs, p, session)
    }
}

fn cmd_touch(fs: &mut VirtualFs, args: &Vec<String>, session: &Session) -> (r: Result<String, VfsError>)
    requires
        old(fs).wf(),
    ensures
        final(fs).wf(),
        args@.len() == 0 ==> r is Err && r->Err_0@ == ErrorView::InvalidArgs("touch: missing operand"@),
        r is Ok ==> r->Ok_0@.len() == 0,
        args@.len() > 0 ==> each_done(
            EachOp::Touch,
            *old(fs),
            texts(args@),
            *session,
            args@.len() as nat,
            *final(fs),
            unit_view(r),
        ),
{
    if args.len() == 0 {
        return Err(VfsError::InvalidArgs { message: owned("touch: missing operand") });
    }
    let ghost ps = texts(args@);
    let mut i: usize = 0;
    while i < args.len()
        invariant
            fs.wf(),
            i <= args@.len(),
            ps == texts(args@),
            each_done(EachOp::Touch, *old(fs), ps, *session, i as nat, *fs, Ok(())),
        decreases args.len() - i,
    {
        let ghost before = *fs;
        let arg = args[i].as_str();
        let res = touch_operand(fs, arg, session);
        proof {
            assert(ps[i as int] == arg@);
            lemma_each_step(EachOp::Touch, *old(fs), ps, *session, i as nat, before, Ok(()), *fs, res_view(res));
        }
        if let Err(e) = res {
            proof {
                lemma_each_carry(EachOp::Touch, *old(fs), ps, *session, (i + 1) as nat, args@.len() as nat, *fs, Err(e@));
            }
            return Err(e);
        }
        i += 1;
    }
    Ok(String::new())
}

/// The sticky-bit rule: in a directory with the sticky bit, only root, the
/// directory's owner or the entry's owner may remove or move the entry.
fn sticky_check(fs: &VirtualFs, parent_id: InodeId, path: &str, session: &Session) -> (r: Result<(), VfsError>)
    requires
        fs.wf(),
    ensures
        fs.inodes().contains_key(parent_id) ==> {
            let pv = fs.inodes()[parent_id];
            if pv.mode & 0o1000u16 != 0 && !session.spec_is_effectively_root() {
                match fs.resolve(path@) {
                    Err(e) => r is Err && r->Err_0@ == e,
                    Ok(f) => if !fs.inodes().contains_key(f) {
                        r is Err && r->Err_0@ == ErrorView::NotFound(label(f))
                    } else if fs.inodes()[f].uid != session.spec_effective_uid() && pv.uid
                        != session.spec_effective_uid() {
                        r is Err && r->Err_0@ == ErrorView::PermissionDenied(path@)
                    } else {
                        r is Ok
                    },
                }
            } else {
                r is Ok
            }
        },
        !fs.inodes().contains_key(parent_id) ==> r is Err && r->Err_0@ == ErrorView::NotFound(
            label(parent_id),
        ),
{
    let parent = fs.get_inode(parent_id)?;
    if has_sticky_bit(parent.mode) && !session.is_effectively_root() {
        let file_id = fs.resolve_path(path)?;
        let file_inode = fs.get_inode(file_id)?;
        let eff_uid = session.effective_uid();
        if file_inode.uid != eff_uid && parent.uid != eff_uid {
            return Err(VfsError::PermissionDenied { path: owned(path) });
        }
    }
    Ok(())
}

/// Whether an argument of `rm` is one of its recursive flags.
pub open spec fn is_rm_flag(a: Seq<char>) -> bool {
    a == "-r"@ || a == "-rf"@ || a == "-fr"@
}

/// The refusal the sticky bit of directory `pid` gives to removing or
/// moving `p`, if any.
pub open spec fn sticky_error(fs: &VirtualFs, pid: InodeId, p: Seq<char>, session: &Session) -> Option<ErrorView> {
    if !fs.inodes().contains_key(pid) {
        Some(ErrorView::NotFound(label(pid)))
    } else {
        let pv = fs.inodes()[pid];
        if pv.mode & 0o1000u16 != 0 && !session.spec_is_effectively_root() {
            match fs.resolve(p) {
                Err(e) => Some(e),
                Ok(f) => if !fs.inodes().contains_key(f) {
                    Some(ErrorView::NotFound(label(f)))
                } else if fs.inodes()[f].uid != session.spec_effective_uid() && pv.uid
                    != session.spec_effective_uid() {
                    Some(ErrorView::PermissionDenied(p))
                } else {
                    None
                },
            }
        } else {
            None
        }
    }
}

/// Why the session may not remove `p`, if it may not: its parent must be
/// reachable, writable and enterable, and the sticky bit must allow it.
pub open spec fn remove_error(fs: &VirtualFs, p: Seq<char>, session: &Session) -> Option<ErrorView> {
    match parent_checked(fs, p, session) {
        Err(e) => Some(e),
        Ok(pid) => match access_error(fs, pid, session, Access::Write, p) {
            Some(e) => Some(e),
            None => match access_error(fs, pid, session, Access::Execute, p) {
                Some(e) => Some(e),
                None => sticky_error(fs, pid, p, session),
            },
        },
    }
}

/// `rm [-r] <path>...`: removes each entry (with `-r`, the tree below it),
/// once the session may write in and enter its parent, minding the sticky
/// bit.
fn cmd_rm(fs: &mut VirtualFs, args: &Vec<String>, session: &Session) -> (r: Result<String, VfsError>)
    requires
        old(fs).wf(),
    ensures
        final(fs).wf(),
        (forall|i: int| 0 <= i < args@.len() ==> args@[i]@ == "-r"@ || args@[i]@ == "-rf"@ || args@[i]@ == "-fr"@)
            ==> r is Err && r->Err_0@ == ErrorView::InvalidArgs("rm: missing operand"@) && *final(fs) == *old(fs),
        r is Ok ==> r->Ok_0@.len() == 0,
        !(forall|i: int| 0 <= i < args@.len() ==> is_rm_flag(args@[i]@)) ==> {
            let ps = rm_operands(texts(args@));
            each_done(rm_op(texts(args@)), *old(fs), ps, *session, ps.len(), *final(fs), unit_view(r))
        },
{
    let ghost all = texts(args@);
    let mut recursive = false;
    let mut paths: Vec<&str> = Vec::new();
    let mut i: usize = 0;
    while i < args.len()
        invariant
            i <= args@.len(),
            all == texts(args@),
            paths@.len() == 0 <==> forall|j: int|
                0 <= j < i ==> args@[j]@ == "-r"@ || args@[j]@ == "-rf"@ || args@[j]@ == "-fr"@,
            paths@.len() == rm_operands(all.take(i as int)).len(),
            forall|j: int| 0 <= j < paths@.len() ==> #[trigger] paths@[j]@ == rm_operands(all.take(i as int))[j],
            recursive <==> exists|j: int| 0 <= j < i && #[trigger] is_rm_flag(all[j]),
        decreases args.len() - i,
    {
        proof {
            assert(all.take(i + 1).drop_last() =~= all.take(i as int));
            assert(all.take(i + 1).last() == args@[i as int]@);
        }
        let a = args[i].as_str();
        if str_eq(a, "-r") || str_eq(a, "-rf") || str_eq(a, "-fr") {
            recursive = true;
            proof {
                assert(is_rm_flag(all[i as int]));
            }
        } else {
            paths.push(a);
        }
        i += 1;
    }
    if paths.len() == 0 {
        return Err(VfsError::InvalidArgs { message: owned("rm: missing operand") });
    }
    let ghost ps = rm_operands(all);
    let ghost op = rm_op(all);
    proof {
        assert(all.take(args@.len() as int) =~= all);
    }
    let mut k: usize = 0;
    while k < paths.len()
        invariant
            fs.wf(),
            k <= paths@.len(),
            !(forall|j: int|
                0 <= j < args@.len() ==> args@[j]@ == "-r"@ || args@[j]@ == "-rf"@ || args@[j]@ == "-fr"@),
            ps == rm_operands(texts(args@)),
            op == rm_op(texts(args@)),
            paths@.len() == ps.len(),
            forall|j: int| 0 <= j < paths@.len() ==> #[trigger] paths@[j]@ == ps[j],
            op == (if recursive {
                EachOp::RmR
            } else {
                EachOp::Rm
            }),
            each_done(op, *old(fs), ps, *session, k as nat, *fs, Ok(())),
        decreases paths.len() - k,
    {
        let ghost before = *fs;
        let path = paths[k];
        let res = rm_operand(fs, path, recursive, session);
        proof {
            assert(ps[k as int] == path@);
            lemma_each_step(op, *old(fs), ps, *session, k as nat, before, Ok(()), *fs, res_view(res));
        }
        if let Err(e) = res {
            proof {
                lemma_each_carry(op, *old(fs), ps, *session, (k + 1) as nat, ps.len(), *fs, Err(e@));
            }
            return Err(e);
        }
        k += 1;
    }
    Ok(String::new())
}

/// `rmdir <path>...`: removes each empty directory, once the session may
/// write in and enter its parent.
fn cmd_rmdir(fs: &mut VirtualFs, args: &Vec<String>, session: &Session) -> (r: Result<String, VfsError>)
    requires
        old(fs).wf(),
    ensures
        final(fs).wf(),
        args@.len() == 0 ==> r is Err && r->Err_0@ == ErrorView::InvalidArgs("rmdir: missing operand"@),
        r is Ok ==> r->Ok_0@.len() == 0,
        args@.len() > 0 ==> each_done(
            EachOp::Rmdir,
            *old(fs),
            texts(args@),
            *session,
            args@.len() as nat,
            *final(fs),
            unit_view(r),
        ),
{
    if args.len() == 0 {
        return Err(VfsError::InvalidArgs { message: owned("rmdir: missing operand") });
    }
    let ghost ps = texts(args@);
    let mut i: usize = 0;
    while i < args.len()
        invariant
            fs.wf(),
            i <= args@.len(),
            ps == texts(args@),
            each_done(EachOp::Rmdir, *old(fs), ps, *session, i as nat, *fs, Ok(())),
        decreases args.len() - i,
    {
        let ghost before = *fs;
        let path = args[i].as_str();
        let res = rmdir_operand(fs, path, session);
        proof {
            assert(ps[i as int] == path@);
            lemma_each_step(EachOp::Rmdir, *old(fs), ps, *session, i as nat, before, Ok(()), *fs, res_view(res));
        }
        if let Err(e) = res {
            proof {
                lemma_each_carry(EachOp::Rmdir, *old(fs), ps, *session, (i + 1) as nat, args@.len() as nat, *fs, Err(e@));
            }
            return Err(e);
        }
        i += 1;
    }
    Ok(String::new())
}

/// Why the session may not move an entry to `dst`, if it may not: when
/// the destination's parent resolves, it must be writable and enterable.
pub open spec fn dst_error(fs: &VirtualFs, dst: Seq<char>, session: &Session) -> Option<ErrorView> {
    match parent_checked(fs, dst, session) {
        Err(_) => None,
        Ok(dp) => match access_error(fs, dp, session, Access::Write, dst) {
            Some(e) => Some(e),
            None => access_error(fs, dp, session, Access::Execute, dst),
        },
    }
}

/// What moving `src` to `dst` answers and does: the refusal at the source
/// (as for removing it), the refusal at the destination, or what the file
/// system's `mv` does.
pub open spec fn moved(fs0: &VirtualFs, fs1: &VirtualFs, src: Seq<char>, dst: Seq<char>, session: &Session, r: Result<
    String,
    VfsError,
>) -> bool {
    match remove_error(fs0, src, session) {
        Some(e) => r is Err && r->Err_0@ == e && *fs1 == *fs0,
        None => match dst_error(fs0, dst, session) {
            Some(e) => r is Err && r->Err_0@ == e && *fs1 == *fs0,
            None => VirtualFs::mv_done(
                fs0,
                fs1,
                src,
                dst,
                match r {
                    Ok(_) => Ok(()),
                    Err(e) => Err(e@),
                },
            ),
        },
    }
}

/// `mv <src> <dst>`: moves an entry, once the session may write in and
/// enter the source's parent (minding the sticky bit) and, when the
/// destination's parent resolves, that one too.
fn cmd_mv(fs: &mut VirtualFs, args: &Vec<String>, session: &Session) -> (r: Result<String, VfsError>)
    requires
        old(fs).wf(),
    ensures
        final(fs).wf(),
        args@.len() < 2 ==> r is Err && r->Err_0@ == ErrorView::InvalidArgs("mv: need source and destination"@)
            && *final(fs) == *old(fs),
        r is Ok ==> r->Ok_0@.len() == 0 && final(fs).inodes().dom() == old(fs).inodes().dom(),
        args@.len() >= 2 ==> moved(old(fs), final(fs), args@[0]@, args@[1]@, session, r),
{
    if args.len() < 2 {
        return Err(VfsError::InvalidArgs { message: owned("mv: need source and destination") });
    }
    let src = args[0].as_str();
    let dst = args[1].as_str();
    let src_parent = parent_of_checked(fs, src, session)?;
    require_access(fs, src_parent, session, Access::Write, src)?;
    require_access(fs, src_parent, session, Access::Execute, src)?;
    sticky_check(fs, src_parent, src, session)?;
    if let Ok(dst_parent) = parent_of_checked(fs, dst, session) {
        require_access(fs, dst_parent, session, Access::Write, dst)?;
        require_access(fs, dst_parent, session, Access::Execute, dst)?;
    }
    fs.mv(src, dst)?;
    Ok(String::new())
}

/// What copying `src` to `dst` answers and does: the refusal to read the
/// source, the refusal at the destination, the exhausted ids, or what the
/// file system's `cp` does for the session's effective owner and group.
pub open spec fn copied(fs0: &VirtualFs, fs1: &VirtualFs, src: Seq<char>, dst: Seq<char>, session: &Session, r: Result<
    String,
    VfsError,
>) -> bool {
    match fs0.resolve_checked(src, *session) {
        Err(e) => r is Err && r->Err_0@ == e && *fs1 == *fs0,
        Ok(sid) => match access_error(fs0, sid, session, Access::Read, src) {
            Some(e) => r is Err && r->Err_0@ == e && *fs1 == *fs0,
            None => match dst_error(fs0, dst, session) {
                Some(e) => r is Err && r->Err_0@ == e && *fs1 == *fs0,
                None => if fs0.next_id() < u64::MAX {
                    VirtualFs::cp_done(
                        fs0,
                        fs1,
                        src,
                        dst,
                        session.spec_effective_uid(),
                        session.spec_effective_gid(),
                        match r {
                            Ok(_) => Ok(()),
                            Err(e) => Err(e@),
                        },
                    )
                } else {
                    r is Err && r->Err_0@ == ErrorView::NotSupported("inode ids exhausted"@) && *fs1 == *fs0
                },
            },
        },
    }
}

/// `cp <src> <dst>`: copies a file or link, once the session may read the
/// source and, when the destination's parent resolves, write in and enter
/// it. The copy is owned by the session's effective user.
fn cmd_cp(fs: &mut VirtualFs, args: &Vec<String>, session: &Session) -> (r: Result<String, VfsError>)
    requires
        old(fs).wf(),
    ensures
        final(fs).wf(),
        args@.len() < 2 ==> r is Err && r->Err_0@ == ErrorView::InvalidArgs("cp: need source and destination"@)
            && *final(fs) == *old(fs),
        r is Ok ==> r->Ok_0@.len() == 0,
        args@.len() >= 2 ==> copied(old(fs), final(fs), args@[0]@, args@[1]@, session, r),
{
    if args.len() < 2 {
        return Err(VfsError::InvalidArgs { message: owned("cp: need source and destination") });
    }
    let src = args[0].as_str();
    let dst = args[1].as_str();
    let src_id = fs.resolve_path_checked(src, session)?;
    require_access(fs, src_id, session, Access::Read, src)?;
    if let Ok(dst_parent) = parent_of_checked(fs, dst, session) {
        require_access(fs, dst_parent, session, Access::Write, dst)?;
        require_access(fs, dst_parent, session, Access::Execute, dst)?;
    }
    require_ids(fs)?;
    fs.cp(src, dst, session.effective_uid(), session.effective_gid())?;
    Ok(String::new())
}

/// `chmod <mode> <path>`: sets the mode (octal) of an inode that the
/// session's effective user owns (or root).
fn cmd_chmod(fs: &mut VirtualFs, args: &Vec<String>, session: &Session) -> (r: Result<String, VfsError>)
    requires
        old(fs).wf(),
    ensures
        final(fs).wf(),
        args@.len() < 2 ==> r is Err && r->Err_0@ == ErrorView::InvalidArgs("chmod: need mode and file"@)
            && *final(fs) == *old(fs),
        args@.len() >= 2 ==> {
            let mode = unsigned_value(args@[0]@, 8);
            if mode is None || mode->0 > u16::MAX {
                r is Err && r->Err_0@ == ErrorView::InvalidArgs("chmod: invalid mode: "@ + args@[0]@)
                    && *final(fs) == *old(fs)
            } else {
                match old(fs).resolve_checked(args@[1]@, *session) {
                    Err(e) => r is Err && r->Err_0@ == e && *final(fs) == *old(fs),
                    Ok(id) => if !old(fs).inodes().contains_key(id) {
                        r is Err && r->Err_0@ == ErrorView::NotFound(label(id)) && *final(fs) == *old(fs)
                    } else if !session.spec_is_effective_owner(old(fs).inodes()[id].uid) {
                        r is Err && r->Err_0@ == ErrorView::PermissionDenied(args@[1]@) && *final(fs)
                            == *old(fs)
                    } else {
                        match old(fs).resolve(args@[1]@) {
                            Err(e) => r is Err && r->Err_0@ == e,
                            Ok(t) => if !old(fs).inodes().contains_key(t) {
                                r is Err && r->Err_0@ == ErrorView::NotFound(label(t))
                            } else {
                                r is Ok && r->Ok_0@.len() == 0 && final(fs).inodes() == old(fs).inodes().insert(
                                    t,
                                    crate::fs::inode::InodeView { mode: mode->0 as u16, ..old(fs).inodes()[t] },
                                )
                            },
                        }
                    }
                }
            }
        },
{
    if args.len() < 2 {
        return Err(VfsError::InvalidArgs { message: owned("chmod: need mode and file") });
    }
    let mode = match crate::text::parse_unsigned(args[0].as_str(), 8, 0xffff) {
        Some(m) => m as u16,
        None => {
            let mut message = owned("chmod: invalid mode: ");
            push_str(&mut message, args[0].as_str());
            return Err(VfsError::InvalidArgs { message });
        },
    };
    let path = args[1].as_str();
    let id = fs.resolve_path_checked(path, session)?;
    let inode = fs.get_inode(id)?;
    if !session.is_effective_owner(inode.uid) {
        return Err(VfsError::PermissionDenied { path: owned(path) });
    }
    fs.chmod(path, mode)?;
    Ok(String::new())
}


/// Where the first ':' of a text is.
fn find_colon(s: &str) -> (r: Option<usize>)
    ensures
        match r {
            Some(i) => i < s@.len() && s@[i as int] == ':' && forall|j: int| 0 <= j < i ==> s@[j] != ':',
            None => forall|j: int| 0 <= j < s@.len() ==> s@[j] != ':',
        },
{
    let chars = to_chars(s);
    let mut i: usize = 0;
    while i < chars.len()
        invariant
            i <= chars@.len(),
            chars@ == s@,
            forall|j: int| 0 <= j < i ==> chars@[j] != ':',
        decreases chars.len() - i,
    {
        if chars[i] == ':' {
            return Some(i);
        }
        i += 1;
    }
    None
}

/// The first position of ':' in a text.
pub open spec fn first_colon(s: Seq<char>) -> Option<int> {
    if exists|i: int| 0 <= i < s.len() && s[i] == ':' && forall|j: int| 0 <= j < i ==> s[j] != ':' {
        Some(choose|i: int| 0 <= i < s.len() && s[i] == ':' && forall|j: int| 0 <= j < i ==> s[j] != ':')
    } else {
        None
    }
}

/// The owner named in `owner[:group]`.
pub open spec fn owner_part(s: Seq<char>) -> Seq<char> {
    match first_colon(s) {
        Some(i) => s.take(i),
        None => s,
    }
}

/// The group named in `owner[:group]`, if there is a colon.
pub open spec fn group_part(s: Seq<char>) -> Option<Seq<char>> {
    match first_colon(s) {
        Some(i) => Some(s.skip(i + 1)),
        None => None,
    }
}

/// The new owner that `chown` gives, if one is named: only root may name
/// one, and it must exist.
pub open spec fn chown_owner(reg: UserRegistry, session: Session, user: Seq<char>, path: Seq<char>) -> Result<
    Option<Uid>,
    ErrorView,
> {
    if user.len() == 0 {
        Ok(None)
    } else if !session.spec_is_effectively_root() {
        Err(ErrorView::PermissionDenied(path))
    } else if !reg.uid_index().contains_key(user) {
        Err(ErrorView::AuthError("no such user: "@ + user))
    } else {
        Ok(Some(reg.uid_index()[user]))
    }
}

/// The new group that `chown` gives, if one is named: it must exist, and
/// unless the session is effectively root, the session must be the
/// effective owner of the file (whose owner is `owner`) and be, with its
/// delegate, in the group.
pub open spec fn chown_group(reg: UserRegistry, session: Session, group: Option<Seq<char>>, owner: Uid, path: Seq<char>) -> Result<
    Option<Gid>,
    ErrorView,
> {
    match group {
        None => Ok(None),
        Some(g) => if g.len() == 0 {
            Ok(None)
        } else if !reg.gid_index().contains_key(g) {
            Err(ErrorView::AuthError("no such group: "@ + g))
        } else {
            let gid = reg.gid_index()[g];
            if !session.spec_is_effectively_root() && (!session.spec_is_effective_owner(owner) || !session.groups@.contains(gid)
                || (session.delegate matches Some(d) && !d.groups@.contains(gid))) {
                Err(ErrorView::PermissionDenied(path))
            } else {
                Ok(Some(gid))
            }
        },
    }
}

/// `chown <user>[:<group>] <path>`: root may change the owner; root, or the
/// effective owner who is (with the delegate) in the group, may change the
/// group. The owner changes first, so a refused group leaves the new owner.
fn cmd_chown(fs: &mut VirtualFs, args: &Vec<String>, session: &Session) -> (r: Result<String, VfsError>)
    requires
        old(fs).wf(),
    ensures
        final(fs).wf(),
        final(fs).frame(old(fs)),
        final(fs).next_id() == old(fs).next_id(),
        args@.len() < 2 ==> r is Err && r->Err_0@ == ErrorView::InvalidArgs(
            "chown: need owner[:group] and file"@,
        ) && *final(fs) == *old(fs),
        args@.len() >= 2 ==> match old(fs).resolve_checked(args@[1]@, *session) {
            Err(e) => r is Err && r->Err_0@ == e && *final(fs) == *old(fs),
            Ok(id) => if !old(fs).inodes().contains_key(id) {
                r is Err && r->Err_0@ == ErrorView::NotFound(label(id)) && *final(fs) == *old(fs)
            } else {
                let v = old(fs).inodes()[id];
                let spec = args@[0]@;
                let path = args@[1]@;
                match chown_owner(old(fs).reg(), *session, owner_part(spec), path) {
                    Err(e) => r is Err && r->Err_0@ == e && *final(fs) == *old(fs),
                    Ok(u) => {
                        let owner = match u {
                            Some(x) => x,
                            None => v.uid,
                        };
                        let mid = if u is Some {
                            old(fs).inodes().insert(id, InodeView { uid: owner, ..v })
                        } else {
                            old(fs).inodes()
                        };
                        match chown_group(old(fs).reg(), *session, group_part(spec), owner, path) {
                            Err(e) => r is Err && r->Err_0@ == e && final(fs).inodes() == mid,
                            Ok(g) => r is Ok && final(fs).inodes() == (match g {
                                Some(gid) => old(fs).inodes().insert(id, InodeView { uid: owner, gid, ..v }),
                                None => mid,
                            }),
                        }
                    },
                }
            },
        },
        r is Ok ==> r->Ok_0@.len() == 0,
{
    if args.len() < 2 {
        return Err(VfsError::InvalidArgs { message: owned("chown: need owner[:group] and file") });
    }
    let spec = args[0].as_str();
    let path = args[1].as_str();
    let chars = to_chars(spec);
    let ghost sv = spec@;
    let (user_str, group_str) = match find_colon(spec) {
        Some(pos) => {
            let n = chars.len();
            proof {
                assert(chars@.len() == spec@.len());
                assert(pos < n);
                let c = choose|i: int| 0 <= i < sv.len() && sv[i] == ':' && forall|j: int| 0 <= j < i ==> sv[j] != ':';
                assert(sv[pos as int] == ':');
                if c < pos {
                    assert(sv[c] != ':');
                }
                if pos < c {
                    assert(sv[pos as int] != ':');
                }
                assert(first_colon(sv) == Some(pos as int));
            }
            let after: usize = pos + 1;
            let u = crate::text::substring(chars.as_slice(), 0, pos);
            let g = crate::text::substring(chars.as_slice(), after, n);
            proof {
                assert(u@ =~= sv.take(pos as int));
                assert(g@ =~= sv.skip(pos + 1));
            }
            (u, Some(g))
        },
        None => {
            proof {
                assert(first_colon(sv) is None);
            }
            (owned(spec), None)
        },
    };
    let id = fs.resolve_path_checked(path, session)?;
    let inode = fs.get_inode(id)?;
    let current_gid = inode.gid;
    let ghost old_fs = *fs;
    proof {
        old_fs.lemma_resolve_checked_plain(path@, *session);
    }
    if to_chars(user_str.as_str()).len() > 0 {
        if !session.is_effectively_root() {
            return Err(VfsError::PermissionDenied { path: owned(path) });
        }
        let new_uid = match fs.registry().lookup_uid(user_str.as_str()) {
            Some(u) => u,
            None => {
                let mut message = owned("no such user: ");
                push_str(&mut message, user_str.as_str());
                return Err(VfsError::AuthError { message });
            },
        };
        fs.chown(path, new_uid, current_gid)?;
    }
    let ghost mid_fs = *fs;
    proof {
        assert(mid_fs.resolve(path@) == old_fs.resolve(path@)) by {
            assert(mid_fs.inodes() =~= old_fs.inodes().insert(id, mid_fs.inodes()[id]));
            mid_fs.lemma_meta_kept(&old_fs, id, mid_fs.inodes()[id]);
            mid_fs.lemma_same_resolve(&old_fs, path@);
        }
    }
    if let Some(group) = group_str {
        if to_chars(group.as_str()).len() > 0 {
            let new_gid = match fs.registry().lookup_gid(group.as_str()) {
                Some(g) => g,
                None => {
                    let mut message = owned("no such group: ");
                    push_str(&mut message, group.as_str());
                    return Err(VfsError::AuthError { message });
                },
            };
            let target = fs.resolve_path(path)?;
            let owner = fs.get_inode(target)?.uid;
            if !session.is_effectively_root() {
                if !session.is_effective_owner(owner) {
                    return Err(VfsError::PermissionDenied { path: owned(path) });
                }
                if !crate::auth::contains_id(session.groups.as_slice(), new_gid) {
                    return Err(VfsError::PermissionDenied { path: owned(path) });
                }
                if let Some(delegate) = &session.delegate {
                    if !crate::auth::contains_id(delegate.groups.as_slice(), new_gid) {
                        return Err(VfsError::PermissionDenied { path: owned(path) });
                    }
                }
            }
            fs.chown(path, owner, new_gid)?;
            proof {
                assert(fs.inodes() =~= old_fs.inodes().insert(
                    id,
                    InodeView { uid: owner, gid: new_gid, ..old_fs.inodes()[id] },
                ));
            }
        }
    }
    Ok(String::new())
}

/// The arguments that are not `flag`, in order.
pub open spec fn non_flags(args: Seq<Seq<char>>, flag: Seq<char>) -> Seq<Seq<char>>
    decreases args.len(),
{
    if args.len() == 0 {
        Seq::empty()
    } else {
        let rest = non_flags(args.drop_last(), flag);
        if args.last() == flag {
            rest
        } else {
            rest.push(args.last())
        }
    }
}

/// `ln -s <target> <link>`: makes a symbolic link, once the session may
/// write in and enter the link's parent. Links that are not symbolic are
/// refused as not supported, once the target may be read.
fn cmd_ln(fs: &mut VirtualFs, args: &Vec<String>, session: &Session) -> (r: Result<String, VfsError>)
    requires
        old(fs).wf(),
    ensures
        final(fs).wf(),
        r is Ok ==> r->Ok_0@.len() == 0,
        ({
            let ts = non_flags(texts(args@), "-s"@);
            if ts.len() < 2 {
                r is Err && r->Err_0@ == ErrorView::InvalidArgs("ln: need target and link name"@) && *final(fs)
                    == *old(fs)
            } else {
                match parent_wx_error(old(fs), ts[1], session) {
                    Some(e) => r is Err && r->Err_0@ == e && *final(fs) == *old(fs),
                    None => if texts(args@).contains("-s"@) {
                        if old(fs).next_id() == u64::MAX {
                            r is Err && r->Err_0@ == ErrorView::NotSupported("inode ids exhausted"@) && *final(fs)
                                == *old(fs)
                        } else {
                            VirtualFs::ln_s_done(
                                old(fs),
                                final(fs),
                                ts[0],
                                ts[1],
                                session.spec_effective_uid(),
                                session.spec_effective_gid(),
                                match r {
                                    Ok(_) => Ok(()),
                                    Err(e) => Err(e@),
                                },
                            )
                        }
                    } else {
                        &&& *final(fs) == *old(fs)
                        &&& match old(fs).resolve_checked(ts[0], *session) {
                            Err(e) => r is Err && r->Err_0@ == e,
                            Ok(id) => match access_error(old(fs), id, session, Access::Read, ts[0]) {
                                Some(e) => r is Err && r->Err_0@ == e,
                                None => r is Err && r->Err_0@ == ErrorView::NotSupported("hard links"@),
                            },
                        }
                    },
                }
            }
        }),
{
    let mut symlink = false;
    let mut targets: Vec<&str> = Vec::new();
    let mut i: usize = 0;
    let ghost ta = texts(args@);
    proof {
        assert(ta.take(0) =~= Seq::<Seq<char>>::empty());
        assert(targets@.map_values(|t: &str| t@) =~= Seq::<Seq<char>>::empty());
    }
    while i < args.len()
        invariant
            i <= args@.len(),
            ta == texts(args@),
            ta.len() == args@.len(),
            targets@.map_values(|t: &str| t@) == non_flags(ta.take(i as int), "-s"@),
            symlink == ta.take(i as int).contains("-s"@),
        decreases args.len() - i,
    {
        proof {
            assert(ta.take(i + 1).drop_last() =~= ta.take(i as int));
            assert(ta[i as int] == args@[i as int]@);
            assert(ta.take(i + 1).last() == ta[i as int]);
        }
        let ghost before = targets@;
        if str_eq(args[i].as_str(), "-s") {
            symlink = true;
            proof {
                assert(ta.take(i + 1)[i as int] == "-s"@);
            }
        } else {
            targets.push(args[i].as_str());
            proof {
                assert(targets@.map_values(|t: &str| t@) =~= before.map_values(|t: &str| t@).push(args@[i as int]@));
                assert(ta.take(i as int).contains("-s"@) == ta.take(i + 1).contains("-s"@)) by {
                    let a = ta.take(i + 1);
                    let b = ta.take(i as int);
                    if a.contains("-s"@) {
                        let k = choose|k: int| 0 <= k < a.len() && #[trigger] a[k] == "-s"@;
                        assert(k < i);
                        assert(b[k] == "-s"@);
                    }
                    if b.contains("-s"@) {
                        let k = choose|k: int| 0 <= k < b.len() && #[trigger] b[k] == "-s"@;
                        assert(a[k] == "-s"@);
                    }
                }
            }
        }
        i += 1;
    }
    proof {
        assert(ta.take(args@.len() as int) =~= ta);
    }
    if targets.len() < 2 {
        return Err(VfsError::InvalidArgs { message: owned("ln: need target and link name") });
    }
    proof {
        assert(targets@[0]@ == non_flags(ta, "-s"@)[0]);
        assert(targets@[1]@ == non_flags(ta, "-s"@)[1]);
    }
    require_parent_wx(fs, targets[1], session)?;
    if symlink {
        require_ids(fs)?;
        fs.ln_s(targets[0], targets[1], session.effective_uid(), session.effective_gid())?;
    } else {
        let target_id = fs.resolve_path_checked(targets[0], session)?;
        require_access(fs, target_id, session, Access::Read, targets[0])?;
        return Err(VfsError::NotSupported { message: owned("hard links") });
    }
    Ok(String::new())
}

/// The arguments after the first.
fn rest_of(args: &Vec<String>) -> (r: &[String])
    requires
        args@.len() >= 1,
    ensures
        r@ == args@.skip(1),
{
    let r = &args.as_slice()[1..args.len()];
    proof {
        assert(r@ =~= args@.skip(1));
    }
    r
}

/// `write <path> [text...]`: replaces a file's content with the piped
/// input, or with the remaining arguments joined by spaces; a file that
/// does not resolve is made first (the session may write in its parent),
/// else the session may write it. Reading the path afterwards gives the
/// text's UTF-8 bytes.
/// Whether `write` to path `p` is owed to succeed once it has content: an
/// existing target the session may reach and write, that can take
/// content; or a new Markdown file, with no ".." on its path, in a
/// directory the session may reach and write, with an inode id left.
pub open spec fn write_owed(fs: &VirtualFs, p: Seq<char>, session: &Session) -> bool {
    match fs.resolve(p) {
        Ok(_) => match fs.resolve_checked(p, *session) {
            Ok(id) => access_error(fs, id, session, Access::Write, p) is None && fs.write_target(p) is Ok,
            Err(_) => false,
        },
        Err(_) => match parent_checked(fs, p, session) {
            Ok(pid) => {
                &&& access_error(fs, pid, session, Access::Write, p) is None
                &&& fs.next_id() < u64::MAX
                &&& crate::fs::is_markdown(p)
                &&& crate::fs::growth::no_up(components(p))
                &&& fs.resolve_parent_spec(p) matches Ok((d, _))
                &&& fs.dir_of(d) is Ok
            },
            Err(_) => false,
        },
    }
}

fn cmd_write(fs: &mut VirtualFs, args: &Vec<String>, stdin: Option<&str>, session: &Session) -> (r: Result<
    String,
    VfsError,
>)
    requires
        old(fs).wf(),
    ensures
        final(fs).wf(),
        args@.len() == 0 ==> r is Err && r->Err_0@ == ErrorView::InvalidArgs("write: need file path"@)
            && *final(fs) == *old(fs),
        args@.len() == 1 && stdin is None ==> r is Err && r->Err_0@ == ErrorView::InvalidArgs(
            "write: need content (pipe input or provide as args)"@,
        ) && *final(fs) == *old(fs),
        r is Ok ==> r->Ok_0@.len() == 0 && final(fs).read(args@[0]@) == Ok::<Seq<u8>, ErrorView>(
            vstd::utf8::encode_utf8(
                match stdin {
                    Some(input) => input@,
                    None => join_with(texts(args@.skip(1)), " "@),
                },
            ),
        ),
        args@.len() >= 1 && (stdin is Some || args@.len() > 1) && write_owed(old(fs), args@[0]@, session)
            ==> r is Ok,
{
    if args.len() == 0 {
        return Err(VfsError::InvalidArgs { message: owned("write: need file path") });
    }
    let content = match stdin {
        Some(input) => owned(input),
        None => {
            if args.len() > 1 {
                let r = rest_of(args);
                proof {
                    assert(r@.map_values(|s: String| s@) =~= texts(args@.skip(1)));
                }
                join_strings(r, " ")
            } else {
                return Err(
                    VfsError::InvalidArgs {
                        message: owned("write: need content (pipe input or provide as args)"),
                    },
                );
            }
        },
    };
    let path = args[0].as_str();
    if fs.resolve_path(path).is_err() {
        let parent_id = parent_of_checked(fs, path, session)?;
        require_access(fs, parent_id, session, Access::Write, path)?;
        require_ids(fs)?;
        let ghost before = *fs;
        fs.touch(path, session.effective_uid(), session.effective_gid())?;
        proof {
            if crate::fs::growth::no_up(components(path@)) {
                VirtualFs::lemma_touched_target(
                    &before,
                    fs,
                    path@,
                    session.spec_effective_uid(),
                    session.spec_effective_gid(),
                );
            }
        }
    } else {
        let id = fs.resolve_path_checked(path, session)?;
        require_access(fs, id, session, Access::Write, path)?;
    }
    let bytes = crate::fs::inode::copy_bytes(content.as_str().as_bytes());
    fs.write_file(path, bytes)?;
    Ok(String::new())
}


// ───── User management ─────

/// Refuses to go on when user or group ids have run out.
pub(crate) fn require_user_ids(fs: &VirtualFs) -> (r: Result<(), VfsError>)
    requires
        fs.wf(),
    ensures
        r is Ok <==> fs.reg().next_uid() < u32::MAX && fs.reg().next_gid() < u32::MAX,
        r is Err ==> r->Err_0@ == ErrorView::NotSupported("user ids exhausted"@),
{
    let (u, g) = fs.registry().next_ids();
    if u == u32::MAX || g == u32::MAX {
        return Err(VfsError::NotSupported { message: owned("user ids exhausted") });
    }
    Ok(())
}

/// What deleting the user `name` answers and does to the registry: an
/// unknown name and root are refused; otherwise the user leaves the users,
/// the name index and every group. The tree stays as it was.
pub open spec fn deleted_user(fs0: &VirtualFs, fs1: &VirtualFs, name: Seq<char>, r: Result<String, VfsError>) -> bool {
    let reg = fs0.reg();
    &&& fs1.inodes() == fs0.inodes()
    &&& !reg.uid_index().contains_key(name) ==> r is Err && r->Err_0@ == ErrorView::AuthError(
        "no such user: "@ + name,
    )
    &&& reg.uid_index().contains_key(name) && reg.uid_index()[name] == ROOT_UID ==> r is Err && r->Err_0@
        == ErrorView::AuthError("cannot delete root"@)
    &&& reg.uid_index().contains_key(name) && reg.uid_index()[name] != ROOT_UID ==> {
        let uid = reg.uid_index()[name];
        &&& r is Ok
        &&& fs1.reg().users() == reg.users().remove(uid_pos(reg.users(), uid))
        &&& fs1.reg().groups() == strip_member(reg.groups(), uid)
        &&& fs1.reg().uid_index() == reg.uid_index().remove(name)
    }
    &&& r is Err ==> fs1.reg().users() == reg.users() && fs1.reg().groups() == reg.groups()
}

/// What deleting the group `name` answers and does to the registry: an
/// unknown name and the system groups are refused; otherwise the group
/// leaves the groups, the name index and every user.
pub open spec fn deleted_group(fs0: &VirtualFs, fs1: &VirtualFs, name: Seq<char>, r: Result<String, VfsError>) -> bool {
    let reg = fs0.reg();
    &&& fs1.inodes() == fs0.inodes()
    &&& !reg.gid_index().contains_key(name) ==> r is Err && r->Err_0@ == ErrorView::AuthError(
        "no such group: "@ + name,
    )
    &&& reg.gid_index().contains_key(name) && (reg.gid_index()[name] == ROOT_GID || reg.gid_index()[name]
        == WHEEL_GID) ==> r is Err && r->Err_0@ == ErrorView::AuthError("cannot delete system group: "@ + name)
    &&& reg.gid_index().contains_key(name) && reg.gid_index()[name] != ROOT_GID && reg.gid_index()[name]
        != WHEEL_GID ==> {
        let gid = reg.gid_index()[name];
        &&& r is Ok
        &&& fs1.reg().groups() == reg.groups().remove(gid_pos(reg.groups(), gid))
        &&& fs1.reg().users() == strip_group(reg.users(), gid)
        &&& fs1.reg().gid_index() == reg.gid_index().remove(name)
    }
    &&& r is Err ==> fs1.reg().users() == reg.users() && fs1.reg().groups() == reg.groups()
}

/// Whether the registry has ids left for a new user and its group.
pub open spec fn user_ids_left(fs: &VirtualFs) -> bool {
    fs.reg().next_uid() < u32::MAX && fs.reg().next_gid() < u32::MAX
}

/// What adding the group `name` answers and does to the registry: with no
/// ids left, or a group of that name, it is refused; otherwise the group
/// is added, empty, under the next gid.
pub open spec fn added_group(fs0: &VirtualFs, fs1: &VirtualFs, name: Seq<char>, r: Result<String, VfsError>) -> bool {
    let reg = fs0.reg();
    &&& fs1.inodes() == fs0.inodes()
    &&& !user_ids_left(fs0) ==> r is Err && r->Err_0@ == ErrorView::NotSupported("user ids exhausted"@)
    &&& user_ids_left(fs0) && reg.gid_index().contains_key(name) ==> r is Err && r->Err_0@
        == ErrorView::AuthError("group already exists: "@ + name)
    &&& user_ids_left(fs0) && !reg.gid_index().contains_key(name) ==> {
        &&& r is Ok
        &&& fs1.reg().groups() == reg.groups().push(GroupView { gid: reg.next_gid(), name: name, members: seq![] })
        &&& fs1.reg().gid_index() == reg.gid_index().insert(name, reg.next_gid())
        &&& fs1.reg().users() == reg.users()
    }
    &&& r is Err ==> fs1.reg().users() == reg.users() && fs1.reg().groups() == reg.groups()
}

/// What adding or removing user `user` to or from group `group` answers:
/// refused exactly when either is unknown, and then nothing changes.
pub open spec fn changed_membership(fs0: &VirtualFs, fs1: &VirtualFs, user: Seq<char>, group: Seq<char>, r: Result<
    String,
    VfsError,
>) -> bool {
    let reg = fs0.reg();
    &&& fs1.inodes() == fs0.inodes()
    &&& !reg.uid_index().contains_key(user) ==> r is Err && r->Err_0@ == ErrorView::AuthError(
        "no such user: "@ + user,
    )
    &&& reg.uid_index().contains_key(user) && !reg.gid_index().contains_key(group) ==> r is Err && r->Err_0@
        == ErrorView::AuthError("no such group: "@ + group)
    &&& reg.uid_index().contains_key(user) && reg.gid_index().contains_key(group) ==> r is Ok
    &&& r is Err ==> fs1.reg().users() == reg.users() && fs1.reg().groups() == reg.groups()
}

/// What adding the user or agent `name` answers: a taken name or no ids
/// left are refused, with the registry as it was; otherwise the user is
/// added under the next uid.
pub open spec fn added_user(fs0: &VirtualFs, fs1: &VirtualFs, name: Seq<char>, r: Result<String, VfsError>) -> bool {
    let reg = fs0.reg();
    &&& reg.uid_index().contains_key(name) ==> r is Err && r->Err_0@ == ErrorView::AuthError(
        "user already exists: "@ + name,
    )
    &&& !reg.uid_index().contains_key(name) && !user_ids_left(fs0) ==> r is Err && r->Err_0@
        == ErrorView::NotSupported("user ids exhausted"@)
    &&& !reg.uid_index().contains_key(name) && user_ids_left(fs0) ==> r is Ok && fs1.reg().uid_index()
        == reg.uid_index().insert(name, reg.next_uid())
    &&& r is Err ==> fs1.reg().users() == reg.users() && fs1.reg().groups() == reg.groups()
}

/// What adding the agent `name` answers: with no ids left, or a taken
/// name, it is refused, with the registry as it was; otherwise the agent
/// is added under the next uid.
pub open spec fn added_agent(fs0: &VirtualFs, fs1: &VirtualFs, name: Seq<char>, r: Result<String, VfsError>) -> bool {
    let reg = fs0.reg();
    &&& !user_ids_left(fs0) ==> r is Err && r->Err_0@ == ErrorView::NotSupported("user ids exhausted"@)
    &&& user_ids_left(fs0) && reg.uid_index().contains_key(name) ==> r is Err && r->Err_0@
        == ErrorView::AuthError("user already exists: "@ + name)
    &&& user_ids_left(fs0) && !reg.uid_index().contains_key(name) ==> r is Ok && fs1.reg().uid_index()
        == reg.uid_index().insert(name, reg.next_uid())
    &&& r is Err ==> fs1.reg().users() == reg.users() && fs1.reg().groups() == reg.groups()
}

/// `adduser <name>` (administrators): makes a user with a personal group,
/// and a home directory `/home/<name>` when it can.
fn cmd_adduser(fs: &mut VirtualFs, args: &Vec<String>, session: &Session) -> (r: Result<String, VfsError>)
    requires
        old(fs).wf(),
    ensures
        final(fs).wf(),
        admin_error(session) is Some ==> r is Err && r->Err_0@ == admin_error(session)->0 && *final(fs) == *old(fs),
        admin_error(session) is None && args@.len() == 0 ==> r is Err && r->Err_0@ == ErrorView::InvalidArgs(
            "adduser: missing username"@,
        ) && *final(fs) == *old(fs),
        admin_error(session) is None && args@.len() > 0 && old(fs).reg().uid_index().contains_key(args@[0]@)
            ==> r is Err && r->Err_0@ == ErrorView::AuthError("user already exists: "@ + args@[0]@),
        r is Ok ==> final(fs).reg().uid_index().contains_key(args@[0]@) && r->Ok_0@.take(
            ("User '"@ + args@[0]@ + "' created (uid="@ + decimal(final(fs).reg().uid_index()[args@[0]@] as nat)
                + ")\n"@).len() as int,
        ) == "User '"@ + args@[0]@ + "' created (uid="@ + decimal(
            final(fs).reg().uid_index()[args@[0]@] as nat,
        ) + ")\n"@,
        admin_error(session) is None && args@.len() > 0 ==> added_user(old(fs), final(fs), args@[0]@, r),
{
    require_admin(session)?;
    if args.len() == 0 {
        return Err(VfsError::InvalidArgs { message: owned("adduser: missing username") });
    }
    let name = args[0].as_str();
    if fs.registry().lookup_uid(name).is_some() {
        let mut message = owned("user already exists: ");
        push_str(&mut message, name);
        return Err(VfsError::AuthError { message });
    }
    require_user_ids(fs)?;
    let ghost before = *fs;
    let (uid, _) = fs.registry_mut().add_user(name, false)?;
    proof {
        before.lemma_tree_wf_frame(fs);
    }
    let gid = match fs.registry().get_user(uid) {
        Some(u) => crate::auth::first_id(&u.groups),
        None => 0,
    };
    let mut output = owned("User '");
    push_str(&mut output, name);
    push_str(&mut output, "' created (uid=");
    push_decimal(&mut output, uid as u64);
    push_str(&mut output, ")\n");
    let ghost head = output@;
    let ghost reg_after = fs.reg();
    let _ = fs.mkdir_p("/home", ROOT_UID, ROOT_GID);
    let mut home = owned("/home/");
    push_str(&mut home, name);
    if fs.next_inode_id() < u64::MAX {
        if fs.mkdir(home.as_str(), uid, gid).is_ok() {
            push_str(&mut output, "Home directory: /home/");
            push_str(&mut output, name);
            push_str(&mut output, "\n");
        }
    }
    proof {
        assert(output@.take(head.len() as int) =~= head);
    }
    Ok(output)
}

/// `addagent <name>` (administrators): makes an agent user and shows its
/// API token once.
fn cmd_addagent(fs: &mut VirtualFs, args: &Vec<String>, session: &Session) -> (r: Result<String, VfsError>)
    requires
        old(fs).wf(),
    ensures
        final(fs).wf(),
        admin_error(session) is Some ==> r is Err && r->Err_0@ == admin_error(session)->0 && *final(fs) == *old(fs),
        admin_error(session) is None && args@.len() == 0 ==> r is Err && r->Err_0@ == ErrorView::InvalidArgs(
            "addagent: missing agent name"@,
        ) && *final(fs) == *old(fs),
        admin_error(session) is None && args@.len() > 0 ==> added_agent(old(fs), final(fs), args@[0]@, r),
{
    require_admin(session)?;
    if args.len() == 0 {
        return Err(VfsError::InvalidArgs { message: owned("addagent: missing agent name") });
    }
    let name = args[0].as_str();
    require_user_ids(fs)?;
    let ghost before = *fs;
    let res = fs.registry_mut().add_user(name, true);
    proof {
        before.lemma_tree_wf_frame(fs);
    }
    let (uid, raw) = res?;
    let token = match raw {
        Some(t) => t,
        None => String::new(),
    };
    let mut output = owned("Agent '");
    push_str(&mut output, name);
    push_str(&mut output, "' created (uid=");
    push_decimal(&mut output, uid as u64);
    push_str(&mut output, ")\nAPI token (save this \u{2014} shown only once):\n  ");
    push_str(&mut output, token.as_str());
    push_str(&mut output, "\n");
    Ok(output)
}

/// `deluser <name>` (root only).
fn cmd_deluser(fs: &mut VirtualFs, args: &Vec<String>, session: &Session) -> (r: Result<String, VfsError>)
    requires
        old(fs).wf(),
    ensures
        final(fs).wf(),
        !session.spec_is_effectively_root() ==> r is Err && r->Err_0@ == ErrorView::PermissionDenied(
            "deluser: root only"@,
        ) && *final(fs) == *old(fs),
        session.spec_is_effectively_root() && args@.len() == 0 ==> r is Err && r->Err_0@
            == ErrorView::InvalidArgs("deluser: missing username"@) && *final(fs) == *old(fs),
        r is Ok ==> r->Ok_0@ == "User '"@ + args@[0]@ + "' deleted\n"@,
        session.spec_is_effectively_root() && args@.len() > 0 ==> deleted_user(old(fs), final(fs), args@[0]@, r),
{
    if !session.is_effectively_root() {
        return Err(VfsError::PermissionDenied { path: owned("deluser: root only") });
    }
    if args.len() == 0 {
        return Err(VfsError::InvalidArgs { message: owned("deluser: missing username") });
    }
    let ghost before = *fs;
    let res = fs.registry_mut().del_user(args[0].as_str());
    proof {
        before.lemma_tree_wf_frame(fs);
    }
    res?;
    let mut output = owned("User '");
    push_str(&mut output, args[0].as_str());
    push_str(&mut output, "' deleted\n");
    Ok(output)
}

/// `addgroup <name>` (administrators).
fn cmd_addgroup(fs: &mut VirtualFs, args: &Vec<String>, session: &Session) -> (r: Result<String, VfsError>)
    requires
        old(fs).wf(),
    ensures
        final(fs).wf(),
        admin_error(session) is Some ==> r is Err && r->Err_0@ == admin_error(session)->0 && *final(fs) == *old(fs),
        admin_error(session) is None && args@.len() == 0 ==> r is Err && r->Err_0@ == ErrorView::InvalidArgs(
            "addgroup: missing group name"@,
        ) && *final(fs) == *old(fs),
        r is Ok ==> final(fs).reg().gid_index().contains_key(args@[0]@) && r->Ok_0@ == "Group '"@ + args@[0]@
            + "' created (gid="@ + decimal(final(fs).reg().gid_index()[args@[0]@] as nat) + ")\n"@,
        admin_error(session) is None && args@.len() > 0 ==> added_group(old(fs), final(fs), args@[0]@, r),
{
    require_admin(session)?;
    if args.len() == 0 {
        return Err(VfsError::InvalidArgs { message: owned("addgroup: missing group name") });
    }
    require_user_ids(fs)?;
    let ghost before = *fs;
    let res = fs.registry_mut().add_group(args[0].as_str());
    proof {
        before.lemma_tree_wf_frame(fs);
    }
    let gid = res?;
    let mut output = owned("Group '");
    push_str(&mut output, args[0].as_str());
    push_str(&mut output, "' created (gid=");
    push_decimal(&mut output, gid as u64);
    push_str(&mut output, ")\n");
    Ok(output)
}

/// `delgroup <name>` (root only).
fn cmd_delgroup(fs: &mut VirtualFs, args: &Vec<String>, session: &Session) -> (r: Result<String, VfsError>)
    requires
        old(fs).wf(),
    ensures
        final(fs).wf(),
        !session.spec_is_effectively_root() ==> r is Err && r->Err_0@ == ErrorView::PermissionDenied(
            "delgroup: root only"@,
        ) && *final(fs) == *old(fs),
        session.spec_is_effectively_root() && args@.len() == 0 ==> r is Err && r->Err_0@
            == ErrorView::InvalidArgs("delgroup: missing group name"@) && *final(fs) == *old(fs),
        r is Ok ==> r->Ok_0@ == "Group '"@ + args@[0]@ + "' deleted\n"@,
        session.spec_is_effectively_root() && args@.len() > 0 ==> deleted_group(old(fs), final(fs), args@[0]@, r),
{
    if !session.is_effectively_root() {
        return Err(VfsError::PermissionDenied { path: owned("delgroup: root only") });
    }
    if args.len() == 0 {
        return Err(VfsError::InvalidArgs { message: owned("delgroup: missing group name") });
    }
    let ghost before = *fs;
    let res = fs.registry_mut().del_group(args[0].as_str());
    proof {
        before.lemma_tree_wf_frame(fs);
    }
    res?;
    let mut output = owned("Group '");
    push_str(&mut output, args[0].as_str());
    push_str(&mut output, "' deleted\n");
    Ok(output)
}

/// The usage text of `usermod`.
pub open spec fn usermod_usage() -> Seq<char> {
    "usermod: usage: usermod -aG <group> <user> | usermod -rG <group> <user>"@
}

/// `usermod -aG|-rG <group> <user>` (administrators): adds a user to a
/// group or takes it out.
fn cmd_usermod(fs: &mut VirtualFs, args: &Vec<String>, session: &Session) -> (r: Result<String, VfsError>)
    requires
        old(fs).wf(),
    ensures
        final(fs).wf(),
        admin_error(session) is Some ==> r is Err && r->Err_0@ == admin_error(session)->0 && *final(fs) == *old(fs),
        admin_error(session) is None && (args@.len() < 3 || (args@[0]@ != "-aG"@ && args@[0]@ != "-rG"@))
            ==> r is Err && r->Err_0@ == ErrorView::InvalidArgs(usermod_usage()) && *final(fs) == *old(fs),
        r is Ok && args@[0]@ == "-aG"@ ==> r->Ok_0@ == "Added '"@ + args@[2]@ + "' to group '"@ + args@[1]@ + "'\n"@,
        admin_error(session) is None && args@.len() >= 3 && (args@[0]@ == "-aG"@ || args@[0]@ == "-rG"@)
            ==> changed_membership(old(fs), final(fs), args@[2]@, args@[1]@, r),
        r is Ok && args@[0]@ == "-rG"@ ==> r->Ok_0@ == "Removed '"@ + args@[2]@ + "' from group '"@ + args@[1]@
            + "'\n"@,
{
    require_admin(session)?;
    if args.len() < 3 {
        return Err(VfsError::InvalidArgs { message: owned("usermod: usage: usermod -aG <group> <user> | usermod -rG <group> <user>") });
    }
    let ghost before = *fs;
    proof {
        reveal_strlit("-aG");
        reveal_strlit("-rG");
        assert("-aG"@ != "-rG"@) by {
            assert("-aG"@[1] != "-rG"@[1]);
        }
    }
    if str_eq(args[0].as_str(), "-aG") {
        let res = fs.registry_mut().usermod_add_group(args[2].as_str(), args[1].as_str());
        proof {
            before.lemma_tree_wf_frame(fs);
        }
        res?;
        let mut output = owned("Added '");
        push_str(&mut output, args[2].as_str());
        push_str(&mut output, "' to group '");
        push_str(&mut output, args[1].as_str());
        push_str(&mut output, "'\n");
        Ok(output)
    } else if str_eq(args[0].as_str(), "-rG") {
        let res = fs.registry_mut().usermod_remove_group(args[2].as_str(), args[1].as_str());
        proof {
            before.lemma_tree_wf_frame(fs);
        }
        res?;
        let mut output = owned("Removed '");
        push_str(&mut output, args[2].as_str());
        push_str(&mut output, "' from group '");
        push_str(&mut output, args[1].as_str());
        push_str(&mut output, "'\n");
        Ok(output)
    } else {
        Err(VfsError::InvalidArgs { message: owned("usermod: usage: usermod -aG <group> <user> | usermod -rG <group> <user>") })
    }
}


/// The names of the groups among `gids` that exist, in order.
pub open spec fn group_names(fs: &VirtualFs, gids: Seq<Gid>) -> Seq<Seq<char>>
    decreases gids.len(),
{
    if gids.len() == 0 {
        Seq::empty()
    } else {
        let before = group_names(fs, gids.drop_last());
        match crate::auth::registry::group_of(fs.reg().groups(), gids.last()) {
            Some(g) => before.push(g.name),
            None => before,
        }
    }
}

/// `gid(name)` for each group among `gids` that exists, in order.
pub open spec fn group_labels(fs: &VirtualFs, gids: Seq<Gid>) -> Seq<Seq<char>>
    decreases gids.len(),
{
    if gids.len() == 0 {
        Seq::empty()
    } else {
        let before = group_labels(fs, gids.drop_last());
        match crate::auth::registry::group_of(fs.reg().groups(), gids.last()) {
            Some(g) => before.push(decimal(gids.last() as nat) + "("@ + g.name + ")"@),
            None => before,
        }
    }
}

pub(crate) fn names_of_groups(fs: &VirtualFs, gids: &Vec<Gid>, labels: bool) -> (r: Vec<String>)
    requires
        fs.wf(),
    ensures
        r@.map_values(|s: String| s@) == if labels {
            group_labels(fs, gids@)
        } else {
            group_names(fs, gids@)
        },
{
    let reg = fs.registry();
    let mut out: Vec<String> = Vec::new();
    let mut i: usize = 0;
    proof {
        assert(gids@.take(0) =~= Seq::<Gid>::empty());
        assert(out@.map_values(|s: String| s@) =~= Seq::<Seq<char>>::empty());
    }
    while i < gids.len()
        invariant
            fs.wf(),
            *reg == fs.reg(),
            i <= gids@.len(),
            out@.map_values(|s: String| s@) == if labels {
                group_labels(fs, gids@.take(i as int))
            } else {
                group_names(fs, gids@.take(i as int))
            },
        decreases gids.len() - i,
    {
        let gid = gids[i];
        let ghost before = out@.map_values(|s: String| s@);
        proof {
            assert(gids@.take(i + 1).drop_last() =~= gids@.take(i as int));
            assert(gids@.take(i + 1).last() == gid);
        }
        match reg.group_name(gid) {
            Some(name) => {
                let text = if labels {
                    let mut t = crate::text::decimal_string(gid as u64);
                    push_str(&mut t, "(");
                    push_str(&mut t, name);
                    push_str(&mut t, ")");
                    t
                } else {
                    owned(name)
                };
                out.push(text);
                proof {
                    assert(out@.map_values(|s: String| s@) =~= before.push(text@));
                }
            },
            None => {},
        }
        i += 1;
    }
    proof {
        assert(gids@.take(gids@.len() as int) =~= gids@);
    }
    out
}

/// The user named `name`, whose uid the index gives.
fn user_named<'a>(fs: &'a VirtualFs, name: &str) -> (r: Result<&'a crate::auth::User, VfsError>)
    requires
        fs.wf(),
    ensures
        match r {
            Ok(u) => fs.reg().uid_index().contains_key(name@) && crate::auth::registry::user_of(
                fs.reg().users(),
                fs.reg().uid_index()[name@],
            ) == Some(u@),
            Err(e) => !fs.reg().uid_index().contains_key(name@) && e@ == ErrorView::AuthError(
                "no such user: "@ + name@,
            ),
        },
{
    let reg = fs.registry();
    let uid = match reg.lookup_uid(name) {
        Some(u) => u,
        None => {
            let mut message = owned("no such user: ");
            push_str(&mut message, name);
            return Err(VfsError::AuthError { message });
        },
    };
    proof {
        reg.lemma_indexed_user(name@);
    }
    match reg.get_user(uid) {
        Some(u) => Ok(u),
        None => Err(VfsError::AuthError { message: owned("no such user") }),
    }
}

/// `groups [user]`: the names of a user's groups (only root may ask about
/// another user).
fn cmd_groups(fs: &VirtualFs, args: &Vec<String>, session: &Session) -> (r: Result<String, VfsError>)
    requires
        fs.wf(),
    ensures
        args@.len() > 0 && session.uid != ROOT_UID && args@[0]@ != session.username@ ==> r is Err && r->Err_0@
            == ErrorView::PermissionDenied("groups"@),
        !(args@.len() > 0 && session.uid != ROOT_UID && args@[0]@ != session.username@) ==> {
            let name = if args@.len() == 0 {
                session.username@
            } else {
                args@[0]@
            };
            match crate::auth::registry::user_of(fs.reg().users(), fs.reg().uid_index()[name]) {
                Some(u) if fs.reg().uid_index().contains_key(name) => r is Ok && r->Ok_0@ == join_with(
                    group_names(fs, u.groups),
                    " "@,
                ) + "\n"@,
                _ => r is Err && r->Err_0@ == ErrorView::AuthError("no such user: "@ + name),
            }
        },
{
    let username = if args.len() == 0 {
        session.username.as_str()
    } else {
        if session.uid != ROOT_UID && !str_eq(args[0].as_str(), session.username.as_str()) {
            return Err(VfsError::PermissionDenied { path: owned("groups") });
        }
        args[0].as_str()
    };
    let user = user_named(fs, username)?;
    let names = names_of_groups(fs, &user.groups, false);
    let mut out = join_strings(names.as_slice(), " ");
    push_str(&mut out, "\n");
    Ok(out)
}

/// `id [user]`: a user's uid, primary group and groups.
fn cmd_id(fs: &VirtualFs, args: &Vec<String>, session: &Session) -> (r: Result<String, VfsError>)
    requires
        fs.wf(),
    ensures
        ({
            let name = if args@.len() == 0 {
                session.username@
            } else {
                args@[0]@
            };
            match crate::auth::registry::user_of(fs.reg().users(), fs.reg().uid_index()[name]) {
                Some(u) if fs.reg().uid_index().contains_key(name) => {
                    let pg = crate::auth::first_or_zero(u.groups);
                    r is Ok && r->Ok_0@ == "uid="@ + decimal(u.uid as nat) + "("@ + u.name + ") gid="@ + decimal(
                        pg as nat,
                    ) + "("@ + group_text(fs, pg) + ") groups="@ + join_with(group_labels(fs, u.groups), ","@)
                        + "\n"@
                },
                _ => r is Err && r->Err_0@ == ErrorView::AuthError("no such user: "@ + name),
            }
        }),
{
    let username = if args.len() == 0 {
        session.username.as_str()
    } else {
        args[0].as_str()
    };
    let user = user_named(fs, username)?;
    let primary_gid = crate::auth::first_id(&user.groups);
    let primary_group = match fs.registry().group_name(primary_gid) {
        Some(n) => n,
        None => "?",
    };
    let labels = names_of_groups(fs, &user.groups, true);
    let mut out = owned("uid=");
    push_decimal(&mut out, user.uid as u64);
    push_str(&mut out, "(");
    push_str(&mut out, user.name.as_str());
    push_str(&mut out, ") gid=");
    push_decimal(&mut out, primary_gid as u64);
    push_str(&mut out, "(");
    push_str(&mut out, primary_group);
    push_str(&mut out, ") groups=");
    push_str(&mut out, join_strings(labels.as_slice(), ",").as_str());
    push_str(&mut out, "\n");
    Ok(out)
}

/// `su <user>`: a principal that is root or in wheel becomes the user.
fn cmd_su(fs: &VirtualFs, args: &Vec<String>, session: &mut Session) -> (r: Result<String, VfsError>)
    requires
        fs.wf(),
    ensures
        args@.len() == 0 ==> r is Err && r->Err_0@ == ErrorView::InvalidArgs("su: missing username"@)
            && *final(session) == *old(session),
        args@.len() > 0 && !is_admin(old(session).uid, old(session).groups@) ==> r is Err && r->Err_0@
            == ErrorView::PermissionDenied("su: must be root or wheel member to switch user"@)
            && *final(session) == *old(session),
        args@.len() > 0 && is_admin(old(session).uid, old(session).groups@) ==> match crate::auth::registry::user_of(
            fs.reg().users(),
            fs.reg().uid_index()[args@[0]@],
        ) {
            Some(u) if fs.reg().uid_index().contains_key(args@[0]@) => {
                &&& r is Ok
                &&& r->Ok_0@ == "Switched to user '"@ + u.name + "'\n"@
                &&& final(session).uid == u.uid
                &&& final(session).gid == crate::auth::first_or_zero(u.groups)
                &&& final(session).groups@ == u.groups
                &&& final(session).username@ == u.name
                &&& final(session).delegate == old(session).delegate
            },
            _ => r is Err && r->Err_0@ == ErrorView::AuthError("no such user: "@ + args@[0]@) && *final(session)
                == *old(session),
        },
{
    if args.len() == 0 {
        return Err(VfsError::InvalidArgs { message: owned("su: missing username") });
    }
    if session.uid != ROOT_UID && !crate::auth::contains_id(session.groups.as_slice(), WHEEL_GID) {
        return Err(
            VfsError::PermissionDenied { path: owned("su: must be root or wheel member to switch user") },
        );
    }
    let user = user_named(fs, args[0].as_str())?;
    session.uid = user.uid;
    session.gid = crate::auth::first_id(&user.groups);
    session.groups = crate::auth::copy_ids(&user.groups);
    session.username = owned(user.name.as_str());
    let mut out = owned("Switched to user '");
    push_str(&mut out, user.name.as_str());
    push_str(&mut out, "'\n");
    Ok(out)
}

/// `delegate <user>` or `delegate :<group>`: an agent or administrator acts
/// on behalf of a user, or of a group (through an id that owns nothing);
/// every check then needs both.
fn cmd_delegate(fs: &VirtualFs, args: &Vec<String>, session: &mut Session) -> (r: Result<String, VfsError>)
    requires
        fs.wf(),
    ensures
        r is Err ==> *final(session) == *old(session),
        r is Ok ==> final(session).uid == old(session).uid && final(session).groups == old(session).groups
            && final(session).delegate is Some,
        args@.len() == 0 ==> r is Err && r->Err_0@ == ErrorView::InvalidArgs(
            "delegate: usage: delegate <user> or delegate :<group>"@,
        ),
        args@.len() > 0 && !is_admin(old(session).uid, old(session).groups@) && !(crate::auth::registry::user_of(
            fs.reg().users(),
            old(session).uid,
        ) matches Some(u) && u.is_agent) ==> r is Err && r->Err_0@ == ErrorView::PermissionDenied(
            "delegate: only agents or admins can delegate"@,
        ),
        args@.len() > 0 && (is_admin(old(session).uid, old(session).groups@) || (crate::auth::registry::user_of(
            fs.reg().users(),
            old(session).uid,
        ) matches Some(u) && u.is_agent)) ==> {
            let t = args@[0]@;
            if t.len() > 0 && t[0] == ':' {
                let g = t.drop_first();
                if !fs.reg().gid_index().contains_key(g) {
                    r is Err && r->Err_0@ == ErrorView::AuthError("no such group: "@ + g)
                } else {
                    &&& r is Ok
                    &&& r->Ok_0@ == "Now acting on behalf of group '"@ + g + "' (effective: intersection)\n"@
                    &&& final(session).delegate->0.uid == u32::MAX
                    &&& final(session).delegate->0.gid == fs.reg().gid_index()[g]
                    &&& final(session).delegate->0.groups@ == seq![fs.reg().gid_index()[g]]
                    &&& final(session).delegate->0.username@ == ":"@ + g
                }
            } else if !fs.reg().uid_index().contains_key(t) {
                r is Err && r->Err_0@ == ErrorView::AuthError("no such user: "@ + t)
            } else {
                &&& crate::auth::registry::user_of(fs.reg().users(), fs.reg().uid_index()[t]) matches Some(u)
                    && r is Ok && r->Ok_0@ == "Now acting on behalf of '"@ + u.name + "' (effective: intersection)\n"@
                    && final(session).delegate->0.uid == u.uid && final(session).delegate->0.groups@ == u.groups
                    && final(session).delegate->0.gid == crate::auth::first_or_zero(u.groups)
                    && final(session).delegate->0.username@ == u.name
            }
        },
{
    if args.len() == 0 {
        return Err(
            VfsError::InvalidArgs { message: owned("delegate: usage: delegate <user> or delegate :<group>") },
        );
    }
    let reg = fs.registry();
    let is_agent = match reg.get_user(session.uid) {
        Some(u) => u.is_agent,
        None => false,
    };
    if !is_agent && session.uid != ROOT_UID && !crate::auth::contains_id(session.groups.as_slice(), WHEEL_GID) {
        return Err(
            VfsError::PermissionDenied { path: owned("delegate: only agents or admins can delegate") },
        );
    }
    let target = args[0].as_str();
    let chars = to_chars(target);
    if chars.len() > 0 && chars[0] == ':' {
        let group_name = crate::text::substring(chars.as_slice(), 1, chars.len());
        proof {
            assert(group_name@ == target@.drop_first());
        }
        let gid = match reg.lookup_gid(group_name.as_str()) {
            Some(g) => g,
            None => {
                let mut message = owned("no such group: ");
                push_str(&mut message, group_name.as_str());
                return Err(VfsError::AuthError { message });
            },
        };
        let mut groups: Vec<Gid> = Vec::new();
        groups.push(gid);
        let mut username = owned(":");
        push_str(&mut username, group_name.as_str());
        let mut out = owned("Now acting on behalf of group '");
        push_str(&mut out, group_name.as_str());
        push_str(&mut out, "' (effective: intersection)\n");
        session.delegate = Some(DelegateContext { uid: u32::MAX, gid, groups, username });
        proof {
            assert(groups@ =~= seq![gid]);
        }
        Ok(out)
    } else {
        let user = user_named(fs, target)?;
        let mut out = owned("Now acting on behalf of '");
        push_str(&mut out, user.name.as_str());
        push_str(&mut out, "' (effective: intersection)\n");
        session.delegate = Some(
            DelegateContext {
                uid: user.uid,
                gid: crate::auth::first_id(&user.groups),
                groups: crate::auth::copy_ids(&user.groups),
                username: owned(user.name.as_str()),
            },
        );
        Ok(out)
    }
}

/// `undelegate`: stops acting on behalf of another.
fn cmd_undelegate(session: &mut Session) -> (r: Result<String, VfsError>)
    ensures
        final(session).uid == old(session).uid,
        final(session).groups == old(session).groups,
        final(session).delegate is None,
        match old(session).delegate {
            None => r is Ok && r->Ok_0@ == "No active delegation\n"@,
            Some(d) => r is Ok && r->Ok_0@ == "Delegation for '"@ + d.username@ + "' ended\n"@,
        },
{
    let out = match &session.delegate {
        None => owned("No active delegation\n"),
        Some(d) => {
            let mut o = owned("Delegation for '");
            push_str(&mut o, d.username.as_str());
            push_str(&mut o, "' ended\n");
            o
        },
    };
    session.delegate = None;
    Ok(out)
}


// ───── Help and dispatch ─────

/// The text of `help`.
pub const HELP_TEXT: &'static str = "markdownfs \u{2014} Markdown Virtual File System\n\nFile commands:\n  ls [-l] [path]           List directory contents\n  cd [path]                Change directory\n  pwd                      Print working directory\n  mkdir [-p] <path>        Create directory\n  touch <file.md>          Create empty markdown file\n  cat <file>               Display file contents\n  write <file> [content]   Write content to file (or pipe: echo \"text\" | write file.md)\n  rm [-r] <path>           Remove file or directory\n  rmdir <path>             Remove empty directory\n  mv <src> <dst>           Move/rename\n  cp <src> <dst>           Copy file\n  stat <path>              File information\n  tree [path]              Directory tree view\n  find [path] [-name pat]  Find files by pattern\n  grep [-r] <pattern> [path]  Search file contents\n  head [-n N]              First N lines (pipe)\n  tail [-n N]              Last N lines (pipe)\n  wc [-l|-w|-c]            Count lines/words/bytes (pipe)\n  chmod <mode> <path>      Change permissions (owner or root)\n  chown <user:group> <path>  Change ownership (root or owner)\n  ln -s <target> <link>    Create symbolic link\n  echo <text>              Print text\n  edit <file.md>           Edit file (multi-line input, auto-commits)\n\nUser management:\n  adduser <name>           Create user (admin)\n  addagent <name>          Create agent with API token (admin)\n  deluser <name>           Delete user (root only)\n  addgroup <name>          Create group (admin)\n  delgroup <name>          Delete group (root only)\n  usermod -aG <grp> <user> Add user to group (admin)\n  usermod -rG <grp> <user> Remove user from group (admin)\n  groups [user]            Show group memberships\n  whoami                   Show current user\n  id [user]                Show user identity\n  su <user>                Switch user (root or wheel)\n\nVCS commands:\n  commit <message>         Commit current state\n  log                      Show commit history\n  revert <hash>            Revert to a commit\n  status                   Show modified files\n\nPipes:  grep \"TODO\" notes/ | head -5 | wc -l\n";

/// The commands of the shell, one per name it answers to.
#[derive(Clone, Copy, Debug, PartialEq, Eq, Structural)]
pub enum CommandKind {
    Ls,
    Cd,
    Pwd,
    Mkdir,
    Touch,
    Cat,
    Rm,
    Rmdir,
    Mv,
    Cp,
    Stat,
    Tree,
    Find,
    Grep,
    Head,
    Tail,
    Wc,
    Chmod,
    Chown,
    Ln,
    Echo,
    Write,
    Adduser,
    Addagent,
    Deluser,
    Addgroup,
    Delgroup,
    Usermod,
    Groups,
    Whoami,
    Id,
    Su,
    Delegate,
    Undelegate,
    Help,
    Clear,
}

/// Which command a program name selects, if any.
pub open spec fn kind_of(p: Seq<char>) -> Option<CommandKind> {
    if p == "ls"@ {
        Some(CommandKind::Ls)
    } else if p == "cd"@ {
        Some(CommandKind::Cd)
    } else if p == "pwd"@ {
        Some(CommandKind::Pwd)
    } else if p == "mkdir"@ {
        Some(CommandKind::Mkdir)
    } else if p == "touch"@ {
        Some(CommandKind::Touch)
    } else if p == "cat"@ {
        Some(CommandKind::Cat)
    } else if p == "rm"@ {
        Some(CommandKind::Rm)
    } else if p == "rmdir"@ {
        Some(CommandKind::Rmdir)
    } else if p == "mv"@ {
        Some(CommandKind::Mv)
    } else if p == "cp"@ {
        Some(CommandKind::Cp)
    } else if p == "stat"@ {
        Some(CommandKind::Stat)
    } else if p == "tree"@ {
        Some(CommandKind::Tree)
    } else if p == "find"@ {
        Some(CommandKind::Find)
    } else if p == "grep"@ {
        Some(CommandKind::Grep)
    } else if p == "head"@ {
        Some(CommandKind::Head)
    } else if p == "tail"@ {
        Some(CommandKind::Tail)
    } else if p == "wc"@ {
        Some(CommandKind::Wc)
    } else if p == "chmod"@ {
        Some(CommandKind::Chmod)
    } else if p == "chown"@ {
        Some(CommandKind::Chown)
    } else if p == "ln"@ {
        Some(CommandKind::Ln)
    } else if p == "echo"@ {
        Some(CommandKind::Echo)
    } else if p == "write"@ {
        Some(CommandKind::Write)
    } else if p == "adduser"@ {
        Some(CommandKind::Adduser)
    } else if p == "addagent"@ {
        Some(CommandKind::Addagent)
    } else if p == "deluser"@ {
        Some(CommandKind::Deluser)
    } else if p == "addgroup"@ {
        Some(CommandKind::Addgroup)
    } else if p == "delgroup"@ {
        Some(CommandKind::Delgroup)
    } else if p == "usermod"@ {
        Some(CommandKind::Usermod)
    } else if p == "groups"@ {
        Some(CommandKind::Groups)
    } else if p == "whoami"@ {
        Some(CommandKind::Whoami)
    } else if p == "id"@ {
        Some(CommandKind::Id)
    } else if p == "su"@ {
        Some(CommandKind::Su)
    } else if p == "delegate"@ {
        Some(CommandKind::Delegate)
    } else if p == "undelegate"@ {
        Some(CommandKind::Undelegate)
    } else if p == "help"@ {
        Some(CommandKind::Help)
    } else if p == "clear"@ {
        Some(CommandKind::Clear)
    } else {
        None
    }
}

/// Looks a program name up among the commands.
pub fn command_kind(p: &str) -> (k: Option<CommandKind>)
    ensures
        k == kind_of(p@),
{
    if str_eq(p, "ls") {
        Some(CommandKind::Ls)
    } else if str_eq(p, "cd") {
        Some(CommandKind::Cd)
    } else if str_eq(p, "pwd") {
        Some(CommandKind::Pwd)
    } else if str_eq(p, "mkdir") {
        Some(CommandKind::Mkdir)
    } else if str_eq(p, "touch") {
        Some(CommandKind::Touch)
    } else if str_eq(p, "cat") {
        Some(CommandKind::Cat)
    } else if str_eq(p, "rm") {
        Some(CommandKind::Rm)
    } else if str_eq(p, "rmdir") {
        Some(CommandKind::Rmdir)
    } else if str_eq(p, "mv") {
        Some(CommandKind::Mv)
    } else if str_eq(p, "cp") {
        Some(CommandKind::Cp)
    } else if str_eq(p, "stat") {
        Some(CommandKind::Stat)
    } else if str_eq(p, "tree") {
        Some(CommandKind::Tree)
    } else if str_eq(p, "find") {
        Some(CommandKind::Find)
    } else if str_eq(p, "grep") {
        Some(CommandKind::Grep)
    } else if str_eq(p, "head") {
        Some(CommandKind::Head)
    } else if str_eq(p, "tail") {
        Some(CommandKind::Tail)
    } else if str_eq(p, "wc") {
        Some(CommandKind::Wc)
    } else if str_eq(p, "chmod") {
        Some(CommandKind::Chmod)
    } else if str_eq(p, "chown") {
        Some(CommandKind::Chown)
    } else if str_eq(p, "ln") {
        Some(CommandKind::Ln)
    } else if str_eq(p, "echo") {
        Some(CommandKind::Echo)
    } else if str_eq(p, "write") {
        Some(CommandKind::Write)
    } else if str_eq(p, "adduser") {
        Some(CommandKind::Adduser)
    } else if str_eq(p, "addagent") {
        Some(CommandKind::Addagent)
    } else if str_eq(p, "deluser") {
        Some(CommandKind::Deluser)
    } else if str_eq(p, "addgroup") {
        Some(CommandKind::Addgroup)
    } else if str_eq(p, "delgroup") {
        Some(CommandKind::Delgroup)
    } else if str_eq(p, "usermod") {
        Some(CommandKind::Usermod)
    } else if str_eq(p, "groups") {
        Some(CommandKind::Groups)
    } else if str_eq(p, "whoami") {
        Some(CommandKind::Whoami)
    } else if str_eq(p, "id") {
        Some(CommandKind::Id)
    } else if str_eq(p, "su") {
        Some(CommandKind::Su)
    } else if str_eq(p, "delegate") {
        Some(CommandKind::Delegate)
    } else if str_eq(p, "undelegate") {
        Some(CommandKind::Undelegate)
    } else if str_eq(p, "help") {
        Some(CommandKind::Help)
    } else if str_eq(p, "clear") {
        Some(CommandKind::Clear)
    } else {
        None
    }
}

/// What `echo` answers and does: from file system `fs0` and session `s0` to
/// `fs1` and `s1`, with result `r`.
pub open spec fn echo_done(
    fs0: &VirtualFs,
    fs1: &VirtualFs,
    s0: &Session,
    s1: &Session,
    args: Seq<String>,
    stdin: Option<Seq<char>>,
    r: Result<String, VfsError>,
) -> bool {
    &&& r is Ok && r->Ok_0@ == join_with(texts(args), " "@) + "\n"@
    &&& *fs1 == *fs0
    &&& *s1 == *s0
}

/// What `head` answers and does: from file system `fs0` and session `s0` to
/// `fs1` and `s1`, with result `r`.
pub open spec fn head_done(
    fs0: &VirtualFs,
    fs1: &VirtualFs,
    s0: &Session,
    s1: &Session,
    args: Seq<String>,
    stdin: Option<Seq<char>>,
    r: Result<String, VfsError>,
) -> bool {
    &&& match stdin {
        None => r is Err && r->Err_0@ == ErrorView::InvalidArgs("head: no input"@),
        Some(input) => r is Ok && r->Ok_0@ == join_with(
            lines_of(input).take(
                if line_count(texts(args), args.len()) < lines_of(input).len() {
                    line_count(texts(args), args.len()) as int
                } else {
                    lines_of(input).len() as int
                },
            ),
            "\n"@,
        ) + "\n"@,
    }
    &&& *fs1 == *fs0
    &&& *s1 == *s0
}

/// What `tail` answers and does: from file system `fs0` and session `s0` to
/// `fs1` and `s1`, with result `r`.
pub open spec fn tail_done(
    fs0: &VirtualFs,
    fs1: &VirtualFs,
    s0: &Session,
    s1: &Session,
    args: Seq<String>,
    stdin: Option<Seq<char>>,
    r: Result<String, VfsError>,
) -> bool {
    &&& match stdin {
        None => r is Err && r->Err_0@ == ErrorView::InvalidArgs("tail: no input"@),
        Some(input) => r is Ok && r->Ok_0@ == join_with(
            lines_of(input).skip(
                if line_count(texts(args), args.len()) < lines_of(input).len() {
                    lines_of(input).len() - line_count(texts(args), args.len())
                } else {
                    0
                },
            ),
            "\n"@,
        ) + "\n"@,
    }
    &&& *fs1 == *fs0
    &&& *s1 == *s0
}

/// What `wc` answers and does: from file system `fs0` and session `s0` to
/// `fs1` and `s1`, with result `r`.
pub open spec fn wc_done(
    fs0: &VirtualFs,
    fs1: &VirtualFs,
    s0: &Session,
    s1: &Session,
    args: Seq<String>,
    stdin: Option<Seq<char>>,
    r: Result<String, VfsError>,
) -> bool {
    &&& match stdin {
        None => r is Err && r->Err_0@ == ErrorView::InvalidArgs("wc: no input"@),
        Some(input) => {
            let l = decimal(lines_of(input).len());
            let w = decimal(word_count(input));
            let c = decimal(vstd::utf8::encode_utf8(input).len());
            r is Ok && r->Ok_0@ == if texts(args).contains("-l"@) {
                l + "\n"@
            } else if texts(args).contains("-w"@) {
                w + "\n"@
            } else if texts(args).contains("-c"@) {
                c + "\n"@
            } else {
                l + " "@ + w + " "@ + c + "\n"@
            }
        },
    }
    &&& *fs1 == *fs0
    &&& *s1 == *s0
}

/// What `cat` answers and does: from file system `fs0` and session `s0` to
/// `fs1` and `s1`, with result `r`.
pub open spec fn cat_done(
    fs0: &VirtualFs,
    fs1: &VirtualFs,
    s0: &Session,
    s1: &Session,
    args: Seq<String>,
    stdin: Option<Seq<char>>,
    r: Result<String, VfsError>,
) -> bool {
    &&& args.len() == 0 ==> match stdin {
        Some(input) => r is Ok && r->Ok_0@ == input,
        None => r is Err && r->Err_0@ == ErrorView::InvalidArgs("cat: missing operand"@),
    }
    &&& args.len() > 0 ==> match cat_all(fs0, texts(args), s0) {
        Ok(t) => r is Ok && r->Ok_0@ == t,
        Err(e) => r is Err && r->Err_0@ == e,
    }
    &&& *fs1 == *fs0
    &&& *s1 == *s0
}

/// What `cd` answers and does: from file system `fs0` and session `s0` to
/// `fs1` and `s1`, with result `r`.
pub open spec fn cd_done(
    fs0: &VirtualFs,
    fs1: &VirtualFs,
    s0: &Session,
    s1: &Session,
    args: Seq<String>,
    stdin: Option<Seq<char>>,
    r: Result<String, VfsError>,
) -> bool {
    &&& fs1.wf()
    &&& ({
        let path = if args.len() > 0 {
            args[0]@
        } else {
            "/"@
        };
        match fs0.resolve_checked(path, *s0) {
            Err(e) => r is Err && r->Err_0@ == e && *fs1 == *fs0,
            Ok(t) => match access_error(fs0, t, s0, Access::Execute, path) {
                Some(e) => r is Err && r->Err_0@ == e && *fs1 == *fs0,
                None => r is Ok ==> r->Ok_0@.len() == 0 && (path == "/"@ || fs1.cwd()
                    == fs0.resolve(path)->Ok_0),
            },
        }
    })
    &&& *s1 == *s0
}

/// What `ls` answers and does: from file system `fs0` and session `s0` to
/// `fs1` and `s1`, with result `r`.
pub open spec fn ls_done(
    fs0: &VirtualFs,
    fs1: &VirtualFs,
    s0: &Session,
    s1: &Session,
    args: Seq<String>,
    stdin: Option<Seq<char>>,
    r: Result<String, VfsError>,
) -> bool {
    &&& ({
        let (long, pi) = ls_args(texts(args), args.len());
        let path: Option<Seq<char>> = match pi {
            Some(i) => Some(args[i]@),
            None => None,
        };
        let dir_path = match pi {
            Some(i) => args[i]@,
            None => "."@,
        };
        match fs0.resolve_checked(dir_path, *s0) {
            Err(e) => r is Err && r->Err_0@ == e,
            Ok(d) => match access_error(fs0, d, s0, Access::Read, dir_path) {
                Some(e) => r is Err && r->Err_0@ == e,
                None => match access_error(fs0, d, s0, Access::Execute, dir_path) {
                    Some(e) => r is Err && r->Err_0@ == e,
                    None => match ls_rows(fs0, path) {
                        Err(e) => r is Err && r->Err_0@ == e,
                        Ok(rows) => r is Ok && r->Ok_0@ == ls_text(fs0, rows, s0, long),
                    },
                },
            },
        }
    })
    &&& *fs1 == *fs0
    &&& *s1 == *s0
}

/// What `stat` answers and does: from file system `fs0` and session `s0` to
/// `fs1` and `s1`, with result `r`.
pub open spec fn stat_done(
    fs0: &VirtualFs,
    fs1: &VirtualFs,
    s0: &Session,
    s1: &Session,
    args: Seq<String>,
    stdin: Option<Seq<char>>,
    r: Result<String, VfsError>,
) -> bool {
    &&& args.len() == 0 ==> r is Err && r->Err_0@ == ErrorView::InvalidArgs("stat: missing operand"@)
    &&& args.len() > 0 ==> match fs0.resolve_checked(args[0]@, *s0) {
        Err(e) => r is Err && r->Err_0@ == e,
        Ok(_) => match fs0.resolve(args[0]@) {
            Err(e) => r is Err && r->Err_0@ == e,
            Ok(id) => if !fs0.inodes().contains_key(id) {
                r is Err && r->Err_0@ == ErrorView::NotFound(label(id))
            } else {
                r is Ok && r->Ok_0@ == stat_text(fs0, args[0]@, id, fs0.inodes()[id])
            },
        },
    }
    &&& *fs1 == *fs0
    &&& *s1 == *s0
}

/// What `tree` answers and does: from file system `fs0` and session `s0` to
/// `fs1` and `s1`, with result `r`.
pub open spec fn tree_done(
    fs0: &VirtualFs,
    fs1: &VirtualFs,
    s0: &Session,
    s1: &Session,
    args: Seq<String>,
    stdin: Option<Seq<char>>,
    r: Result<String, VfsError>,
) -> bool {
    &&& args.len() > 0 && path_checks(fs0, args[0]@, s0, true, true) is Some ==> r is Err && r->Err_0@
        == path_checks(fs0, args[0]@, s0, true, true)->0
    &&& args.len() == 0 || path_checks(fs0, args[0]@, s0, true, true) is None ==> ({
        let target = if args.len() > 0 {
            fs0.resolve(args[0]@)
        } else {
            Ok(fs0.cwd())
        };
        match target {
            Err(e) => r is Err && r->Err_0@ == e,
            Ok(id) => match fs0.tree_text(id, Seq::empty(), Some(s0), fs0.inodes().dom().len()) {
                Err(e) => r is Err && r->Err_0@ == e,
                Ok(t) => r is Ok && r->Ok_0@ == ".\n"@ + t,
            },
        }
    })
    &&& *fs1 == *fs0
    &&& *s1 == *s0
}

/// What `find` answers and does: from file system `fs0` and session `s0` to
/// `fs1` and `s1`, with result `r`.
pub open spec fn find_done(
    fs0: &VirtualFs,
    fs1: &VirtualFs,
    s0: &Session,
    s1: &Session,
    args: Seq<String>,
    stdin: Option<Seq<char>>,
    r: Result<String, VfsError>,
) -> bool {
    &&& ({
        let (pi, qi) = find_scan(texts(args), 0, None, None);
        let path = arg_at(texts(args), pi);
        let pattern = arg_at(texts(args), qi);
        match path {
            Some(p) if path_checks(fs0, p, s0, true, true) is Some => r is Err && r->Err_0@
                == path_checks(fs0, p, s0, true, true)->0,
            _ => match fs0.find_result(path, pattern, Some(s0)) {
                Err(e) => r is Err && r->Err_0@ == e,
                Ok(rows) => r is Ok && r->Ok_0@ == lines_text(rows),
            },
        }
    })
    &&& *fs1 == *fs0
    &&& *s1 == *s0
}

/// What `grep` answers and does: from file system `fs0` and session `s0` to
/// `fs1` and `s1`, with result `r`.
pub open spec fn grep_done(
    fs0: &VirtualFs,
    fs1: &VirtualFs,
    s0: &Session,
    s1: &Session,
    args: Seq<String>,
    stdin: Option<Seq<char>>,
    r: Result<String, VfsError>,
) -> bool {
    &&& match stdin {
        Some(input) => if args.len() == 0 {
            r is Err && r->Err_0@ == ErrorView::InvalidArgs("grep: missing pattern"@)
        } else {
            match regex_compiled(args[0]@) {
                Err(msg) => r is Err && r->Err_0@ == ErrorView::InvalidArgs("invalid regex: "@ + msg),
                Ok(_) => r is Ok && r->Ok_0@ == matching_text(args[0]@, lines_of(input)),
            }
        },
        None => {
            let (rec, pi, qi) = grep_args(texts(args), args.len());
            match pi {
                None => r is Err && r->Err_0@ == ErrorView::InvalidArgs("grep: missing pattern"@),
                Some(p) => match arg_at(texts(args), qi) {
                    Some(path) if path_checks(fs0, path, s0, true, false) is Some => r is Err
                        && r->Err_0@ == path_checks(fs0, path, s0, true, false)->0,
                    _ => match fs0.grep_result(args[p]@, arg_at(texts(args), qi), rec, Some(s0)) {
                        Err(e) => r is Err && r->Err_0@ == e,
                        Ok(rows) => r is Ok && r->Ok_0@ == grep_text(rows),
                    },
                },
            }
        },
    }
    &&& *fs1 == *fs0
    &&& *s1 == *s0
}

/// What `mkdir` answers and does: from file system `fs0` and session `s0` to
/// `fs1` and `s1`, with result `r`.
pub open spec fn mkdir_done(
    fs0: &VirtualFs,
    fs1: &VirtualFs,
    s0: &Session,
    s1: &Session,
    args: Seq<String>,
    stdin: Option<Seq<char>>,
    r: Result<String, VfsError>,
) -> bool {
    &&& fs1.wf()
    &&& (forall|i: int| 0 <= i < args.len() ==> args[i]@ == "-p"@) ==> r is Err && r->Err_0@
        == ErrorView::InvalidArgs("mkdir: missing operand"@) && *fs1 == *fs0
    &&& r is Ok ==> r->Ok_0@.len() == 0
    &&& !(forall|i: int| 0 <= i < args.len() ==> args[i]@ == "-p"@) ==> {
        let ps = non_flags(texts(args), "-p"@);
        each_done(mkdir_op(texts(args)), *fs0, ps, *s0, ps.len(), *fs1, unit_view(r))
    }
    &&& *s1 == *s0
}

/// What `touch` answers and does: from file system `fs0` and session `s0` to
/// `fs1` and `s1`, with result `r`.
pub open spec fn touch_done(
    fs0: &VirtualFs,
    fs1: &VirtualFs,
    s0: &Session,
    s1: &Session,
    args: Seq<String>,
    stdin: Option<Seq<char>>,
    r: Result<String, VfsError>,
) -> bool {
    &&& fs1.wf()
    &&& args.len() == 0 ==> r is Err && r->Err_0@ == ErrorView::InvalidArgs("touch: missing operand"@)
    &&& r is Ok ==> r->Ok_0@.len() == 0
    &&& args.len() > 0 ==> each_done(EachOp::Touch, *fs0, texts(args), *s0, args.len(), *fs1, unit_view(r))
    &&& *s1 == *s0
}

/// What `rm` answers and does: from file system `fs0` and session `s0` to
/// `fs1` and `s1`, with result `r`.
pub open spec fn rm_done(
    fs0: &VirtualFs,
    fs1: &VirtualFs,
    s0: &Session,
    s1: &Session,
    args: Seq<String>,
    stdin: Option<Seq<char>>,
    r: Result<String, VfsError>,
) -> bool {
    &&& fs1.wf()
    &&& (forall|i: int| 0 <= i < args.len() ==> args[i]@ == "-r"@ || args[i]@ == "-rf"@ || args[i]@ == "-fr"@)
        ==> r is Err && r->Err_0@ == ErrorView::InvalidArgs("rm: missing operand"@) && *fs1 == *fs0
    &&& r is Ok ==> r->Ok_0@.len() == 0
    &&& !(forall|i: int| 0 <= i < args.len() ==> is_rm_flag(args[i]@)) ==> {
        let ps = rm_operands(texts(args));
        each_done(rm_op(texts(args)), *fs0, ps, *s0, ps.len(), *fs1, unit_view(r))
    }
    &&& *s1 == *s0
}

/// What `rmdir` answers and does: from file system `fs0` and session `s0` to
/// `fs1` and `s1`, with result `r`.
pub open spec fn rmdir_done(
    fs0: &VirtualFs,
    fs1: &VirtualFs,
    s0: &Session,
    s1: &Session,
    args: Seq<String>,
    stdin: Option<Seq<char>>,
    r: Result<String, VfsError>,
) -> bool {
    &&& fs1.wf()
    &&& args.len() == 0 ==> r is Err && r->Err_0@ == ErrorView::InvalidArgs("rmdir: missing operand"@)
    &&& r is Ok ==> r->Ok_0@.len() == 0
    &&& args.len() > 0 ==> each_done(EachOp::Rmdir, *fs0, texts(args), *s0, args.len(), *fs1, unit_view(r))
    &&& *s1 == *s0
}

/// What `mv` answers and does: from file system `fs0` and session `s0` to
/// `fs1` and `s1`, with result `r`.
pub open spec fn mv_done(
    fs0: &VirtualFs,
    fs1: &VirtualFs,
    s0: &Session,
    s1: &Session,
    args: Seq<String>,
    stdin: Option<Seq<char>>,
    r: Result<String, VfsError>,
) -> bool {
    &&& fs1.wf()
    &&& args.len() < 2 ==> r is Err && r->Err_0@ == ErrorView::InvalidArgs("mv: need source and destination"@)
        && *fs1 == *fs0
    &&& r is Ok ==> r->Ok_0@.len() == 0 && fs1.inodes().dom() == fs0.inodes().dom()
    &&& args.len() >= 2 ==> moved(fs0, fs1, args[0]@, args[1]@, s0, r)
    &&& *s1 == *s0
}

/// What `cp` answers and does: from file system `fs0` and session `s0` to
/// `fs1` and `s1`, with result `r`.
pub open spec fn cp_done(
    fs0: &VirtualFs,
    fs1: &VirtualFs,
    s0: &Session,
    s1: &Session,
    args: Seq<String>,
    stdin: Option<Seq<char>>,
    r: Result<String, VfsError>,
) -> bool {
    &&& fs1.wf()
    &&& args.len() < 2 ==> r is Err && r->Err_0@ == ErrorView::InvalidArgs("cp: need source and destination"@)
        && *fs1 == *fs0
    &&& r is Ok ==> r->Ok_0@.len() == 0
    &&& args.len() >= 2 ==> copied(fs0, fs1, args[0]@, args[1]@, s0, r)
    &&& *s1 == *s0
}

/// What `chmod` answers and does: from file system `fs0` and session `s0` to
/// `fs1` and `s1`, with result `r`.
pub open spec fn chmod_done(
    fs0: &VirtualFs,
    fs1: &VirtualFs,
    s0: &Session,
    s1: &Session,
    args: Seq<String>,
    stdin: Option<Seq<char>>,
    r: Result<String, VfsError>,
) -> bool {
    &&& fs1.wf()
    &&& args.len() < 2 ==> r is Err && r->Err_0@ == ErrorView::InvalidArgs("chmod: need mode and file"@)
        && *fs1 == *fs0
    &&& args.len() >= 2 ==> {
        let mode = unsigned_value(args[0]@, 8);
        if mode is None || mode->0 > u16::MAX {
            r is Err && r->Err_0@ == ErrorView::InvalidArgs("chmod: invalid mode: "@ + args[0]@)
                && *fs1 == *fs0
        } else {
            match fs0.resolve_checked(args[1]@, *s0) {
                Err(e) => r is Err && r->Err_0@ == e && *fs1 == *fs0,
                Ok(id) => if !fs0.inodes().contains_key(id) {
                    r is Err && r->Err_0@ == ErrorView::NotFound(label(id)) && *fs1 == *fs0
                } else if !s0.spec_is_effective_owner(fs0.inodes()[id].uid) {
                    r is Err && r->Err_0@ == ErrorView::PermissionDenied(args[1]@) && *fs1
                        == *fs0
                } else {
                    match fs0.resolve(args[1]@) {
                        Err(e) => r is Err && r->Err_0@ == e,
                        Ok(t) => if !fs0.inodes().contains_key(t) {
                            r is Err && r->Err_0@ == ErrorView::NotFound(label(t))
                        } else {
                            r is Ok && r->Ok_0@.len() == 0 && fs1.inodes() == fs0.inodes().insert(
                                t,
                                crate::fs::inode::InodeView { mode: mode->0 as u16, ..fs0.inodes()[t] },
                            )
                        },
                    }
                }
            }
        }
    }
    &&& *s1 == *s0
}

/// What `chown` answers and does: from file system `fs0` and session `s0` to
/// `fs1` and `s1`, with result `r`.
pub open spec fn chown_done(
    fs0: &VirtualFs,
    fs1: &VirtualFs,
    s0: &Session,
    s1: &Session,
    args: Seq<String>,
    stdin: Option<Seq<char>>,
    r: Result<String, VfsError>,
) -> bool {
    &&& fs1.wf()
    &&& fs1.frame(fs0)
    &&& fs1.next_id() == fs0.next_id()
    &&& args.len() < 2 ==> r is Err && r->Err_0@ == ErrorView::InvalidArgs(
        "chown: need owner[:group] and file"@,
    ) && *fs1 == *fs0
    &&& args.len() >= 2 ==> match fs0.resolve_checked(args[1]@, *s0) {
        Err(e) => r is Err && r->Err_0@ == e && *fs1 == *fs0,
        Ok(id) => if !fs0.inodes().contains_key(id) {
            r is Err && r->Err_0@ == ErrorView::NotFound(label(id)) && *fs1 == *fs0
        } else {
            let v = fs0.inodes()[id];
            let spec = args[0]@;
            let path = args[1]@;
            match chown_owner(fs0.reg(), *s0, owner_part(spec), path) {
                Err(e) => r is Err && r->Err_0@ == e && *fs1 == *fs0,
                Ok(u) => {
                    let owner = match u {
                        Some(x) => x,
                        None => v.uid,
                    };
                    let mid = if u is Some {
                        fs0.inodes().insert(id, InodeView { uid: owner, ..v })
                    } else {
                        fs0.inodes()
                    };
                    match chown_group(fs0.reg(), *s0, group_part(spec), owner, path) {
                        Err(e) => r is Err && r->Err_0@ == e && fs1.inodes() == mid,
                        Ok(g) => r is Ok && fs1.inodes() == (match g {
                            Some(gid) => fs0.inodes().insert(id, InodeView { uid: owner, gid, ..v }),
                            None => mid,
                        }),
                    }
                },
            }
        },
    }
    &&& r is Ok ==> r->Ok_0@.len() == 0
    &&& *s1 == *s0
}

/// What `ln` answers and does: from file system `fs0` and session `s0` to
/// `fs1` and `s1`, with result `r`.
pub open spec fn ln_done(
    fs0: &VirtualFs,
    fs1: &VirtualFs,
    s0: &Session,
    s1: &Session,
    args: Seq<String>,
    stdin: Option<Seq<char>>,
    r: Result<String, VfsError>,
) -> bool {
    &&& fs1.wf()
    &&& r is Ok ==> r->Ok_0@.len() == 0
    &&& ({
        let ts = non_flags(texts(args), "-s"@);
        if ts.len() < 2 {
            r is Err && r->Err_0@ == ErrorView::InvalidArgs("ln: need target and link name"@) && *fs1
                == *fs0
        } else {
            match parent_wx_error(fs0, ts[1], s0) {
                Some(e) => r is Err && r->Err_0@ == e && *fs1 == *fs0,
                None => if texts(args).contains("-s"@) {
                    if fs0.next_id() == u64::MAX {
                        r is Err && r->Err_0@ == ErrorView::NotSupported("inode ids exhausted"@) && *fs1
                            == *fs0
                    } else {
                        VirtualFs::ln_s_done(
                            fs0,
                            fs1,
                            ts[0],
                            ts[1],
                            s0.spec_effective_uid(),
                            s0.spec_effective_gid(),
                            match r {
                                Ok(_) => Ok(()),
                                Err(e) => Err(e@),
                            },
                        )
                    }
                } else {
                    &&& *fs1 == *fs0
                    &&& match fs0.resolve_checked(ts[0], *s0) {
                        Err(e) => r is Err && r->Err_0@ == e,
                        Ok(id) => match access_error(fs0, id, s0, Access::Read, ts[0]) {
                            Some(e) => r is Err && r->Err_0@ == e,
                            None => r is Err && r->Err_0@ == ErrorView::NotSupported("hard links"@),
                        },
                    }
                },
            }
        }
    })
    &&& *s1 == *s0
}

/// What `write` answers and does: from file system `fs0` and session `s0` to
/// `fs1` and `s1`, with result `r`.
pub open spec fn write_done(
    fs0: &VirtualFs,
    fs1: &VirtualFs,
    s0: &Session,
    s1: &Session,
    args: Seq<String>,
    stdin: Option<Seq<char>>,
    r: Result<String, VfsError>,
) -> bool {
    &&& fs1.wf()
    &&& args.len() == 0 ==> r is Err && r->Err_0@ == ErrorView::InvalidArgs("write: need file path"@)
        && *fs1 == *fs0
    &&& args.len() == 1 && stdin is None ==> r is Err && r->Err_0@ == ErrorView::InvalidArgs(
        "write: need content (pipe input or provide as args)"@,
    ) && *fs1 == *fs0
    &&& r is Ok ==> r->Ok_0@.len() == 0 && fs1.read(args[0]@) == Ok::<Seq<u8>, ErrorView>(
        vstd::utf8::encode_utf8(
            match stdin {
                Some(input) => input,
                None => join_with(texts(args.skip(1)), " "@),
            },
        ),
    )
    &&& args.len() >= 1 && (stdin is Some || args.len() > 1) && write_owed(fs0, args[0]@, s0) ==> r is Ok
    &&& *s1 == *s0
}

/// What `adduser` answers and does: from file system `fs0` and session `s0` to
/// `fs1` and `s1`, with result `r`.
pub open spec fn adduser_done(
    fs0: &VirtualFs,
    fs1: &VirtualFs,
    s0: &Session,
    s1: &Session,
    args: Seq<String>,
    stdin: Option<Seq<char>>,
    r: Result<String, VfsError>,
) -> bool {
    &&& fs1.wf()
    &&& admin_error(s0) is Some ==> r is Err && r->Err_0@ == admin_error(s0)->0 && *fs1 == *fs0
    &&& admin_error(s0) is None && args.len() == 0 ==> r is Err && r->Err_0@ == ErrorView::InvalidArgs(
        "adduser: missing username"@,
    ) && *fs1 == *fs0
    &&& admin_error(s0) is None && args.len() > 0 && fs0.reg().uid_index().contains_key(args[0]@)
        ==> r is Err && r->Err_0@ == ErrorView::AuthError("user already exists: "@ + args[0]@)
    &&& r is Ok ==> fs1.reg().uid_index().contains_key(args[0]@) && r->Ok_0@.take(
        ("User '"@ + args[0]@ + "' created (uid="@ + decimal(fs1.reg().uid_index()[args[0]@] as nat)
            + ")\n"@).len() as int,
    ) == "User '"@ + args[0]@ + "' created (uid="@ + decimal(
        fs1.reg().uid_index()[args[0]@] as nat,
    ) + ")\n"@
    &&& admin_error(s0) is None && args.len() > 0 ==> added_user(fs0, fs1, args[0]@, r)
    &&& *s1 == *s0
}

/// What `addagent` answers and does: from file system `fs0` and session `s0` to
/// `fs1` and `s1`, with result `r`.
pub open spec fn addagent_done(
    fs0: &VirtualFs,
    fs1: &VirtualFs,
    s0: &Session,
    s1: &Session,
    args: Seq<String>,
    stdin: Option<Seq<char>>,
    r: Result<String, VfsError>,
) -> bool {
    &&& fs1.wf()
    &&& admin_error(s0) is Some ==> r is Err && r->Err_0@ == admin_error(s0)->0 && *fs1 == *fs0
    &&& admin_error(s0) is None && args.len() == 0 ==> r is Err && r->Err_0@ == ErrorView::InvalidArgs(
        "addagent: missing agent name"@,
    ) && *fs1 == *fs0
    &&& admin_error(s0) is None && args.len() > 0 ==> added_agent(fs0, fs1, args[0]@, r)
    &&& *s1 == *s0
}

/// What `deluser` answers and does: from file system `fs0` and session `s0` to
/// `fs1` and `s1`, with result `r`.
pub open spec fn deluser_done(
    fs0: &VirtualFs,
    fs1: &VirtualFs,
    s0: &Session,
    s1: &Session,
    args: Seq<String>,
    stdin: Option<Seq<char>>,
    r: Result<String, VfsError>,
) -> bool {
    &&& fs1.wf()
    &&& !s0.spec_is_effectively_root() ==> r is Err && r->Err_0@ == ErrorView::PermissionDenied(
        "deluser: root only"@,
    ) && *fs1 == *fs0
    &&& s0.spec_is_effectively_root() && args.len() == 0 ==> r is Err && r->Err_0@
        == ErrorView::InvalidArgs("deluser: missing username"@) && *fs1 == *fs0
    &&& r is Ok ==> r->Ok_0@ == "User '"@ + args[0]@ + "' deleted\n"@
    &&& s0.spec_is_effectively_root() && args.len() > 0 ==> deleted_user(fs0, fs1, args[0]@, r)
    &&& *s1 == *s0
}

/// What `addgroup` answers and does: from file system `fs0` and session `s0` to
/// `fs1` and `s1`, with result `r`.
pub open spec fn addgroup_done(
    fs0: &VirtualFs,
    fs1: &VirtualFs,
    s0: &Session,
    s1: &Session,
    args: Seq<String>,
    stdin: Option<Seq<char>>,
    r: Result<String, VfsError>,
) -> bool {
    &&& fs1.wf()
    &&& admin_error(s0) is Some ==> r is Err && r->Err_0@ == admin_error(s0)->0 && *fs1 == *fs0
    &&& admin_error(s0) is None && args.len() == 0 ==> r is Err && r->Err_0@ == ErrorView::InvalidArgs(
        "addgroup: missing group name"@,
    ) && *fs1 == *fs0
    &&& r is Ok ==> fs1.reg().gid_index().contains_key(args[0]@) && r->Ok_0@ == "Group '"@ + args[0]@
        + "' created (gid="@ + decimal(fs1.reg().gid_index()[args[0]@] as nat) + ")\n"@
    &&& admin_error(s0) is None && args.len() > 0 ==> added_group(fs0, fs1, args[0]@, r)
    &&& *s1 == *s0
}

/// What `delgroup` answers and does: from file system `fs0` and session `s0` to
/// `fs1` and `s1`, with result `r`.
pub open spec fn delgroup_done(
    fs0: &VirtualFs,
    fs1: &VirtualFs,
    s0: &Session,
    s1: &Session,
    args: Seq<String>,
    stdin: Option<Seq<char>>,
    r: Result<String, VfsError>,
) -> bool {
    &&& fs1.wf()
    &&& !s0.spec_is_effectively_root() ==> r is Err && r->Err_0@ == ErrorView::PermissionDenied(
        "delgroup: root only"@,
    ) && *fs1 == *fs0
    &&& s0.spec_is_effectively_root() && args.len() == 0 ==> r is Err && r->Err_0@
        == ErrorView::InvalidArgs("delgroup: missing group name"@) && *fs1 == *fs0
    &&& r is Ok ==> r->Ok_0@ == "Group '"@ + args[0]@ + "' deleted\n"@
    &&& s0.spec_is_effectively_root() && args.len() > 0 ==> deleted_group(fs0, fs1, args[0]@, r)
    &&& *s1 == *s0
}

/// What `usermod` answers and does: from file system `fs0` and session `s0` to
/// `fs1` and `s1`, with result `r`.
pub open spec fn usermod_done(
    fs0: &VirtualFs,
    fs1: &VirtualFs,
    s0: &Session,
    s1: &Session,
    args: Seq<String>,
    stdin: Option<Seq<char>>,
    r: Result<String, VfsError>,
) -> bool {
    &&& fs1.wf()
    &&& admin_error(s0) is Some ==> r is Err && r->Err_0@ == admin_error(s0)->0 && *fs1 == *fs0
    &&& admin_error(s0) is None && (args.len() < 3 || (args[0]@ != "-aG"@ && args[0]@ != "-rG"@))
        ==> r is Err && r->Err_0@ == ErrorView::InvalidArgs(usermod_usage()) && *fs1 == *fs0
    &&& r is Ok && args[0]@ == "-aG"@ ==> r->Ok_0@ == "Added '"@ + args[2]@ + "' to group '"@ + args[1]@ + "'\n"@
    &&& r is Ok && args[0]@ == "-rG"@ ==> r->Ok_0@ == "Removed '"@ + args[2]@ + "' from group '"@ + args[1]@
        + "'\n"@
    &&& admin_error(s0) is None && args.len() >= 3 && (args[0]@ == "-aG"@ || args[0]@ == "-rG"@)
        ==> changed_membership(fs0, fs1, args[2]@, args[1]@, r)
    &&& *s1 == *s0
}

/// What `groups` answers and does: from file system `fs0` and session `s0` to
/// `fs1` and `s1`, with result `r`.
pub open spec fn groups_done(
    fs0: &VirtualFs,
    fs1: &VirtualFs,
    s0: &Session,
    s1: &Session,
    args: Seq<String>,
    stdin: Option<Seq<char>>,
    r: Result<String, VfsError>,
) -> bool {
    &&& args.len() > 0 && s0.uid != ROOT_UID && args[0]@ != s0.username@ ==> r is Err && r->Err_0@
        == ErrorView::PermissionDenied("groups"@)
    &&& !(args.len() > 0 && s0.uid != ROOT_UID && args[0]@ != s0.username@) ==> {
        let name = if args.len() == 0 {
            s0.username@
        } else {
            args[0]@
        };
        match crate::auth::registry::user_of(fs0.reg().users(), fs0.reg().uid_index()[name]) {
            Some(u) if fs0.reg().uid_index().contains_key(name) => r is Ok && r->Ok_0@ == join_with(
                group_names(fs0, u.groups),
                " "@,
            ) + "\n"@,
            _ => r is Err && r->Err_0@ == ErrorView::AuthError("no such user: "@ + name),
        }
    }
    &&& *fs1 == *fs0
    &&& *s1 == *s0
}

/// What `id` answers and does: from file system `fs0` and session `s0` to
/// `fs1` and `s1`, with result `r`.
pub open spec fn id_done(
    fs0: &VirtualFs,
    fs1: &VirtualFs,
    s0: &Session,
    s1: &Session,
    args: Seq<String>,
    stdin: Option<Seq<char>>,
    r: Result<String, VfsError>,
) -> bool {
    &&& ({
        let name = if args.len() == 0 {
            s0.username@
        } else {
            args[0]@
        };
        match crate::auth::registry::user_of(fs0.reg().users(), fs0.reg().uid_index()[name]) {
            Some(u) if fs0.reg().uid_index().contains_key(name) => {
                let pg = crate::auth::first_or_zero(u.groups);
                r is Ok && r->Ok_0@ == "uid="@ + decimal(u.uid as nat) + "("@ + u.name + ") gid="@ + decimal(
                    pg as nat,
                ) + "("@ + group_text(fs0, pg) + ") groups="@ + join_with(group_labels(fs0, u.groups), ","@)
                    + "\n"@
            },
            _ => r is Err && r->Err_0@ == ErrorView::AuthError("no such user: "@ + name),
        }
    })
    &&& *fs1 == *fs0
    &&& *s1 == *s0
}

/// What `su` answers and does: from file system `fs0` and session `s0` to
/// `fs1` and `s1`, with result `r`.
pub open spec fn su_done(
    fs0: &VirtualFs,
    fs1: &VirtualFs,
    s0: &Session,
    s1: &Session,
    args: Seq<String>,
    stdin: Option<Seq<char>>,
    r: Result<String, VfsError>,
) -> bool {
    &&& args.len() == 0 ==> r is Err && r->Err_0@ == ErrorView::InvalidArgs("su: missing username"@)
        && *s1 == *s0
    &&& args.len() > 0 && !is_admin(s0.uid, s0.groups@) ==> r is Err && r->Err_0@
        == ErrorView::PermissionDenied("su: must be root or wheel member to switch user"@)
        && *s1 == *s0
    &&& args.len() > 0 && is_admin(s0.uid, s0.groups@) ==> match crate::auth::registry::user_of(
        fs0.reg().users(),
        fs0.reg().uid_index()[args[0]@],
    ) {
        Some(u) if fs0.reg().uid_index().contains_key(args[0]@) => {
            &&& r is Ok
            &&& r->Ok_0@ == "Switched to user '"@ + u.name + "'\n"@
            &&& s1.uid == u.uid
            &&& s1.gid == crate::auth::first_or_zero(u.groups)
            &&& s1.groups@ == u.groups
            &&& s1.username@ == u.name
            &&& s1.delegate == s0.delegate
        },
        _ => r is Err && r->Err_0@ == ErrorView::AuthError("no such user: "@ + args[0]@) && *s1
            == *s0,
    }
    &&& *fs1 == *fs0
}

/// What `delegate` answers and does: from file system `fs0` and session `s0` to
/// `fs1` and `s1`, with result `r`.
pub open spec fn delegate_done(
    fs0: &VirtualFs,
    fs1: &VirtualFs,
    s0: &Session,
    s1: &Session,
    args: Seq<String>,
    stdin: Option<Seq<char>>,
    r: Result<String, VfsError>,
) -> bool {
    &&& r is Err ==> *s1 == *s0
    &&& r is Ok ==> s1.uid == s0.uid && s1.groups == s0.groups
        && s1.delegate is Some
    &&& args.len() == 0 ==> r is Err && r->Err_0@ == ErrorView::InvalidArgs(
        "delegate: usage: delegate <user> or delegate :<group>"@,
    )
    &&& args.len() > 0 && !is_admin(s0.uid, s0.groups@) && !(crate::auth::registry::user_of(
        fs0.reg().users(),
        s0.uid,
    ) matches Some(u) && u.is_agent) ==> r is Err && r->Err_0@ == ErrorView::PermissionDenied(
        "delegate: only agents or admins can delegate"@,
    )
    &&& args.len() > 0 && (is_admin(s0.uid, s0.groups@) || (crate::auth::registry::user_of(
        fs0.reg().users(),
        s0.uid,
    ) matches Some(u) && u.is_agent)) ==> {
        let t = args[0]@;
        if t.len() > 0 && t[0] == ':' {
            let g = t.drop_first();
            if !fs0.reg().gid_index().contains_key(g) {
                r is Err && r->Err_0@ == ErrorView::AuthError("no such group: "@ + g)
            } else {
                &&& r is Ok
                &&& r->Ok_0@ == "Now acting on behalf of group '"@ + g + "' (effective: intersection)\n"@
                &&& s1.delegate->0.uid == u32::MAX
                &&& s1.delegate->0.gid == fs0.reg().gid_index()[g]
                &&& s1.delegate->0.groups@ == seq![fs0.reg().gid_index()[g]]
                &&& s1.delegate->0.username@ == ":"@ + g
            }
        } else if !fs0.reg().uid_index().contains_key(t) {
            r is Err && r->Err_0@ == ErrorView::AuthError("no such user: "@ + t)
        } else {
            &&& crate::auth::registry::user_of(fs0.reg().users(), fs0.reg().uid_index()[t]) matches Some(u)
                && r is Ok && r->Ok_0@ == "Now acting on behalf of '"@ + u.name + "' (effective: intersection)\n"@
                && s1.delegate->0.uid == u.uid && s1.delegate->0.groups@ == u.groups
                && s1.delegate->0.gid == crate::auth::first_or_zero(u.groups)
                && s1.delegate->0.username@ == u.name
        }
    }
    &&& *fs1 == *fs0
}

/// What `undelegate` answers and does: from file system `fs0` and session `s0` to
/// `fs1` and `s1`, with result `r`.
pub open spec fn undelegate_done(
    fs0: &VirtualFs,
    fs1: &VirtualFs,
    s0: &Session,
    s1: &Session,
    args: Seq<String>,
    stdin: Option<Seq<char>>,
    r: Result<String, VfsError>,
) -> bool {
    &&& s1.uid == s0.uid
    &&& s1.groups == s0.groups
    &&& s1.delegate is None
    &&& match s0.delegate {
        None => r is Ok && r->Ok_0@ == "No active delegation\n"@,
        Some(d) => r is Ok && r->Ok_0@ == "Delegation for '"@ + d.username@ + "' ended\n"@,
    }
    &&& *fs1 == *fs0
}

/// The text of optional input.
pub open spec fn input_of(stdin: Option<&str>) -> Option<Seq<char>> {
    match stdin {
        Some(t) => Some(t@),
        None => None,
    }
}

/// What running `cmd` with input `stdin` answers and does: from file system
/// `fs0` and session `s0` to `fs1` and `s1`, with result `r`.
pub open spec fn command_done(
    fs0: &VirtualFs,
    fs1: &VirtualFs,
    s0: &Session,
    s1: &Session,
    cmd: ParsedCommand,
    stdin: Option<Seq<char>>,
    r: Result<String, VfsError>,
) -> bool {
    match kind_of(cmd.program@) {
        None => r is Err && r->Err_0@ == ErrorView::UnknownCommand(cmd.program@) && *fs1 == *fs0 && *s1 == *s0,
        Some(CommandKind::Pwd) => r is Ok && r->Ok_0@ == crate::fs::pwd_of(fs0.cwd_path()) + "\n"@ && *fs1 == *fs0
            && *s1 == *s0,
        Some(CommandKind::Whoami) => r is Ok && r->Ok_0@ == s0.username@ + "\n"@ && *fs1 == *fs0 && *s1 == *s0,
        Some(CommandKind::Help) => r is Ok && r->Ok_0@ == HELP_TEXT@ && *fs1 == *fs0 && *s1 == *s0,
        Some(CommandKind::Clear) => r is Ok && r->Ok_0@ == "\x1b[2J\x1b[H"@ && *fs1 == *fs0 && *s1 == *s0,
        Some(CommandKind::Ls) => ls_done(fs0, fs1, s0, s1, cmd.args@, stdin, r),
        Some(CommandKind::Cd) => cd_done(fs0, fs1, s0, s1, cmd.args@, stdin, r),
        Some(CommandKind::Mkdir) => mkdir_done(fs0, fs1, s0, s1, cmd.args@, stdin, r),
        Some(CommandKind::Touch) => touch_done(fs0, fs1, s0, s1, cmd.args@, stdin, r),
        Some(CommandKind::Cat) => cat_done(fs0, fs1, s0, s1, cmd.args@, stdin, r),
        Some(CommandKind::Rm) => rm_done(fs0, fs1, s0, s1, cmd.args@, stdin, r),
        Some(CommandKind::Rmdir) => rmdir_done(fs0, fs1, s0, s1, cmd.args@, stdin, r),
        Some(CommandKind::Mv) => mv_done(fs0, fs1, s0, s1, cmd.args@, stdin, r),
        Some(CommandKind::Cp) => cp_done(fs0, fs1, s0, s1, cmd.args@, stdin, r),
        Some(CommandKind::Stat) => stat_done(fs0, fs1, s0, s1, cmd.args@, stdin, r),
        Some(CommandKind::Tree) => tree_done(fs0, fs1, s0, s1, cmd.args@, stdin, r),
        Some(CommandKind::Find) => find_done(fs0, fs1, s0, s1, cmd.args@, stdin, r),
        Some(CommandKind::Grep) => grep_done(fs0, fs1, s0, s1, cmd.args@, stdin, r),
        Some(CommandKind::Head) => head_done(fs0, fs1, s0, s1, cmd.args@, stdin, r),
        Some(CommandKind::Tail) => tail_done(fs0, fs1, s0, s1, cmd.args@, stdin, r),
        Some(CommandKind::Wc) => wc_done(fs0, fs1, s0, s1, cmd.args@, stdin, r),
        Some(CommandKind::Chmod) => chmod_done(fs0, fs1, s0, s1, cmd.args@, stdin, r),
        Some(CommandKind::Chown) => chown_done(fs0, fs1, s0, s1, cmd.args@, stdin, r),
        Some(CommandKind::Ln) => ln_done(fs0, fs1, s0, s1, cmd.args@, stdin, r),
        Some(CommandKind::Echo) => echo_done(fs0, fs1, s0, s1, cmd.args@, stdin, r),
        Some(CommandKind::Write) => write_done(fs0, fs1, s0, s1, cmd.args@, stdin, r),
        Some(CommandKind::Adduser) => adduser_done(fs0, fs1, s0, s1, cmd.args@, stdin, r),
        Some(CommandKind::Addagent) => addagent_done(fs0, fs1, s0, s1, cmd.args@, stdin, r),
        Some(CommandKind::Deluser) => deluser_done(fs0, fs1, s0, s1, cmd.args@, stdin, r),
        Some(CommandKind::Addgroup) => addgroup_done(fs0, fs1, s0, s1, cmd.args@, stdin, r),
        Some(CommandKind::Delgroup) => delgroup_done(fs0, fs1, s0, s1, cmd.args@, stdin, r),
        Some(CommandKind::Usermod) => usermod_done(fs0, fs1, s0, s1, cmd.args@, stdin, r),
        Some(CommandKind::Groups) => groups_done(fs0, fs1, s0, s1, cmd.args@, stdin, r),
        Some(CommandKind::Id) => id_done(fs0, fs1, s0, s1, cmd.args@, stdin, r),
        Some(CommandKind::Su) => su_done(fs0, fs1, s0, s1, cmd.args@, stdin, r),
        Some(CommandKind::Delegate) => delegate_done(fs0, fs1, s0, s1, cmd.args@, stdin, r),
        Some(CommandKind::Undelegate) => undelegate_done(fs0, fs1, s0, s1, cmd.args@, stdin, r),
    }
}

/// Runs one command with the output of the command before it, if any.
fn execute_command(cmd: &ParsedCommand, fs: &mut VirtualFs, session: &mut Session, stdin: Option<&str>) -> (r:
    Result<String, VfsError>)
    requires
        old(fs).wf(),
    ensures
        final(fs).wf(),
        kind_of(cmd.program@) is None ==> r is Err && r->Err_0@ == ErrorView::UnknownCommand(cmd.program@)
            && *final(fs) == *old(fs) && *final(session) == *old(session),
        kind_of(cmd.program@) == Some(CommandKind::Pwd) ==> r is Ok && r->Ok_0@ == crate::fs::pwd_of(
            old(fs).cwd_path(),
        ) + "\n"@,
        kind_of(cmd.program@) == Some(CommandKind::Whoami) ==> r is Ok && r->Ok_0@ == old(session).username@
            + "\n"@,
        kind_of(cmd.program@) == Some(CommandKind::Echo) ==> r is Ok && r->Ok_0@ == join_with(
            texts(cmd.args@),
            " "@,
        ) + "\n"@,
        kind_of(cmd.program@) == Some(CommandKind::Help) ==> r is Ok && r->Ok_0@ == HELP_TEXT@,
        kind_of(cmd.program@) == Some(CommandKind::Clear) ==> r is Ok && r->Ok_0@ == "\x1b[2J\x1b[H"@,
        command_done(old(fs), final(fs), old(session), final(session), *cmd, input_of(stdin), r),
{
    let p = cmd.program.as_str();
    let args = &cmd.args;
    match command_kind(p) {
        Some(CommandKind::Ls) => cmd_ls(fs, args, session),
        Some(CommandKind::Cd) => cmd_cd(fs, args, session),
        Some(CommandKind::Pwd) => {
            let mut out = fs.pwd();
            push_str(&mut out, "\n");
            Ok(out)
        },
        Some(CommandKind::Mkdir) => cmd_mkdir(fs, args, session),
        Some(CommandKind::Touch) => cmd_touch(fs, args, session),
        Some(CommandKind::Cat) => cmd_cat(fs, args, stdin, session),
        Some(CommandKind::Rm) => cmd_rm(fs, args, session),
        Some(CommandKind::Rmdir) => cmd_rmdir(fs, args, session),
        Some(CommandKind::Mv) => cmd_mv(fs, args, session),
        Some(CommandKind::Cp) => cmd_cp(fs, args, session),
        Some(CommandKind::Stat) => cmd_stat(fs, args, session),
        Some(CommandKind::Tree) => cmd_tree(fs, args, session),
        Some(CommandKind::Find) => cmd_find(fs, args, session),
        Some(CommandKind::Grep) => cmd_grep(fs, args, stdin, session),
        Some(CommandKind::Head) => cmd_head(args, stdin),
        Some(CommandKind::Tail) => cmd_tail(args, stdin),
        Some(CommandKind::Wc) => cmd_wc(args, stdin),
        Some(CommandKind::Chmod) => cmd_chmod(fs, args, session),
        Some(CommandKind::Chown) => cmd_chown(fs, args, session),
        Some(CommandKind::Ln) => cmd_ln(fs, args, session),
        Some(CommandKind::Echo) => cmd_echo(args),
        Some(CommandKind::Write) => cmd_write(fs, args, stdin, session),
        Some(CommandKind::Adduser) => cmd_adduser(fs, args, session),
        Some(CommandKind::Addagent) => cmd_addagent(fs, args, session),
        Some(CommandKind::Deluser) => cmd_deluser(fs, args, session),
        Some(CommandKind::Addgroup) => cmd_addgroup(fs, args, session),
        Some(CommandKind::Delgroup) => cmd_delgroup(fs, args, session),
        Some(CommandKind::Usermod) => cmd_usermod(fs, args, session),
        Some(CommandKind::Groups) => cmd_groups(fs, args, session),
        Some(CommandKind::Whoami) => {
            let mut out = owned(session.username.as_str());
            push_str(&mut out, "\n");
            Ok(out)
        },
        Some(CommandKind::Id) => cmd_id(fs, args, session),
        Some(CommandKind::Su) => cmd_su(fs, args, session),
        Some(CommandKind::Delegate) => cmd_delegate(fs, args, session),
        Some(CommandKind::Undelegate) => cmd_undelegate(session),
        Some(CommandKind::Help) => Ok(owned(HELP_TEXT)),
        Some(CommandKind::Clear) => Ok(owned("\x1b[2J\x1b[H")),
        None => Err(VfsError::UnknownCommand { name: owned(p) }),
    }
}

/// The state after the first `k` commands of `cmds` had their turn, from
/// file system `fs0` and session `s0`: each command gets the output of the
/// one before it (the first gets none); an error ends the run, and so does
/// an empty output before the last command.
pub open spec fn ran(
    fs0: VirtualFs,
    s0: Session,
    cmds: Seq<ParsedCommand>,
    k: nat,
    fs1: VirtualFs,
    s1: Session,
    res: Result<String, VfsError>,
) -> bool
    decreases k,
{
    if k == 0 {
        fs1 == fs0 && s1 == s0 && res is Ok && res->Ok_0@.len() == 0
    } else {
        exists|fm: VirtualFs, sm: Session, rm: Result<String, VfsError>|
            ran(fs0, s0, cmds, (k - 1) as nat, fm, sm, rm) && #[trigger] ran_step(cmds, k, fm, sm, rm, fs1, s1, res)
    }
}

/// Command `k - 1` of `cmds` had its turn, from file system `fm`, session
/// `sm` and the result `rm` before it.
pub open spec fn ran_step(
    cmds: Seq<ParsedCommand>,
    k: nat,
    fm: VirtualFs,
    sm: Session,
    rm: Result<String, VfsError>,
    fs1: VirtualFs,
    s1: Session,
    res: Result<String, VfsError>,
) -> bool {
    match rm {
        Err(_) => fs1 == fm && s1 == sm && res == rm,
        Ok(out) => if k > 1 && out@.len() == 0 {
            fs1 == fm && s1 == sm && res == rm
        } else {
            command_done(
                &fm,
                &fs1,
                &sm,
                &s1,
                cmds[k - 1],
                if k == 1 {
                    None
                } else {
                    Some(out@)
                },
                res,
            )
        },
    }
}

/// One more turn extends a run.
proof fn lemma_ran_step(
    fs0: VirtualFs,
    s0: Session,
    cmds: Seq<ParsedCommand>,
    k: nat,
    fm: VirtualFs,
    sm: Session,
    rm: Result<String, VfsError>,
    fs1: VirtualFs,
    s1: Session,
    res: Result<String, VfsError>,
)
    requires
        ran(fs0, s0, cmds, k, fm, sm, rm),
        ran_step(cmds, k + 1, fm, sm, rm, fs1, s1, res),
    ensures
        ran(fs0, s0, cmds, k + 1, fs1, s1, res),
{
    let k1: nat = k + 1;
    assert((k1 - 1) as nat == k);
    assert(ran_step(cmds, k1, fm, sm, rm, fs1, s1, res));
}

/// A run that ended keeps its state through the commands left.
proof fn lemma_ran_carry(
    fs0: VirtualFs,
    s0: Session,
    cmds: Seq<ParsedCommand>,
    k: nat,
    n: nat,
    fs1: VirtualFs,
    s1: Session,
    res: Result<String, VfsError>,
)
    requires
        ran(fs0, s0, cmds, k, fs1, s1, res),
        k <= n,
        res is Err || (k >= 1 && res->Ok_0@.len() == 0),
    ensures
        ran(fs0, s0, cmds, n, fs1, s1, res),
    decreases n - k,
{
    if k < n {
        lemma_ran_step(fs0, s0, cmds, k, fs1, s1, res, fs1, s1, res);
        lemma_ran_carry(fs0, s0, cmds, (k + 1) as nat, n, fs1, s1, res);
    }
}

/// Runs the commands of a pipeline in order, each getting the output of
/// the one before it; an empty output ends the pipeline early. The result
/// is the last output, or the first error.
pub fn execute_pipeline(pipeline: &Pipeline, fs: &mut VirtualFs, session: &mut Session) -> (r: Result<
    String,
    VfsError,
>)
    requires
        old(fs).wf(),
    ensures
        final(fs).wf(),
        pipeline.commands@.len() == 0 ==> r is Ok && r->Ok_0@.len() == 0,
        pipeline.commands@.len() > 0 && kind_of(pipeline.commands@[0].program@) is None ==> r is Err && r->Err_0@
            == ErrorView::UnknownCommand(pipeline.commands@[0].program@) && *final(fs) == *old(fs),
        pipeline.commands@.len() == 1 && kind_of(pipeline.commands@[0].program@) == Some(CommandKind::Echo) ==> r is Ok && r->Ok_0@
            == join_with(texts(pipeline.commands@[0].args@), " "@) + "\n"@,
        ran(*old(fs), *old(session), pipeline.commands@, pipeline.commands@.len() as nat, *final(fs), *final(session), r),
{
    let mut stdin = String::new();
    let n = pipeline.commands.len();
    let mut i: usize = 0;
    let mut stop = false;
    while i < n && !stop
        invariant
            fs.wf(),
            n == pipeline.commands@.len(),
            i <= n,
            i == 0 ==> stdin@.len() == 0 && *fs == *old(fs) && !stop,
            i >= 1 ==> kind_of(pipeline.commands@[0].program@) is Some,
            i == 1 && kind_of(pipeline.commands@[0].program@) == Some(CommandKind::Echo) ==> stdin@ == join_with(
                texts(pipeline.commands@[0].args@),
                " "@,
            ) + "\n"@,
            ran(*old(fs), *old(session), pipeline.commands@, i as nat, *fs, *session, Ok::<String, VfsError>(stdin)),
            i >= 1 && i < n ==> (stop <==> stdin@.len() == 0),
            stop ==> i >= 1 && stdin@.len() == 0,
        decreases n - i,
    {
        let is_last = i + 1 == n;
        let ghost f_before = *fs;
        let ghost s_before = *session;
        let ghost prev = Ok::<String, VfsError>(stdin);
        let res = if i > 0 {
            execute_command(&pipeline.commands[i], fs, session, Some(stdin.as_str()))
        } else {
            execute_command(&pipeline.commands[i], fs, session, None)
        };
        proof {
            lemma_ran_step(*old(fs), *old(session), pipeline.commands@, i as nat, f_before, s_before, prev, *fs, *session, res);
        }
        let out = match res {
            Ok(o) => o,
            Err(e) => {
                proof {
                    lemma_ran_carry(
                        *old(fs),
                        *old(session),
                        pipeline.commands@,
                        (i + 1) as nat,
                        n as nat,
                        *fs,
                        *session,
                        Err::<String, VfsError>(e),
                    );
                }
                return Err(e);
            },
        };
        stdin = out;
        i += 1;
        stop = !is_last && to_chars(stdin.as_str()).len() == 0;
    }
    proof {
        if stop {
            lemma_ran_carry(
                *old(fs),
                *old(session),
                pipeline.commands@,
                i as nat,
                n as nat,
                *fs,
                *session,
                Ok::<String, VfsError>(stdin),
            );
        }
    }
    Ok(stdin)
}

/// What running the commands that `line` parses to answers and does, as
/// `ran` says of a whole pipeline: from file system `fs0` and session `s0`
/// to `fs1` and `s1`, with result `res`.
pub open spec fn line_ran(
    fs0: VirtualFs,
    s0: Session,
    line: Seq<char>,
    fs1: VirtualFs,
    s1: Session,
    res: Result<String, VfsError>,
) -> bool {
    let views = parser::commands_of(parser::pipe_segments(line));
    exists|cmds: Seq<ParsedCommand>|
        cmds.len() == views.len() && (forall|i: int| 0 <= i < cmds.len() ==> cmds[i]@ == views[i]) && #[trigger] ran(
            fs0,
            s0,
            cmds,
            cmds.len(),
            fs1,
            s1,
            res,
        )
}

} // verus!
