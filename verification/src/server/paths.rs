//! Normalizing client-supplied paths against the session's home.

use vstd::prelude::*;
use crate::auth::session::Session;
use crate::auth::ROOT_UID;
use crate::text::{owned, push_str, substring, to_chars};

verus! {

/// The sequence without leading slashes (`trim_start_matches('/')`).
pub open spec fn skip_slashes(s: Seq<char>) -> Seq<char>
    decreases s.len(),
{
    if s.len() > 0 && s[0] == '/' {
        skip_slashes(s.drop_first())
    } else {
        s
    }
}

/// The home of a session: that of the delegate when delegating. Root, an
/// empty name and a group delegation (a name starting with ':') have no
/// home directory and use `/`.
pub open spec fn home_of(session: Session) -> Seq<char> {
    let (name, uid) = match session.delegate {
        Some(d) => (d.username@, d.uid),
        None => (session.username@, session.uid),
    };
    if uid == ROOT_UID || name.len() == 0 || name[0] == ':' {
        "/"@
    } else {
        "/home/"@ + name
    }
}

/// `rest` without its leading slashes, under `home`.
pub open spec fn joined_under(home: Seq<char>, rest: Seq<char>) -> Seq<char> {
    if home == "/"@ {
        "/"@ + skip_slashes(rest)
    } else {
        home + "/"@ + skip_slashes(rest)
    }
}

/// Where a client path points for a session: an absolute path as it is;
/// `~`, `~/...`, the empty path and a relative path under the session's
/// home.
pub open spec fn user_path(session: Session, path: Seq<char>) -> Seq<char> {
    if path.len() > 0 && path[0] == '/' {
        path
    } else if path == "~"@ {
        home_of(session)
    } else if path.len() >= 2 && path[0] == '~' && path[1] == '/' {
        joined_under(home_of(session), path.subrange(2, path.len() as int))
    } else if path.len() == 0 {
        home_of(session)
    } else {
        joined_under(home_of(session), path)
    }
}

fn effective_home(session: &Session) -> (r: String)
    ensures
        r@ == home_of(*session),
{
    let (name, uid) = match &session.delegate {
        Some(d) => (d.username.as_str(), d.uid),
        None => (session.username.as_str(), session.uid),
    };
    let chars = to_chars(name);
    if uid == ROOT_UID || chars.len() == 0 || chars[0] == ':' {
        proof {
            reveal_strlit("/");
        }
        return owned("/");
    }
    let mut home = owned("/home/");
    push_str(&mut home, name);
    home
}

fn join_under(home: &String, rest: &[char]) -> (r: String)
    ensures
        r@ == joined_under(home@, rest@),
{
    let mut start: usize = 0;
    proof {
        assert(rest@.skip(0) =~= rest@);
    }
    while start < rest.len() && rest[start] == '/'
        invariant
            start <= rest@.len(),
            skip_slashes(rest@) == skip_slashes(rest@.skip(start as int)),
        decreases rest.len() - start,
    {
        proof {
            assert(rest@.skip(start as int).drop_first() =~= rest@.skip(start + 1));
        }
        start += 1;
    }
    proof {
        if start < rest@.len() {
            assert(rest@.skip(start as int)[0] == rest@[start as int]);
        }
        assert(rest@.skip(start as int) =~= rest@.subrange(start as int, rest@.len() as int));
    }
    let trimmed = substring(rest, start, rest.len());
    let home_chars = to_chars(home.as_str());
    proof {
        reveal_strlit("/");
    }
    if home_chars.len() == 1 && home_chars[0] == '/' {
        proof {
            assert(home@ =~= "/"@);
        }
        let mut r = owned("/");
        push_str(&mut r, trimmed.as_str());
        r
    } else {
        proof {
            assert(home@ != "/"@);
        }
        let mut r = owned(home.as_str());
        push_str(&mut r, "/");
        push_str(&mut r, trimmed.as_str());
        r
    }
}

/// Normalizes a client-supplied path against the session's effective home.
pub fn resolve_user_path(session: &Session, path: &str) -> (r: String)
    ensures
        r@ == user_path(*session, path@),
{
    let p = to_chars(path);
    if p.len() > 0 && p[0] == '/' {
        return owned(path);
    }
    let home = effective_home(session);
    proof {
        reveal_strlit("~");
    }
    if p.len() == 1 && p[0] == '~' {
        proof {
            assert(path@ =~= "~"@);
        }
        return home;
    }
    proof {
        assert(path@ != "~"@);
    }
    if p.len() >= 2 && p[0] == '~' && p[1] == '/' {
        let rest = substring(p.as_slice(), 2, p.len());
        let rest_chars = to_chars(rest.as_str());
        return join_under(&home, rest_chars.as_slice());
    }
    if p.len() == 0 {
        return home;
    }
    join_under(&home, p.as_slice())
}

} // verus!
