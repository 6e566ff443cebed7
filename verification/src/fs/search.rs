//! Walks over a directory tree: `tree`, `find` and `grep`. Entries that a
//! session may not read are skipped. A walk descends at most as many levels
//! as there are inodes, which only a cycle of directories can reach.

use vstd::prelude::*;
use crate::auth::perms::Access;
use crate::auth::session::Session;
use crate::error::{ErrorView, VfsError};
use crate::pattern::{compile, glob_match, glob_matches, regex_compiled, regex_matches, Pattern};
use crate::text::{lines_of, owned, push_str, split_lines, utf8_lossy, utf8_lossy_string};
use super::inode::{InodeId, InodeKind, KindView};
use super::{label, GrepResult, VirtualFs};

verus! {

/// The path of entry `name` below `base`; below "." it is "./name".
pub open spec fn child_path(base: Seq<char>, name: Seq<char>) -> Seq<char> {
    if base == "."@ {
        "./"@ + name
    } else {
        base + "/"@ + name
    }
}

fn join_child(base: &str, name: &str) -> (r: String)
    ensures
        r@ == child_path(base@, name@),
{
    let mut out = if crate::text::str_eq(base, ".") {
        owned(".")
    } else {
        owned(base)
    };
    push_str(&mut out, "/");
    push_str(&mut out, name);
    proof {
        reveal_strlit(".");
        reveal_strlit("/");
        reveal_strlit("./");
        assert("./"@ =~= "."@ + "/"@);
    }
    out
}

/// The connector before an entry of `tree`.
pub open spec fn connector(is_last: bool) -> Seq<char> {
    if is_last {
        "\u{2514}\u{2500}\u{2500} "@
    } else {
        "\u{251c}\u{2500}\u{2500} "@
    }
}

/// What the entries below an entry of `tree` are indented by, after the
/// entry's own prefix.
pub open spec fn indent(is_last: bool) -> Seq<char> {
    if is_last {
        "    "@
    } else {
        "\u{2502}   "@
    }
}

/// A match of `grep`: the file, the line's number from 1, the line.
pub open spec fn row_of(r: GrepResult) -> (Seq<char>, int, Seq<char>) {
    (r.file@, r.line_num as int, r.line@)
}

/// The lines of `lines` that the regular expression matches, numbered from 1.
pub open spec fn matching_lines(file: Seq<char>, pattern: Seq<char>, lines: Seq<Seq<char>>) -> Seq<
    (Seq<char>, int, Seq<char>),
>
    decreases lines.len(),
{
    if lines.len() == 0 {
        Seq::empty()
    } else {
        let before = matching_lines(file, pattern, lines.drop_last());
        if regex_matches(pattern, lines.last()) {
            before.push((file, lines.len() as int, lines.last()))
        } else {
            before
        }
    }
}

impl VirtualFs {
    /// Whether a session may see inode `id`: everything without a session,
    /// else what it may read.
    pub open spec fn visible(&self, id: InodeId, session: Option<&Session>) -> bool {
        match session {
            None => true,
            Some(s) => self.inodes().contains_key(id) && s.allows(
                self.inodes()[id].mode,
                self.inodes()[id].uid,
                self.inodes()[id].gid,
                Access::Read,
            ),
        }
    }

    fn is_visible(&self, id: InodeId, session: Option<&Session>) -> (r: bool)
        ensures
            r == self.visible(id, session),
    {
        match session {
            None => true,
            Some(s) => match self.get_inode(id) {
                Ok(inode) => s.has_permission(inode, Access::Read),
                Err(_) => false,
            },
        }
    }

    /// The entries of a listing that a session may see, in order.
    pub open spec fn seen(&self, es: Seq<(String, InodeId)>, session: Option<&Session>) -> Seq<
        (String, InodeId),
    > {
        es.filter(|e: (String, InodeId)| self.visible(e.1, session))
    }

    /// The positions of the entries that a session may see.
    fn seen_positions(&self, es: &Vec<(String, InodeId)>, session: Option<&Session>) -> (r: Vec<
        usize,
    >)
        ensures
            forall|j: int| 0 <= j < r@.len() ==> #[trigger] r@[j] < es@.len(),
            r@.map_values(|k: usize| es@[k as int]) == self.seen(es@, session),
    {
        let mut r: Vec<usize> = Vec::new();
        let mut i: usize = 0;
        let ghost pred = |e: (String, InodeId)| self.visible(e.1, session);
        proof {
            reveal(Seq::filter);
            assert(es@.take(0) =~= Seq::<(String, InodeId)>::empty());
            assert(r@.map_values(|k: usize| es@[k as int]) =~= es@.take(0).filter(pred));
        }
        while i < es.len()
            invariant
                i <= es@.len(),
                pred == (|e: (String, InodeId)| self.visible(e.1, session)),
                forall|j: int| 0 <= j < r@.len() ==> #[trigger] r@[j] < es@.len(),
                r@.map_values(|k: usize| es@[k as int]) == es@.take(i as int).filter(pred),
            decreases es.len() - i,
        {
            let ghost before = r@;
            proof {
                reveal(Seq::filter);
                assert(es@.take(i + 1).drop_last() =~= es@.take(i as int));
                assert(es@.take(i + 1).last() == es@[i as int]);
            }
            if self.is_visible(es[i].1, session) {
                r.push(i);
                proof {
                    assert(r@.map_values(|k: usize| es@[k as int]) =~= before.map_values(
                        |k: usize| es@[k as int],
                    ).push(es@[i as int]));
                }
            }
            i += 1;
        }
        proof {
            assert(es@.take(es@.len() as int) =~= es@);
        }
        r
    }

    /// The text of `tree` below directory `id`, each line after `prefix`.
    pub open spec fn tree_text(
        &self,
        id: InodeId,
        prefix: Seq<char>,
        session: Option<&Session>,
        fuel: nat,
    ) -> Result<Seq<char>, ErrorView>
        decreases fuel, 0nat,
    {
        if fuel == 0 {
            Ok(Seq::empty())
        } else {
            match self.dir_of(id) {
                Err(e) => Err(e),
                Ok(es) => {
                    let vis = self.seen(es, session);
                    self.tree_items(vis, vis.len(), prefix, session, (fuel - 1) as nat)
                },
            }
        }
    }

    /// The lines of `tree` for the first entries `vis` of a listing of `n`
    /// visible entries.
    pub open spec fn tree_items(
        &self,
        vis: Seq<(String, InodeId)>,
        n: nat,
        prefix: Seq<char>,
        session: Option<&Session>,
        fuel: nat,
    ) -> Result<Seq<char>, ErrorView>
        decreases fuel, vis.len() + 1,
    {
        if vis.len() == 0 {
            Ok(Seq::empty())
        } else {
            match self.tree_items(vis.drop_last(), n, prefix, session, fuel) {
                Err(e) => Err(e),
                Ok(t) => {
                    let (name, child) = vis.last();
                    let is_last = vis.len() == n;
                    if !self.inodes().contains_key(child) {
                        Err(ErrorView::NotFound(label(child)))
                    } else if self.inodes()[child].kind is Directory {
                        let line = prefix + connector(is_last) + name@ + "/"@ + "\n"@;
                        match self.tree_text(child, prefix + indent(is_last), session, fuel) {
                            Err(e) => Err(e),
                            Ok(sub) => Ok(t + line + sub),
                        }
                    } else {
                        Ok(t + prefix + connector(is_last) + name@ + "\n"@)
                    }
                },
            }
        }
    }
}


impl VirtualFs {
    /// Once a prefix of the entries fails, the whole listing fails the same
    /// way.
    proof fn lemma_tree_items_err(
        &self,
        vis: Seq<(String, InodeId)>,
        j: int,
        n: nat,
        prefix: Seq<char>,
        session: Option<&Session>,
        fuel: nat,
    )
        requires
            0 <= j <= vis.len(),
            self.tree_items(vis.take(j), n, prefix, session, fuel) is Err,
        ensures
            self.tree_items(vis, n, prefix, session, fuel) == self.tree_items(
                vis.take(j),
                n,
                prefix,
                session,
                fuel,
            ),
        decreases vis.len() - j,
    {
        if j < vis.len() {
            assert(vis.take(j + 1).drop_last() =~= vis.take(j));
            self.lemma_tree_items_err(vis, j + 1, n, prefix, session, fuel);
        } else {
            assert(vis.take(j) =~= vis);
        }
    }

    /// Appends the lines of `tree` below directory `id` to `output`.
    #[verifier::spinoff_prover]
    #[verifier::rlimit(40)]
    fn tree_recursive(
        &self,
        id: InodeId,
        prefix: &str,
        output: &mut String,
        session: Option<&Session>,
        fuel: usize,
    ) -> (r: Result<(), VfsError>)
        ensures
            match self.tree_text(id, prefix@, session, fuel as nat) {
                Ok(t) => r is Ok && final(output)@ == old(output)@ + t,
                Err(e) => r is Err && r->Err_0@ == e,
            },
        decreases fuel,
    {
        if fuel == 0 {
            proof {
                assert(output@ =~= output@ + Seq::<char>::empty());
            }
            return Ok(());
        }
        let entries = self.dir_entries(id)?;
        let pos = self.seen_positions(entries, session);
        let ghost vis = self.seen(entries@, session);
        let n = pos.len();
        let ghost base = output@;
        let mut j: usize = 0;
        proof {
            assert(vis.take(0) =~= Seq::<(String, InodeId)>::empty());
            assert(output@ =~= base + Seq::<char>::empty());
        }
        while j < n
            invariant
                j <= n,
                fuel > 0,
                n == pos@.len(),
                n == vis.len(),
                self.dir_of(id) == Ok::<Seq<(String, InodeId)>, ErrorView>(entries@),
                vis == self.seen(entries@, session),
                pos@.map_values(|k: usize| entries@[k as int]) == vis,
                forall|q: int| 0 <= q < pos@.len() ==> #[trigger] pos@[q] < entries@.len(),
                self.tree_items(vis.take(j as int), n as nat, prefix@, session, (fuel - 1) as nat) is Ok,
                output@ == base + self.tree_items(
                    vis.take(j as int),
                    n as nat,
                    prefix@,
                    session,
                    (fuel - 1) as nat,
                )->Ok_0,
            decreases n - j,
        {
            let k = pos[j];
            let child_id = entries[k].1;
            let name = entries[k].0.as_str();
            let is_last = j + 1 == n;
            let ghost f1 = (fuel - 1) as nat;
            let ghost t = self.tree_items(vis.take(j as int), n as nat, prefix@, session, f1)->Ok_0;
            proof {
                assert(vis[j as int] == entries@[k as int]);
                assert(vis.take(j + 1).drop_last() =~= vis.take(j as int));
                assert(vis.take(j + 1).last() == vis[j as int]);
                assert(vis.take(j + 1).len() == n <==> is_last);
            }
            let child = match self.get_inode(child_id) {
                Ok(c) => c,
                Err(e) => {
                    proof {
                        self.lemma_tree_items_err(vis, j + 1, n as nat, prefix@, session, f1);
                    }
                    return Err(e);
                },
            };
            push_str(output, prefix);
            if is_last {
                push_str(output, "\u{2514}\u{2500}\u{2500} ");
            } else {
                push_str(output, "\u{251c}\u{2500}\u{2500} ");
            }
            push_str(output, name);
            if child.is_dir() {
                push_str(output, "/");
                push_str(output, "\n");
                let mut new_prefix = owned(prefix);
                if is_last {
                    push_str(&mut new_prefix, "    ");
                } else {
                    push_str(&mut new_prefix, "\u{2502}   ");
                }
                let ghost mid = output@;
                proof {
                    assert(mid =~= base + t + (prefix@ + connector(is_last) + name@ + "/"@ + "\n"@));
                }
                match self.tree_recursive(child_id, new_prefix.as_str(), output, session, fuel - 1) {
                    Ok(()) => {},
                    Err(e) => {
                        proof {
                            self.lemma_tree_items_err(vis, j + 1, n as nat, prefix@, session, f1);
                        }
                        return Err(e);
                    },
                }
                proof {
                    let sub = self.tree_text(child_id, prefix@ + indent(is_last), session, f1)->Ok_0;
                    assert(output@ =~= base + (t + (prefix@ + connector(is_last) + name@ + "/"@ + "\n"@) + sub));
                }
            } else {
                push_str(output, "\n");
                proof {
                    assert(output@ =~= base + (t + prefix@ + connector(is_last) + name@ + "\n"@));
                }
            }
            j += 1;
        }
        proof {
            assert(vis.take(n as int) =~= vis);
        }
        Ok(())
    }

    /// Draws the tree below a directory (the working directory when no path
    /// is given), each line after `prefix`, starting with a line "." when
    /// the prefix is empty.
    pub fn tree(&self, path: Option<&str>, prefix: &str, session: Option<&Session>) -> (r: Result<
        String,
        VfsError,
    >)
        requires
            self.wf(),
        ensures
            match self.target_of(path) {
                Err(e) => r is Err && r->Err_0@ == e,
                Ok(id) => match self.tree_text(id, prefix@, session, self.inodes().dom().len()) {
                    Err(e) => r is Err && r->Err_0@ == e,
                    Ok(t) => r is Ok && r->Ok_0@ == (if prefix@.len() == 0 {
                        ".\n"@
                    } else {
                        Seq::empty()
                    }) + t,
                },
            },
    {
        let id = match path {
            Some(p) => self.resolve_path(p)?,
            None => self.cwd,
        };
        let mut output = String::new();
        let empty = crate::text::to_chars(prefix).len() == 0;
        if empty {
            push_str(&mut output, ".\n");
        }
        let ghost head = output@;
        proof {
            assert(empty <==> prefix@.len() == 0);
            if empty {
                assert(head =~= ".\n"@);
            } else {
                assert(head =~= Seq::<char>::empty());
            }
            assert(head =~= (if prefix@.len() == 0 {
                ".\n"@
            } else {
                Seq::empty()
            }));
        }
        let fuel = self.inode_count();
        self.tree_recursive(id, prefix, &mut output, session, fuel)?;
        Ok(output)
    }
}


/// Whether `find` keeps a name: every name without a pattern, else the names
/// that match the glob.
pub open spec fn name_selected(pattern: Option<Seq<char>>, name: Seq<char>) -> bool {
    match pattern {
        Some(p) => glob_matches(p, name),
        None => true,
    }
}

/// The text of an optional string.
pub open spec fn opt_text(p: Option<&str>) -> Option<Seq<char>> {
    match p {
        Some(s) => Some(s@),
        None => None,
    }
}

impl VirtualFs {
    /// The paths that `find` gives below directory `id`, reached as `cur`.
    pub open spec fn find_rows(
        &self,
        id: InodeId,
        cur: Seq<char>,
        pattern: Option<Seq<char>>,
        session: Option<&Session>,
        fuel: nat,
    ) -> Result<Seq<Seq<char>>, ErrorView>
        decreases fuel, 0nat,
    {
        if fuel == 0 {
            Ok(Seq::empty())
        } else {
            match self.dir_of(id) {
                Err(e) => Err(e),
                Ok(es) => self.find_items(es, cur, pattern, session, (fuel - 1) as nat),
            }
        }
    }

    /// The paths that `find` gives for the entries `es` of a directory
    /// reached as `cur`.
    pub open spec fn find_items(
        &self,
        es: Seq<(String, InodeId)>,
        cur: Seq<char>,
        pattern: Option<Seq<char>>,
        session: Option<&Session>,
        fuel: nat,
    ) -> Result<Seq<Seq<char>>, ErrorView>
        decreases fuel, es.len() + 1,
    {
        if es.len() == 0 {
            Ok(Seq::empty())
        } else {
            match self.find_items(es.drop_last(), cur, pattern, session, fuel) {
                Err(e) => Err(e),
                Ok(rows) => {
                    let (name, child) = es.last();
                    if !self.visible(child, session) {
                        Ok(rows)
                    } else if !self.inodes().contains_key(child) {
                        Err(ErrorView::NotFound(label(child)))
                    } else {
                        let cp = child_path(cur, name@);
                        let here = if name_selected(pattern, name@) {
                            seq![cp]
                        } else {
                            Seq::empty()
                        };
                        if self.inodes()[child].kind is Directory {
                            match self.find_rows(child, cp, pattern, session, fuel) {
                                Err(e) => Err(e),
                                Ok(sub) => Ok(rows + here + sub),
                            }
                        } else {
                            Ok(rows + here)
                        }
                    }
                },
            }
        }
    }

    proof fn lemma_find_items_err(
        &self,
        es: Seq<(String, InodeId)>,
        j: int,
        cur: Seq<char>,
        pattern: Option<Seq<char>>,
        session: Option<&Session>,
        fuel: nat,
    )
        requires
            0 <= j <= es.len(),
            self.find_items(es.take(j), cur, pattern, session, fuel) is Err,
        ensures
            self.find_items(es, cur, pattern, session, fuel) == self.find_items(
                es.take(j),
                cur,
                pattern,
                session,
                fuel,
            ),
        decreases es.len() - j,
    {
        if j < es.len() {
            assert(es.take(j + 1).drop_last() =~= es.take(j));
            self.lemma_find_items_err(es, j + 1, cur, pattern, session, fuel);
        } else {
            assert(es.take(j) =~= es);
        }
    }

    /// Appends the paths that `find` gives below directory `id` to
    /// `results`.
    #[verifier::spinoff_prover]
    #[verifier::rlimit(40)]
    fn find_recursive(
        &self,
        id: InodeId,
        current_path: &str,
        pattern: Option<&str>,
        results: &mut Vec<String>,
        session: Option<&Session>,
        fuel: usize,
    ) -> (r: Result<(), VfsError>)
        ensures
            match self.find_rows(id, current_path@, opt_text(pattern), session, fuel as nat) {
                Ok(rows) => r is Ok && final(results).deep_view() == old(results).deep_view() + rows,
                Err(e) => r is Err && r->Err_0@ == e,
            },
        decreases fuel,
    {
        if fuel == 0 {
            proof {
                assert(results.deep_view() =~= results.deep_view() + Seq::<Seq<char>>::empty());
            }
            return Ok(());
        }
        let entries = self.dir_entries(id)?;
        let ghost es = entries@;
        let ghost base = results.deep_view();
        let ghost f1 = (fuel - 1) as nat;
        let mut j: usize = 0;
        proof {
            assert(es.take(0) =~= Seq::<(String, InodeId)>::empty());
            assert(results.deep_view() =~= base + Seq::<Seq<char>>::empty());
        }
        while j < entries.len()
            invariant
                j <= es.len(),
                es == entries@,
                fuel > 0,
                f1 == fuel - 1,
                self.dir_of(id) == Ok::<Seq<(String, InodeId)>, ErrorView>(es),
                self.find_items(es.take(j as int), current_path@, opt_text(pattern), session, f1) is Ok,
                results.deep_view() == base + self.find_items(
                    es.take(j as int),
                    current_path@,
                    opt_text(pattern),
                    session,
                    f1,
                )->Ok_0,
            decreases es.len() - j,
        {
            let child_id = entries[j].1;
            let name = entries[j].0.as_str();
            let ghost rows = self.find_items(es.take(j as int), current_path@, opt_text(pattern), session, f1)->Ok_0;
            proof {
                assert(es.take(j + 1).drop_last() =~= es.take(j as int));
                assert(es.take(j + 1).last() == es[j as int]);
            }
            if self.is_visible(child_id, session) {
                let cp = join_child(current_path, name);
                let child = match self.get_inode(child_id) {
                    Ok(c) => c,
                    Err(e) => {
                        proof {
                            self.lemma_find_items_err(es, j + 1, current_path@, opt_text(pattern), session, f1);
                        }
                        return Err(e);
                    },
                };
                let selected = match pattern {
                    Some(p) => glob_match(p, name),
                    None => true,
                };
                let ghost here: Seq<Seq<char>> = if selected {
                    seq![cp@]
                } else {
                    Seq::empty()
                };
                if selected {
                    let ghost before = results.deep_view();
                    results.push(owned(cp.as_str()));
                    proof {
                        assert(results.deep_view() =~= before.push(cp@));
                    }
                }
                proof {
                    assert(results.deep_view() =~= base + rows + here);
                }
                if child.is_dir() {
                    match self.find_recursive(child_id, cp.as_str(), pattern, results, session, fuel - 1) {
                        Ok(()) => {},
                        Err(e) => {
                            proof {
                                self.lemma_find_items_err(es, j + 1, current_path@, opt_text(pattern), session, f1);
                            }
                            return Err(e);
                        },
                    }
                    proof {
                        let sub = self.find_rows(child_id, cp@, opt_text(pattern), session, f1)->Ok_0;
                        assert(results.deep_view() =~= base + (rows + here + sub));
                    }
                } else {
                    proof {
                        assert(results.deep_view() =~= base + (rows + here));
                    }
                }
            }
            j += 1;
        }
        proof {
            assert(es.take(es.len() as int) =~= es);
        }
        Ok(())
    }

    /// The paths below a directory (the working directory when no path is
    /// given) whose names match the glob, depth first in name order; the
    /// paths start with the path given, or "." without one.
    pub fn find(&self, path: Option<&str>, pattern: Option<&str>, session: Option<&Session>) -> (r:
        Result<Vec<String>, VfsError>)
        requires
            self.wf(),
        ensures
            match self.find_result(opt_text(path), opt_text(pattern), session) {
                Err(e) => r is Err && r->Err_0@ == e,
                Ok(rows) => r is Ok && r->Ok_0.deep_view() == rows,
            },
    {
        let id = match path {
            Some(p) => self.resolve_path(p)?,
            None => self.cwd,
        };
        let base = match path {
            Some(p) => owned(p),
            None => owned("."),
        };
        let mut results: Vec<String> = Vec::new();
        proof {
            assert(results.deep_view() =~= Seq::<Seq<char>>::empty());
        }
        let fuel = self.inode_count();
        self.find_recursive(id, base.as_str(), pattern, &mut results, session, fuel)?;
        proof {
            let rows = self.find_rows(id, base@, opt_text(pattern), session, fuel as nat)->Ok_0;
            assert(Seq::<Seq<char>>::empty() + rows =~= rows);
        }
        Ok(results)
    }
}


/// Appends the lines of `content` that `pat` matches to `results`, as
/// matches in `file`.
fn grep_content(file: &str, pat: &Pattern, content: &[u8], results: &mut Vec<GrepResult>)
    ensures
        final(results)@.map_values(|g: GrepResult| row_of(g)) == old(results)@.map_values(
            |g: GrepResult| row_of(g),
        ) + matching_lines(file@, pat@, lines_of(utf8_lossy(content@))),
{
    let text = utf8_lossy_string(content);
    let lines = split_lines(text.as_str());
    let ghost ls = lines.deep_view();
    let ghost base = results@.map_values(|g: GrepResult| row_of(g));
    let mut i: usize = 0;
    proof {
        assert(ls.take(0) =~= Seq::<Seq<char>>::empty());
        assert(results@.map_values(|g: GrepResult| row_of(g)) =~= base + matching_lines(
            file@,
            pat@,
            ls.take(0),
        ));
    }
    while i < lines.len()
        invariant
            i <= ls.len(),
            ls == lines.deep_view(),
            results@.map_values(|g: GrepResult| row_of(g)) == base + matching_lines(
                file@,
                pat@,
                ls.take(i as int),
            ),
        decreases lines.len() - i,
    {
        let line = lines[i].as_str();
        proof {
            assert(ls.take(i + 1).drop_last() =~= ls.take(i as int));
            assert(ls.take(i + 1).last() == line@);
        }
        if pat.is_match(line) {
            let ghost before = results@.map_values(|g: GrepResult| row_of(g));
            results.push(GrepResult { file: owned(file), line_num: i + 1, line: owned(line) });
            proof {
                assert(results@.map_values(|g: GrepResult| row_of(g)) =~= before.push(
                    (file@, i + 1, line@),
                ));
            }
        }
        i += 1;
    }
    proof {
        assert(ls.take(ls.len() as int) =~= ls);
    }
}

impl VirtualFs {
    /// The matches that a recursive `grep` finds below directory `id`,
    /// reached as `cur`.
    pub open spec fn grep_rows(
        &self,
        id: InodeId,
        cur: Seq<char>,
        pat: Seq<char>,
        session: Option<&Session>,
        fuel: nat,
    ) -> Result<Seq<(Seq<char>, int, Seq<char>)>, ErrorView>
        decreases fuel, 0nat,
    {
        if fuel == 0 {
            Ok(Seq::empty())
        } else {
            match self.dir_of(id) {
                Err(e) => Err(e),
                Ok(es) => self.grep_items(es, cur, pat, session, (fuel - 1) as nat),
            }
        }
    }

    /// The matches that a recursive `grep` finds for the entries `es` of a
    /// directory reached as `cur`: the lines of files, the matches below
    /// directories; links are skipped.
    pub open spec fn grep_items(
        &self,
        es: Seq<(String, InodeId)>,
        cur: Seq<char>,
        pat: Seq<char>,
        session: Option<&Session>,
        fuel: nat,
    ) -> Result<Seq<(Seq<char>, int, Seq<char>)>, ErrorView>
        decreases fuel, es.len() + 1,
    {
        if es.len() == 0 {
            Ok(Seq::empty())
        } else {
            match self.grep_items(es.drop_last(), cur, pat, session, fuel) {
                Err(e) => Err(e),
                Ok(rows) => {
                    let (name, child) = es.last();
                    if !self.visible(child, session) {
                        Ok(rows)
                    } else if !self.inodes().contains_key(child) {
                        Err(ErrorView::NotFound(label(child)))
                    } else {
                        let cp = child_path(cur, name@);
                        match self.inodes()[child].kind {
                            KindView::File(c) => Ok(
                                rows + matching_lines(cp, pat, lines_of(utf8_lossy(c))),
                            ),
                            KindView::Directory(_) => match self.grep_rows(
                                child,
                                cp,
                                pat,
                                session,
                                fuel,
                            ) {
                                Err(e) => Err(e),
                                Ok(sub) => Ok(rows + sub),
                            },
                            KindView::Symlink(_) => Ok(rows),
                        }
                    }
                },
            }
        }
    }

    proof fn lemma_grep_items_err(
        &self,
        es: Seq<(String, InodeId)>,
        j: int,
        cur: Seq<char>,
        pat: Seq<char>,
        session: Option<&Session>,
        fuel: nat,
    )
        requires
            0 <= j <= es.len(),
            self.grep_items(es.take(j), cur, pat, session, fuel) is Err,
        ensures
            self.grep_items(es, cur, pat, session, fuel) == self.grep_items(
                es.take(j),
                cur,
                pat,
                session,
                fuel,
            ),
        decreases es.len() - j,
    {
        if j < es.len() {
            assert(es.take(j + 1).drop_last() =~= es.take(j));
            self.lemma_grep_items_err(es, j + 1, cur, pat, session, fuel);
        } else {
            assert(es.take(j) =~= es);
        }
    }

    /// Where the matches for entries `es` are found, those for each first
    /// `k` of them are found too and begin them.
    proof fn lemma_grep_items_prefix(
        &self,
        es: Seq<(String, InodeId)>,
        k: int,
        cur: Seq<char>,
        pat: Seq<char>,
        session: Option<&Session>,
        fuel: nat,
    )
        requires
            0 <= k <= es.len(),
            self.grep_items(es, cur, pat, session, fuel) is Ok,
        ensures
            self.grep_items(es.take(k), cur, pat, session, fuel) is Ok,
            self.grep_items(es.take(k), cur, pat, session, fuel)->Ok_0.len() <= self.grep_items(
                es,
                cur,
                pat,
                session,
                fuel,
            )->Ok_0.len(),
            self.grep_items(es, cur, pat, session, fuel)->Ok_0.take(
                self.grep_items(es.take(k), cur, pat, session, fuel)->Ok_0.len() as int,
            ) == self.grep_items(es.take(k), cur, pat, session, fuel)->Ok_0,
        decreases es.len(),
    {
        if k == es.len() {
            assert(es.take(k) =~= es);
            let rows = self.grep_items(es, cur, pat, session, fuel)->Ok_0;
            assert(rows.take(rows.len() as int) =~= rows);
        } else {
            let d = es.drop_last();
            assert(d.take(k) =~= es.take(k));
            self.lemma_grep_items_prefix(d, k, cur, pat, session, fuel);
            let r0 = self.grep_items(d, cur, pat, session, fuel)->Ok_0;
            let rows = self.grep_items(es, cur, pat, session, fuel)->Ok_0;
            let rk = self.grep_items(es.take(k), cur, pat, session, fuel)->Ok_0;
            assert(rows.take(r0.len() as int) =~= r0);
            assert(rows.take(rk.len() as int) =~= r0.take(rk.len() as int));
        }
    }

    /// A recursive `grep` of a directory includes, as one run of its
    /// result, the matching lines of every file it lists and the matches
    /// below every directory it lists, for each entry the session may see;
    /// so the matches of files at any depth reach the top.
    pub proof fn lemma_grep_includes_entries(
        &self,
        id: InodeId,
        cur: Seq<char>,
        pat: Seq<char>,
        session: Option<&Session>,
        fuel: nat,
        j: int,
    )
        requires
            fuel > 0,
            self.grep_rows(id, cur, pat, session, fuel) is Ok,
            self.dir_of(id) is Ok,
            0 <= j < self.dir_of(id)->Ok_0.len(),
            self.visible(self.dir_of(id)->Ok_0[j].1, session),
            self.inodes().contains_key(self.dir_of(id)->Ok_0[j].1),
        ensures
            ({
                let rows = self.grep_rows(id, cur, pat, session, fuel)->Ok_0;
                let e = self.dir_of(id)->Ok_0[j];
                let cp = child_path(cur, e.0@);
                match self.inodes()[e.1].kind {
                    KindView::File(c) => {
                        let found = matching_lines(cp, pat, lines_of(utf8_lossy(c)));
                        exists|a: int|
                            0 <= a && a + found.len() <= rows.len() && #[trigger] rows.subrange(a, a + found.len())
                                == found
                    },
                    KindView::Directory(_) => {
                        &&& self.grep_rows(e.1, cp, pat, session, (fuel - 1) as nat) is Ok
                        &&& {
                            let sub = self.grep_rows(e.1, cp, pat, session, (fuel - 1) as nat)->Ok_0;
                            exists|a: int|
                                0 <= a && a + sub.len() <= rows.len() && #[trigger] rows.subrange(a, a + sub.len())
                                    == sub
                        }
                    },
                    KindView::Symlink(_) => true,
                }
            }),
    {
        let es = self.dir_of(id)->Ok_0;
        let f = (fuel - 1) as nat;
        let rows = self.grep_rows(id, cur, pat, session, fuel)->Ok_0;
        assert(rows == self.grep_items(es, cur, pat, session, f)->Ok_0);
        self.lemma_grep_items_prefix(es, j + 1, cur, pat, session, f);
        let t = es.take(j + 1);
        assert(t.drop_last() =~= es.take(j));
        assert(t.last() == es[j]);
        let r1 = self.grep_items(t, cur, pat, session, f)->Ok_0;
        let r0 = self.grep_items(es.take(j), cur, pat, session, f)->Ok_0;
        let a = r0.len() as int;
        let e = es[j];
        let cp = child_path(cur, e.0@);
        match self.inodes()[e.1].kind {
            KindView::File(c) => {
                let found = matching_lines(cp, pat, lines_of(utf8_lossy(c)));
                assert(r1 == r0 + found);
                assert(rows.take(r1.len() as int) == r1);
                assert forall|i: int| 0 <= i < found.len() implies rows.subrange(a, a + found.len())[i] == found[i] by {
                    assert(rows.take(r1.len() as int)[a + i] == rows[a + i]);
                    assert(r1[a + i] == found[i]);
                }
                assert(rows.subrange(a, a + found.len()) =~= found);
            },
            KindView::Directory(_) => {
                let sub = self.grep_rows(e.1, cp, pat, session, f)->Ok_0;
                assert(r1 == r0 + sub);
                assert(rows.take(r1.len() as int) == r1);
                assert forall|i: int| 0 <= i < sub.len() implies rows.subrange(a, a + sub.len())[i] == sub[i] by {
                    assert(rows.take(r1.len() as int)[a + i] == rows[a + i]);
                    assert(r1[a + i] == sub[i]);
                }
                assert(rows.subrange(a, a + sub.len()) =~= sub);
            },
            KindView::Symlink(_) => {},
        }
    }

    /// Appends the matches below directory `id` to `results`.
    #[verifier::spinoff_prover]
    #[verifier::rlimit(40)]
    fn grep_recursive(
        &self,
        id: InodeId,
        base: &str,
        pat: &Pattern,
        results: &mut Vec<GrepResult>,
        session: Option<&Session>,
        fuel: usize,
    ) -> (r: Result<(), VfsError>)
        ensures
            match self.grep_rows(id, base@, pat@, session, fuel as nat) {
                Ok(rows) => r is Ok && final(results)@.map_values(|g: GrepResult| row_of(g))
                    == old(results)@.map_values(|g: GrepResult| row_of(g)) + rows,
                Err(e) => r is Err && r->Err_0@ == e,
            },
        decreases fuel,
    {
        if fuel == 0 {
            proof {
                assert(results@.map_values(|g: GrepResult| row_of(g)) =~= results@.map_values(
                    |g: GrepResult| row_of(g),
                ) + Seq::<(Seq<char>, int, Seq<char>)>::empty());
            }
            return Ok(());
        }
        let entries = self.dir_entries(id)?;
        let ghost es = entries@;
        let ghost start = results@.map_values(|g: GrepResult| row_of(g));
        let ghost f1 = (fuel - 1) as nat;
        let mut j: usize = 0;
        proof {
            assert(es.take(0) =~= Seq::<(String, InodeId)>::empty());
            assert(results@.map_values(|g: GrepResult| row_of(g)) =~= start + Seq::<
                (Seq<char>, int, Seq<char>),
            >::empty());
        }
        while j < entries.len()
            invariant
                j <= es.len(),
                es == entries@,
                fuel > 0,
                f1 == fuel - 1,
                self.dir_of(id) == Ok::<Seq<(String, InodeId)>, ErrorView>(es),
                self.grep_items(es.take(j as int), base@, pat@, session, f1) is Ok,
                results@.map_values(|g: GrepResult| row_of(g)) == start + self.grep_items(
                    es.take(j as int),
                    base@,
                    pat@,
                    session,
                    f1,
                )->Ok_0,
            decreases es.len() - j,
        {
            let child_id = entries[j].1;
            let name = entries[j].0.as_str();
            let ghost rows = self.grep_items(es.take(j as int), base@, pat@, session, f1)->Ok_0;
            proof {
                assert(es.take(j + 1).drop_last() =~= es.take(j as int));
                assert(es.take(j + 1).last() == es[j as int]);
            }
            if self.is_visible(child_id, session) {
                let cp = join_child(base, name);
                let child = match self.get_inode(child_id) {
                    Ok(c) => c,
                    Err(e) => {
                        proof {
                            self.lemma_grep_items_err(es, j + 1, base@, pat@, session, f1);
                        }
                        return Err(e);
                    },
                };
                match &child.kind {
                    InodeKind::File { content } => {
                        grep_content(cp.as_str(), pat, content.as_slice(), results);
                        proof {
                            assert(results@.map_values(|g: GrepResult| row_of(g)) =~= start + (rows
                                + matching_lines(cp@, pat@, lines_of(utf8_lossy(content@)))));
                        }
                    },
                    InodeKind::Directory { .. } => {
                        match self.grep_recursive(child_id, cp.as_str(), pat, results, session, fuel - 1) {
                            Ok(()) => {},
                            Err(e) => {
                                proof {
                                    self.lemma_grep_items_err(es, j + 1, base@, pat@, session, f1);
                                }
                                return Err(e);
                            },
                        }
                        proof {
                            let sub = self.grep_rows(child_id, cp@, pat@, session, f1)->Ok_0;
                            assert(results@.map_values(|g: GrepResult| row_of(g)) =~= start + (rows
                                + sub));
                        }
                    },
                    InodeKind::Symlink { .. } => {},
                }
            }
            j += 1;
        }
        proof {
            assert(es.take(es.len() as int) =~= es);
        }
        Ok(())
    }

    /// The lines that a regular expression matches: in a file, or with
    /// `recursive` in every file below a directory. Matches are named by the
    /// path given ("." without one) and the path below it.
    pub fn grep(
        &self,
        pattern: &str,
        path: Option<&str>,
        recursive: bool,
        session: Option<&Session>,
    ) -> (r: Result<Vec<GrepResult>, VfsError>)
        requires
            self.wf(),
        ensures
            match self.grep_result(pattern@, opt_text(path), recursive, session) {
                Err(e) => r is Err && r->Err_0@ == e,
                Ok(rows) => r is Ok && r->Ok_0@.map_values(|g: GrepResult| row_of(g)) == rows,
            },
    {
        let pat = match compile(pattern) {
            Ok(p) => p,
            Err(msg) => {
                let mut message = owned("invalid regex: ");
                push_str(&mut message, msg.as_str());
                return Err(VfsError::InvalidArgs { message });
            },
        };
        let id = match path {
            Some(p) => self.resolve_path(p)?,
            None => self.cwd,
        };
        let base = match path {
            Some(p) => owned(p),
            None => owned("."),
        };
        let mut results: Vec<GrepResult> = Vec::new();
        proof {
            assert(results@.map_values(|g: GrepResult| row_of(g)) =~= Seq::<
                (Seq<char>, int, Seq<char>),
            >::empty());
        }
        let inode = self.get_inode(id)?;
        match &inode.kind {
            InodeKind::File { content } => {
                grep_content(base.as_str(), &pat, content.as_slice(), &mut results);
                proof {
                    let m = matching_lines(base@, pattern@, lines_of(utf8_lossy(content@)));
                    assert(Seq::<(Seq<char>, int, Seq<char>)>::empty() + m =~= m);
                }
            },
            InodeKind::Directory { .. } => {
                if recursive {
                    let fuel = self.inode_count();
                    self.grep_recursive(id, base.as_str(), &pat, &mut results, session, fuel)?;
                    proof {
                        let rows = self.grep_rows(id, base@, pattern@, session, fuel as nat)->Ok_0;
                        assert(Seq::<(Seq<char>, int, Seq<char>)>::empty() + rows =~= rows);
                    }
                } else {
                    return Err(VfsError::IsDirectory { path: base });
                }
            },
            InodeKind::Symlink { .. } => {},
        }
        Ok(results)
    }
}


impl VirtualFs {
    /// Where an optional path leads: the working directory without one.
    pub open spec fn target_text(&self, path: Option<Seq<char>>) -> Result<InodeId, ErrorView> {
        match path {
            Some(p) => self.resolve(p),
            None => Ok(self.cwd()),
        }
    }

    /// What `find` gives: the paths below the target (the working
    /// directory without a path) whose names the glob selects; the paths
    /// start with the path given, or ".".
    pub open spec fn find_result(
        &self,
        path: Option<Seq<char>>,
        pattern: Option<Seq<char>>,
        session: Option<&Session>,
    ) -> Result<Seq<Seq<char>>, ErrorView> {
        match self.target_text(path) {
            Err(e) => Err(e),
            Ok(id) => self.find_rows(
                id,
                match path {
                    Some(p) => p,
                    None => "."@,
                },
                pattern,
                session,
                self.inodes().dom().len(),
            ),
        }
    }

    /// What `grep` gives: the matching lines of a file; with `recursive`,
    /// of the files below a directory; nothing for a link.
    pub open spec fn grep_result(
        &self,
        pattern: Seq<char>,
        path: Option<Seq<char>>,
        recursive: bool,
        session: Option<&Session>,
    ) -> Result<Seq<(Seq<char>, int, Seq<char>)>, ErrorView> {
        match regex_compiled(pattern) {
            Err(msg) => Err(ErrorView::InvalidArgs("invalid regex: "@ + msg)),
            Ok(_) => {
                let base = match path {
                    Some(p) => p,
                    None => "."@,
                };
                match self.target_text(path) {
                    Err(e) => Err(e),
                    Ok(id) => if !self.inodes().contains_key(id) {
                        Err(ErrorView::NotFound(label(id)))
                    } else {
                        match self.inodes()[id].kind {
                            KindView::File(c) => Ok(matching_lines(base, pattern, lines_of(utf8_lossy(c)))),
                            KindView::Directory(_) => if recursive {
                                self.grep_rows(id, base, pattern, session, self.inodes().dom().len())
                            } else {
                                Err(ErrorView::IsDirectory(base))
                            },
                            KindView::Symlink(_) => Ok(Seq::empty()),
                        }
                    },
                }
            },
        }
    }
}

} // verus!
