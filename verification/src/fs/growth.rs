//! How paths split into components, and how resolution by plain names
//! behaves while a file system only grows.

use vstd::prelude::*;
use crate::error::ErrorView;
use crate::fs::inode::InodeId;
use crate::fs::{comp_run, components, entries_of, same_meta, VirtualFs};
use crate::listing::dir_map;

verus! {

/// A name that stands as one component of a path and that resolution looks
/// up in a directory: not empty, without '/', neither "." nor "..".
pub open spec fn plain_name(n: Seq<char>) -> bool {
    &&& n.len() > 0
    &&& !n.contains('/')
    &&& n != seq!['.']
    &&& n != seq!['.', '.']
}

/// Components that are all plain names.
pub open spec fn plain_comps(cs: Seq<Seq<char>>) -> bool {
    forall|i: int| 0 <= i < cs.len() ==> plain_name(#[trigger] cs[i])
}

/// Components without "..".
pub open spec fn no_up(cs: Seq<Seq<char>>) -> bool {
    forall|i: int| 0 <= i < cs.len() ==> #[trigger] cs[i] != seq!['.', '.']
}

/// Plain components have no "..".
pub proof fn lemma_plain_no_up(cs: Seq<Seq<char>>)
    requires
        plain_comps(cs),
    ensures
        no_up(cs),
{
    assert forall|i: int| 0 <= i < cs.len() implies #[trigger] cs[i] != seq!['.', '.'] by {
        assert(plain_name(cs[i]));
    }
}

/// Splitting `s`, a slash and a name without slashes leaves the components
/// of `s` finished and the name in progress.
pub proof fn lemma_comp_run_name(s: Seq<char>, name: Seq<char>)
    requires
        !name.contains('/'),
    ensures
        comp_run(s + seq!['/'] + name) == (components(s), name),
    decreases name.len(),
{
    let whole = s + seq!['/'] + name;
    if name.len() == 0 {
        assert(whole.drop_last() =~= s);
        assert(whole.last() == '/');
    } else {
        let pre = name.drop_last();
        assert(!pre.contains('/')) by {
            if pre.contains('/') {
                let k = choose|k: int| 0 <= k < pre.len() && pre[k] == '/';
                assert(name[k] == '/');
            }
        }
        lemma_comp_run_name(s, pre);
        assert(whole.drop_last() =~= s + seq!['/'] + pre);
        assert(whole.last() == name[name.len() - 1]);
        assert(name.last() != '/') by {
            if name.last() == '/' {
                assert(name.contains('/')) by {
                    assert(name[name.len() - 1] == '/');
                }
            }
        }
        assert(pre.push(name.last()) =~= name);
    }
}

/// A path with a slash and a non-empty name added has that name as one more
/// component.
pub proof fn lemma_components_push(s: Seq<char>, name: Seq<char>)
    requires
        name.len() > 0,
        !name.contains('/'),
    ensures
        components(s + seq!['/'] + name) == components(s).push(name),
{
    lemma_comp_run_name(s, name);
}

/// The root path has no components.
pub proof fn lemma_components_root()
    ensures
        components(seq!['/']) == Seq::<Seq<char>>::empty(),
        components(Seq::<char>::empty()) == Seq::<Seq<char>>::empty(),
{
    assert(seq!['/'].drop_last() =~= Seq::<char>::empty());
    assert(comp_run(Seq::<char>::empty()) == (Seq::<Seq<char>>::empty(), Seq::<char>::empty()));
    assert(seq!['/'].last() == '/');
}

/// Walking one more component is one more step from where the others lead.
pub proof fn lemma_walk_push(fs: &VirtualFs, cur: InodeId, cs: Seq<Seq<char>>, c: Seq<char>, p: Seq<char>)
    ensures
        fs.walk(cur, cs.push(c), p) == (match fs.walk(cur, cs, p) {
            Err(e) => Err(e),
            Ok(x) => fs.step(x, c, p),
        }),
    decreases cs.len(),
{
    if cs.len() == 0 {
        assert(cs.push(c).drop_first() =~= Seq::<Seq<char>>::empty());
        assert(cs.push(c)[0] == c);
        match fs.step(cur, c, p) {
            Err(_) => {},
            Ok(next) => {
                assert(fs.walk(next, Seq::<Seq<char>>::empty(), p) == Ok::<InodeId, ErrorView>(next));
            },
        }
    } else {
        assert(cs.push(c)[0] == cs[0]);
        assert(cs.push(c).drop_first() =~= cs.drop_first().push(c));
        match fs.step(cur, cs[0], p) {
            Err(_) => {},
            Ok(next) => {
                lemma_walk_push(fs, next, cs.drop_first(), c, p);
            },
        }
    }
}

/// Where a walk that succeeds leads does not depend on the path named in
/// its errors.
pub proof fn lemma_walk_path(fs: &VirtualFs, cur: InodeId, cs: Seq<Seq<char>>, p: Seq<char>, q: Seq<char>)
    requires
        fs.walk(cur, cs, p) is Ok,
    ensures
        fs.walk(cur, cs, q) == fs.walk(cur, cs, p),
    decreases cs.len(),
{
    if cs.len() > 0 {
        let next = fs.step(cur, cs[0], p)->Ok_0;
        assert(fs.step(cur, cs[0], q) == fs.step(cur, cs[0], p));
        lemma_walk_path(fs, next, cs.drop_first(), p, q);
    }
}

/// `new` grew from `old` around directory `d`: the root, working directory
/// and registry are the same, every other inode of `old` is unchanged, and
/// `d` is still a directory, with its owner, group, mode and times, that
/// lists at least what it listed.
pub open spec fn grows(new: VirtualFs, old: VirtualFs, d: InodeId) -> bool {
    &&& new.frame(&old)
    &&& new.keeps_others(&old, set![d])
    &&& old.inodes().contains_key(d)
    &&& new.inodes().contains_key(d)
    &&& old.inodes()[d].kind is Directory
    &&& new.inodes()[d].kind is Directory
    &&& same_meta(old.inodes()[d], new.inodes()[d])
    &&& dir_map(entries_of(old.inodes()[d])).submap_of(dir_map(entries_of(new.inodes()[d])))
}

/// Growing twice around one directory is growing around it.
pub proof fn lemma_grows_trans(c: VirtualFs, b: VirtualFs, a: VirtualFs, d: InodeId)
    requires
        grows(b, a, d),
        grows(c, b, d),
    ensures
        grows(c, a, d),
{
    assert forall|k: InodeId|
        a.inodes().contains_key(k) && !set![d].contains(k) implies #[trigger] c.inodes().contains_key(k)
        && c.inodes()[k] == a.inodes()[k] by {
        assert(k != d);
        assert(b.inodes().contains_key(k));
        assert(b.inodes()[k] == a.inodes()[k]);
        assert(c.inodes().contains_key(k));
    }
    let ma = dir_map(entries_of(a.inodes()[d]));
    let mb = dir_map(entries_of(b.inodes()[d]));
    let mc = dir_map(entries_of(c.inodes()[d]));
    assert forall|x: Seq<char>| ma.dom().contains(x) implies #[trigger] mc.dom().contains(x) && ma[x] == mc[x] by {
        assert(mb.dom().contains(x));
    }
    assert(ma.submap_of(mc));
}

/// Growth around a new directory `n` inside growth around `d` is growth
/// around `d`.
pub proof fn lemma_grows_nested(c: VirtualFs, b: VirtualFs, a: VirtualFs, d: InodeId, n: InodeId)
    requires
        grows(b, a, d),
        grows(c, b, n),
        d != n,
        !a.inodes().contains_key(n),
    ensures
        grows(c, a, d),
{
    assert(c.inodes()[d] == b.inodes()[d]);
    assert forall|k: InodeId|
        a.inodes().contains_key(k) && !set![d].contains(k) implies #[trigger] c.inodes().contains_key(k)
        && c.inodes()[k] == a.inodes()[k] by {
        assert(b.inodes().contains_key(k));
        assert(k != n);
    }
}

/// A walk without ".." that succeeds still leads to the same place after
/// the file system grew.
pub proof fn lemma_walk_grows(new: VirtualFs, old: VirtualFs, d: InodeId, cur: InodeId, cs: Seq<Seq<char>>, p: Seq<char>)
    requires
        grows(new, old, d),
        no_up(cs),
        old.walk(cur, cs, p) is Ok,
    ensures
        new.walk(cur, cs, p) == old.walk(cur, cs, p),
    decreases cs.len(),
{
    if cs.len() > 0 {
        let c = cs[0];
        reveal_strlit(".");
        reveal_strlit("..");
        assert("."@ =~= seq!['.']);
        assert(".."@ =~= seq!['.', '.']);
        assert(c != ".."@);
        let next = old.step(cur, c, p)->Ok_0;
        if c != "."@ {
            assert(old.inodes().contains_key(cur));
            if cur != d {
                assert(new.inodes()[cur] == old.inodes()[cur]);
            } else {
                let om = dir_map(entries_of(old.inodes()[d]));
                assert(om.contains_key(c));
            }
        }
        assert(new.step(cur, c, p) == old.step(cur, c, p));
        assert(no_up(cs.drop_first())) by {
            assert forall|i: int| 0 <= i < cs.drop_first().len() implies #[trigger] cs.drop_first()[i] != seq![
                '.',
                '.',
            ] by {
                assert(cs.drop_first()[i] == cs[i + 1]);
            }
        }
        lemma_walk_grows(new, old, d, next, cs.drop_first(), p);
    }
}

} // verus!
