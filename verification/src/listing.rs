//! Listings from names to values, kept in ascending order of name: the
//! entries of a directory and the name indexes of the user registry.

use vstd::prelude::*;
use crate::text::{chars_lt, lemma_seq_lt_irreflexive, lemma_seq_lt_total, lemma_seq_lt_transitive,
    seq_lt, str_eq, to_chars};

verus! {


/// The names of a listing are in strictly ascending order (so each occurs
/// once).
pub open spec fn names_sorted<V>(es: Seq<(String, V)>) -> bool {
    forall|i: int, j: int| 0 <= i < j < es.len() ==> seq_lt(#[trigger] es[i].0@, #[trigger] es[j].0@)
}

/// Whether a listing has an entry of the given name.
pub open spec fn has_name<V>(es: Seq<(String, V)>, name: Seq<char>) -> bool {
    exists|i: int| 0 <= i < es.len() && #[trigger] es[i].0@ == name
}

/// The position of an entry of the given name.
pub open spec fn entry_index<V>(es: Seq<(String, V)>, name: Seq<char>) -> int {
    choose|i: int| 0 <= i < es.len() && #[trigger] es[i].0@ == name
}

/// The inode that a listing maps a name to.
pub open spec fn entry_target<V>(es: Seq<(String, V)>, name: Seq<char>) -> V {
    es[entry_index(es, name)].1
}

/// A listing as a map from names to inode ids.
pub open spec fn dir_map<V>(es: Seq<(String, V)>) -> Map<Seq<char>, V> {
    Map::new(|n: Seq<char>| has_name(es, n), |n: Seq<char>| entry_target(es, n))
}

/// In a sorted listing, the entry at a position is the one its name maps to.
pub proof fn lemma_sorted_target<V>(es: Seq<(String, V)>, i: int)
    requires
        names_sorted(es),
        0 <= i < es.len(),
    ensures
        has_name(es, es[i].0@),
        entry_target(es, es[i].0@) == es[i].1,
        dir_map(es).contains_key(es[i].0@),
        dir_map(es)[es[i].0@] == es[i].1,
{
    let n = es[i].0@;
    assert(es[i].0@ == n);
    let k = entry_index(es, n);
    if k != i {
        if k < i {
            assert(seq_lt(es[k].0@, es[i].0@));
        } else {
            assert(seq_lt(es[i].0@, es[k].0@));
        }
        lemma_seq_lt_irreflexive(n);
    }
}

/// The id that a listing gives a name, if any.
pub fn dir_lookup<V: Copy>(es: &Vec<(String, V)>, name: &str) -> (r: Option<V>)
    requires
        names_sorted(es@),
    ensures
        r == (if dir_map(es@).contains_key(name@) {
            Some(dir_map(es@)[name@])
        } else {
            None::<V>
        }),
{
    let mut i: usize = 0;
    while i < es.len()
        invariant
            i <= es.len(),
            names_sorted(es@),
            forall|j: int| 0 <= j < i ==> es@[j].0@ != name@,
        decreases es.len() - i,
    {
        if str_eq(es[i].0.as_str(), name) {
            proof {
                lemma_sorted_target(es@, i as int);
            }
            return Some(es[i].1);
        }
        i += 1;
    }
    None
}

/// Whether a name is less than another in the order of `str`.
pub fn str_lt(a: &str, b: &str) -> (r: bool)
    ensures
        r == seq_lt(a@, b@),
{
    let x = to_chars(a);
    let y = to_chars(b);
    chars_lt(x.as_slice(), y.as_slice())
}

/// Maps `name` to `id` in a listing, replacing an entry of the same name,
/// and keeps the listing in order.
pub fn dir_insert<V>(es: &mut Vec<(String, V)>, name: String, id: V)
    requires
        names_sorted(old(es)@),
    ensures
        names_sorted(final(es)@),
        dir_map(final(es)@) == dir_map(old(es)@).insert(name@, id),
{
    let ghost old_es = es@;
    let mut i: usize = 0;
    while i < es.len()
        invariant
            i <= es.len(),
            es@ == old_es,
            names_sorted(es@),
            forall|j: int| 0 <= j < i ==> seq_lt(#[trigger] es@[j].0@, name@),
        ensures
            i <= es.len(),
            es@ == old_es,
            forall|j: int| 0 <= j < i ==> seq_lt(#[trigger] es@[j].0@, name@),
            i < es.len() ==> !seq_lt(es@[i as int].0@, name@),
        decreases es.len() - i,
    {
        if !str_lt(es[i].0.as_str(), name.as_str()) {
            break;
        }
        i += 1;
    }
    if i < es.len() && str_eq(es[i].0.as_str(), name.as_str()) {
        let ghost n = name@;
        let (_, _) = es.remove(i);
        es.insert(i, (name, id));
        proof {
            assert forall|a: int, b: int| 0 <= a < b < es@.len() implies seq_lt(
                #[trigger] es@[a].0@,
                #[trigger] es@[b].0@,
            ) by {
                assert(es@[a].0@ == old_es[a].0@);
                assert(es@[b].0@ == old_es[b].0@);
            }
            lemma_dir_map_replace(old_es, es@, i as int, n, id);
        }
    } else {
        let ghost n = name@;
        proof {
            if i < es.len() {
                lemma_seq_lt_total(es@[i as int].0@, n);
                assert(seq_lt(n, old_es[i as int].0@));
            }
        }
        es.insert(i, (name, id));
        proof {
            assert forall|a: int, b: int| 0 <= a < b < es@.len() implies seq_lt(
                #[trigger] es@[a].0@,
                #[trigger] es@[b].0@,
            ) by {
                if b < i {
                } else if b == i {
                    assert(es@[a] == old_es[a]);
                } else if a == i {
                    assert(es@[b] == old_es[b - 1]);
                    if b - 1 > i {
                        assert(seq_lt(old_es[i as int].0@, old_es[b - 1].0@));
                        lemma_seq_lt_transitive(n, old_es[i as int].0@, old_es[b - 1].0@);
                    }
                } else if a < i {
                    assert(es@[a] == old_es[a]);
                    assert(es@[b] == old_es[b - 1]);
                } else {
                    assert(es@[a] == old_es[a - 1]);
                    assert(es@[b] == old_es[b - 1]);
                }
            }
            lemma_dir_map_insert_new(old_es, es@, i as int, n, id);
        }
    }
}

proof fn lemma_dir_map_replace<V>(
    old_es: Seq<(String, V)>,
    new_es: Seq<(String, V)>,
    i: int,
    n: Seq<char>,
    id: V,
)
    requires
        names_sorted(old_es),
        names_sorted(new_es),
        0 <= i < old_es.len(),
        old_es[i].0@ == n,
        new_es.len() == old_es.len(),
        new_es[i].0@ == n,
        new_es[i].1 == id,
        forall|j: int| 0 <= j < old_es.len() && j != i ==> new_es[j] == old_es[j],
    ensures
        dir_map(new_es) == dir_map(old_es).insert(n, id),
{
    assert forall|m: Seq<char>| #[trigger] has_name(new_es, m) == (has_name(old_es, m) || m == n) by {
        if has_name(old_es, m) {
            let k = choose|k: int| 0 <= k < old_es.len() && #[trigger] old_es[k].0@ == m;
            if k == i {
                assert(new_es[i].0@ == m);
            } else {
                assert(new_es[k].0@ == m);
            }
        }
        if has_name(new_es, m) {
            let k = choose|k: int| 0 <= k < new_es.len() && #[trigger] new_es[k].0@ == m;
            if k != i {
                assert(old_es[k].0@ == m);
            }
        }
        if m == n {
            assert(new_es[i].0@ == m);
        }
    }
    assert forall|m: Seq<char>| #[trigger] has_name(new_es, m) implies dir_map(new_es)[m] == dir_map(
        old_es,
    ).insert(n, id)[m] by {
        let k = choose|k: int| 0 <= k < new_es.len() && #[trigger] new_es[k].0@ == m;
        lemma_sorted_target(new_es, k);
        if k != i {
            assert(old_es[k].0@ == m);
            lemma_sorted_target(old_es, k);
            if m == n {
                if k < i {
                    assert(seq_lt(new_es[k].0@, new_es[i].0@));
                } else {
                    assert(seq_lt(new_es[i].0@, new_es[k].0@));
                }
                lemma_seq_lt_irreflexive(n);
            }
        }
    }
    assert(dir_map(new_es) =~= dir_map(old_es).insert(n, id));
}

proof fn lemma_dir_map_insert_new<V>(
    old_es: Seq<(String, V)>,
    new_es: Seq<(String, V)>,
    i: int,
    n: Seq<char>,
    id: V,
)
    requires
        names_sorted(old_es),
        names_sorted(new_es),
        0 <= i <= old_es.len(),
        new_es == old_es.insert(i, (new_es[i].0, id)),
        new_es[i].0@ == n,
    ensures
        dir_map(new_es) == dir_map(old_es).insert(n, id),
{
    assert forall|m: Seq<char>| #[trigger] has_name(new_es, m) == (has_name(old_es, m) || m == n) by {
        if has_name(old_es, m) {
            let k = choose|k: int| 0 <= k < old_es.len() && #[trigger] old_es[k].0@ == m;
            if k < i {
                assert(new_es[k].0@ == m);
            } else {
                assert(new_es[k + 1].0@ == m);
            }
        }
        if has_name(new_es, m) {
            let k = choose|k: int| 0 <= k < new_es.len() && #[trigger] new_es[k].0@ == m;
            if k < i {
                assert(old_es[k].0@ == m);
            } else if k > i {
                assert(old_es[k - 1].0@ == m);
            }
        }
        if m == n {
            assert(new_es[i].0@ == m);
        }
    }
    assert forall|m: Seq<char>| #[trigger] has_name(new_es, m) implies dir_map(new_es)[m] == dir_map(
        old_es,
    ).insert(n, id)[m] by {
        let k = choose|k: int| 0 <= k < new_es.len() && #[trigger] new_es[k].0@ == m;
        lemma_sorted_target(new_es, k);
        if k != i && m == n {
            if k < i {
                assert(seq_lt(new_es[k].0@, new_es[i].0@));
            } else {
                assert(seq_lt(new_es[i].0@, new_es[k].0@));
            }
            lemma_seq_lt_irreflexive(n);
        }
        if k < i {
            assert(old_es[k] == new_es[k]);
            lemma_sorted_target(old_es, k);
        } else if k > i {
            assert(old_es[k - 1] == new_es[k]);
            lemma_sorted_target(old_es, k - 1);
        }
    }
    assert(dir_map(new_es) =~= dir_map(old_es).insert(n, id));
}

/// Removes the entry of a name from a listing, if there is one.
pub fn dir_remove<V>(es: &mut Vec<(String, V)>, name: &str)
    requires
        names_sorted(old(es)@),
    ensures
        names_sorted(final(es)@),
        dir_map(final(es)@) == dir_map(old(es)@).remove(name@),
        forall|j: int|
            0 <= j < final(es)@.len() ==> #[trigger] old(es)@.contains(final(es)@[j]),
{
    let ghost old_es = es@;
    let mut i: usize = 0;
    while i < es.len()
        invariant
            i <= es.len(),
            old_es == old(es)@,
            es@ == old_es,
            names_sorted(es@),
            forall|j: int| 0 <= j < i ==> es@[j].0@ != name@,
        decreases es.len() - i,
    {
        if str_eq(es[i].0.as_str(), name) {
            let _ = es.remove(i);
            proof {
                assert forall|a: int, b: int| 0 <= a < b < es@.len() implies seq_lt(
                    #[trigger] es@[a].0@,
                    #[trigger] es@[b].0@,
                ) by {
                    if a < i && b >= i {
                        assert(es@[b] == old_es[b + 1]);
                    } else if a >= i {
                        assert(es@[a] == old_es[a + 1]);
                        assert(es@[b] == old_es[b + 1]);
                    }
                }
                assert forall|j: int| 0 <= j < es@.len() implies #[trigger] old_es.contains(
                    es@[j],
                ) by {
                    if j < i {
                        assert(old_es[j] == es@[j]);
                    } else {
                        assert(old_es[j + 1] == es@[j]);
                    }
                }
                lemma_dir_map_removed(old_es, es@, i as int);
            }
            return;
        }
        i += 1;
    }
    proof {
        assert(!has_name(old_es, name@));
        assert(dir_map(old_es) =~= dir_map(old_es).remove(name@));
        assert forall|j: int| 0 <= j < es@.len() implies #[trigger] old_es.contains(es@[j]) by {
            assert(old_es[j] == es@[j]);
        }
    }
}

proof fn lemma_dir_map_removed<V>(old_es: Seq<(String, V)>, new_es: Seq<(String, V)>, i: int)
    requires
        names_sorted(old_es),
        names_sorted(new_es),
        0 <= i < old_es.len(),
        new_es == old_es.remove(i),
    ensures
        dir_map(new_es) == dir_map(old_es).remove(old_es[i].0@),
{
    let n = old_es[i].0@;
    assert forall|m: Seq<char>| #[trigger] has_name(new_es, m) == (has_name(old_es, m) && m != n) by {
        if has_name(old_es, m) && m != n {
            let k = choose|k: int| 0 <= k < old_es.len() && #[trigger] old_es[k].0@ == m;
            if k < i {
                assert(new_es[k].0@ == m);
            } else {
                assert(new_es[k - 1].0@ == m);
            }
        }
        if has_name(new_es, m) {
            let k = choose|k: int| 0 <= k < new_es.len() && #[trigger] new_es[k].0@ == m;
            if k < i {
                assert(old_es[k].0@ == m);
                assert(seq_lt(old_es[k].0@, old_es[i].0@));
                lemma_seq_lt_irreflexive(m);
            } else {
                assert(old_es[k + 1].0@ == m);
                assert(seq_lt(old_es[i].0@, old_es[k + 1].0@));
                lemma_seq_lt_irreflexive(m);
            }
        }
    }
    assert forall|m: Seq<char>| #[trigger] has_name(new_es, m) implies dir_map(new_es)[m] == dir_map(
        old_es,
    )[m] by {
        let k = choose|k: int| 0 <= k < new_es.len() && #[trigger] new_es[k].0@ == m;
        lemma_sorted_target(new_es, k);
        if k < i {
            lemma_sorted_target(old_es, k);
        } else {
            lemma_sorted_target(old_es, k + 1);
        }
    }
    assert(dir_map(new_es) =~= dir_map(old_es).remove(n));
}

/// A copy of a listing.
pub fn copy_entries<V: Copy>(es: &Vec<(String, V)>) -> (r: Vec<(String, V)>)
    ensures
        r@ == es@,
{
    let mut r: Vec<(String, V)> = Vec::new();
    let mut i: usize = 0;
    while i < es.len()
        invariant
            i <= es.len(),
            r@ == es@.take(i as int),
        decreases es.len() - i,
    {
        let name = es[i].0.clone();
        r.push((name, es[i].1));
        proof {
            assert(r@ =~= es@.take(i + 1));
        }
        i += 1;
    }
    assert(es@.take(es@.len() as int) =~= es@);
    r
}


/// Whether a listing's names are in strictly ascending order.
pub fn check_sorted<V>(es: &Vec<(String, V)>) -> (r: bool)
    ensures
        r == names_sorted(es@),
{
    if es.len() == 0 {
        return true;
    }
    let mut i: usize = 1;
    while i < es.len()
        invariant
            1 <= i <= es@.len(),
            forall|a: int, b: int| 0 <= a < b < i ==> seq_lt(#[trigger] es@[a].0@, #[trigger] es@[b].0@),
        decreases es.len() - i,
    {
        if !str_lt(es[i - 1].0.as_str(), es[i].0.as_str()) {
            return false;
        }
        proof {
            assert forall|a: int, b: int| 0 <= a < b < i + 1 implies seq_lt(#[trigger] es@[a].0@, #[trigger] es@[b].0@) by {
                if b == i && a < i - 1 {
                    lemma_seq_lt_transitive(es@[a].0@, es@[i - 1].0@, es@[i as int].0@);
                }
            }
        }
        i += 1;
    }
    true
}

} // verus!
