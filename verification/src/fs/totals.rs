//! What `status` counts: the files of a file system.

use vstd::prelude::*;
use super::inode::InodeId;
use super::VirtualFs;

verus! {

impl VirtualFs {
    /// The inodes of `s` that are files, empty or not.
    pub open spec fn files_in(&self, s: Set<InodeId>) -> Set<InodeId> {
        s.filter(|k: InodeId| self.inodes()[k].kind is File)
    }

    /// Folding the counting step over a set counts its files.
    proof fn lemma_fold_files(&self, s: Set<InodeId>)
        requires
            s.finite(),
        ensures
            s.fold((0nat, 0nat), self.totals_step()).0 == self.files_in(s).len(),
        decreases s.len(),
    {
        let f = self.totals_step();
        assert(vstd::set::fold::is_fun_commutative(f)) by {
            assert forall|a1: InodeId, a2: InodeId, b: (nat, nat)| #[trigger] f(f(b, a2), a1) == f(f(b, a1), a2) by {}
        }
        if s.len() == 0 {
            assert(s =~= Set::<InodeId>::empty());
            vstd::set::fold::lemma_fold_empty((0nat, 0nat), f);
            assert(self.files_in(s) =~= Set::<InodeId>::empty());
        } else {
            let x = s.choose();
            let r = s.remove(x);
            self.lemma_fold_files(r);
            vstd::set::fold::lemma_fold_insert(r, (0nat, 0nat), f, x);
            assert(r.insert(x) =~= s);
            if self.inodes()[x].kind is File {
                assert(self.files_in(s) =~= self.files_in(r).insert(x));
                assert(!self.files_in(r).contains(x));
            } else {
                assert(self.files_in(s) =~= self.files_in(r));
            }
        }
    }

    /// The file count of `status` is the number of inodes that are files,
    /// empty or not: every file counts once, and nothing else counts.
    pub proof fn lemma_file_count(&self)
        ensures
            self.file_totals().0 == self.files_in(self.inodes().dom()).len(),
    {
        vstd::std_specs::hash::axiom_hashmap_view_finite_dom(self.inodes);
        assert(self.inodes().dom() =~= self.inodes@.dom());
        self.lemma_fold_files(self.inodes().dom());
    }

}

} // verus!
