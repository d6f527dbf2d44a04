//! The search for repositories under a directory, as a worklist that the
//! caller feeds with what it finds on disk.
use vstd::prelude::*;

verus! {

/// The directories still to visit, and the count of repositories found
/// that are not clean.
///
/// A visit goes: `next_dir` hands out a directory; if it directly holds the
/// version-control metadata directory it is a repository root, whose check
/// result goes to `record_repo`, and it is not entered; otherwise its
/// subdirectories go to `record_subdirs`, to be visited in the order given,
/// before any directory that was pending already.
pub struct RepoWalker<D> {
    /// The directories to visit, the next one last.
    pub pending: Vec<D>,
    /// The number of repositories found that are not clean, capped at the
    /// largest `u64`.
    pub failing: u64,
}

impl<D> RepoWalker<D> {
    /// A walk that starts at `root`.
    pub fn new(root: D) -> (r: Self)
        ensures
            r.pending@ == seq![root],
            r.failing == 0,
    {
        let mut pending: Vec<D> = Vec::new();
        pending.push(root);
        RepoWalker { pending, failing: 0 }
    }

    /// The next directory to visit, which leaves the worklist, or `None`
    /// when the walk is over.
    pub fn next_dir(&mut self) -> (r: Option<D>)
        ensures
            old(self).pending@.len() == 0 ==> r is None && final(self).pending@.len() == 0
                && final(self).failing == old(self).failing,
            old(self).pending@.len() > 0 ==> r == Some(old(self).pending@.last())
                && final(self).pending@ == old(self).pending@.drop_last()
                && final(self).failing == old(self).failing,
    {
        self.pending.pop()
    }

    /// Records the check of a repository root: one more failing repository
    /// unless it is clean.
    pub fn record_repo(&mut self, clean: bool)
        ensures
            final(self).pending == old(self).pending,
            final(self).failing == if clean || old(self).failing == u64::MAX {
                old(self).failing
            } else {
                (old(self).failing + 1) as u64
            },
    {
        if !clean && self.failing < u64::MAX {
            self.failing = self.failing + 1;
        }
    }

    /// Records the subdirectories of a directory that is no repository
    /// root: they are visited next, in the order given.
    pub fn record_subdirs(&mut self, subdirs: Vec<D>)
        ensures
            final(self).pending@ == old(self).pending@ + subdirs@.reverse(),
            final(self).failing == old(self).failing,
    {
        let mut k: usize = subdirs.len();
        let mut rest = subdirs;
        let ghost orig = rest@;
        let ghost start = self.pending@;
        while k > 0
            invariant
                k == rest@.len(),
                rest@ == orig.take(k as int),
                k <= orig.len(),
                self.pending@ == start + orig.skip(k as int).reverse(),
                self.failing == old(self).failing,
            decreases k,
        {
            let d = rest.pop().unwrap();
            self.pending.push(d);
            k = k - 1;
            assert(orig.skip(k as int).reverse() =~= orig.skip(k + 1).reverse().push(orig[k as int]));
            assert(rest@ =~= orig.take(k as int));
        }
        assert(orig.skip(0) =~= orig);
    }
}

} // verus!
