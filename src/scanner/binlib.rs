//! The shared libraries an ELF file needs, followed transitively.
use super::general::{ScannerCommons, Worklist};
use crate::pathstr::{distinct_paths, paths_of, texts};
use vstd::prelude::*;

verus! {

/// Collects the libraries of a target: ask the reader about `next_target`,
/// hand what it lists to `collect_dl`, until nothing is left.
pub struct ElfScanner {
    pub commons: ScannerCommons,
    pub work: Worklist,
}

impl ElfScanner {
    pub fn new() -> (r: Self)
        ensures
            r.work.wf(),
            r.work.seen@.len() == 0 && r.work.pending@.len() == 0 && r.work.excluded@.len() == 0,
            r.commons.elfrd_p@.len() == 0,
    {
        ElfScanner { commons: ScannerCommons::new(), work: Worklist::new() }
    }

    /// Starts a scan of `target`
    pub fn start(&mut self, target: String)
        ensures
            final(self).work.wf(),
            final(self).work.seen@.len() == 0,
            texts(final(self).work.pending@) == seq![target@],
            final(self).work.asking is None,
            final(self).work.root@ == Some(target@),
            final(self).work.excluded == old(self).work.excluded,
            final(self).commons == old(self).commons,
    {
        self.work.start(target);
    }

    /// The next file to ask the reader about; a file asked about before
    /// whose libraries never came is taken as needing none
    pub fn next_target(&mut self) -> (r: Option<String>)
        requires
            old(self).work.wf(),
        ensures
            final(self).work.wf(),
            final(self).work.seen == old(self).work.seen,
            final(self).work.excluded == old(self).work.excluded,
            final(self).commons == old(self).commons,
            old(self).work.pending@.len() == 0 ==> r is None && final(self).work.pending
                == old(self).work.pending,
            old(self).work.pending@.len() > 0 ==> r == Some(old(self).work.pending@.last())
                && final(self).work.pending@ == old(self).work.pending@.drop_last(),
            final(self).work.asking == r,
    {
        self.work.next()
    }

    /// Takes the libraries the reader listed for the file asked about last:
    /// those not seen before are kept and will be scanned in turn
    pub fn collect_dl(&mut self, libs: &Vec<String>)
        requires
            old(self).work.wf(),
        ensures
            final(self).work.wf(),
            final(self).commons == old(self).commons,
            old(self).work.asking is None ==> final(self).work == old(self).work,
            old(self).work.asking is Some ==> final(self).work.asking is None
                && paths_of(final(self).work.seen@) == paths_of(old(self).work.seen@).union(
                paths_of(libs@).difference(paths_of(old(self).work.excluded@)),
            ) && paths_of(final(self).work.pending@) == paths_of(old(self).work.pending@).union(
                paths_of(libs@).difference(paths_of(old(self).work.excluded@)).difference(
                    paths_of(old(self).work.seen@),
                ),
            ) && final(self).work.answers@.dom().contains(old(self).work.asked()->0)
                && paths_of(libs@).subset_of(final(self).work.answers@[old(self).work.asked()->0]),
    {
        self.work.feed(libs);
    }

    /// The dynamic libraries found so far. Once no file waits and none is
    /// being asked about, every file scanned (the target and each library)
    /// had its libraries all found, and the libraries are exactly those the
    /// reader listed for the target and, in turn, for each library found.
    pub fn get_dynlibs(&self) -> (r: Vec<String>)
        requires
            self.work.wf(),
        ensures
            r@ == self.work.seen@,
            distinct_paths(r@),
            self.work.pending@.len() == 0 && self.work.asking is None ==> self.work.closed(),
            self.work.pending@.len() == 0 && self.work.asking is None && self.work.excluded@.len() == 0
                ==> paths_of(r@) == self.work.closure(),
    {
        self.work.found()
    }
}

} // verus!
