//! What a package-manager backend offers.
use crate::pathstr::paths_of;
use crate::rootfs::RootFS;
use crate::textops::{lower_of, to_lower};
use vstd::prelude::*;

verus! {

/// The package-manager family of a system.
#[derive(Clone, Copy, PartialEq, Eq, Structural, Debug)]
pub enum Backend {
    Debian,
    RedHat,
}

/// Systems of the Debian family, by their lower-case OS id.
pub open spec fn debian_family(id: Seq<char>) -> bool {
    id == "ubuntu"@ || id == "debian"@ || id == "mint"@
}

/// The backend for a lower-case OS id
pub fn backend_for_folded(id: &str) -> (r: Backend)
    ensures
        r == if debian_family(id@) {
            Backend::Debian
        } else {
            Backend::RedHat
        },
{
    let s = id.to_owned();
    if s == "ubuntu".to_owned() || s == "debian".to_owned() || s == "mint".to_owned() {
        Backend::Debian
    } else {
        Backend::RedHat
    }
}

/// The backend for an OS id as the system reports it
pub fn backend_for(id: &str) -> (r: Backend)
    ensures
        r == if debian_family(lower_of(id@)) {
            Backend::Debian
        } else {
            Backend::RedHat
        },
{
    let lower = to_lower(id);
    backend_for_folded(lower.as_str())
}

/// Package dependency trace
pub trait PkgDepTrace {
    /// The packages at which the trace stops.
    spec fn stops_at(&self) -> Set<Seq<char>>;

    /// The packages found so far.
    spec fn found_so_far(&self) -> Set<Seq<char>>;

    /// The trace's own consistency.
    spec fn well_formed(&self) -> bool;

    fn exclude(&mut self, pkgs: Vec<String>)
        ensures
            final(self).stops_at() == old(self).stops_at().union(paths_of(pkgs@)),
            final(self).found_so_far() == old(self).found_so_far(),
            old(self).well_formed() ==> final(self).well_formed(),
    ;

    fn trace(&self) -> (r: Vec<String>)
        ensures
            paths_of(r@) == self.found_so_far(),
    ;
}

/// Which package a file belongs to
pub trait PkgFileTrace {
    /// The backend may name `pkg` as the owner of `p`.
    spec fn may_own(&self, fs: RootFS, p: Seq<char>, pkg: Seq<char>) -> bool;

    /// The backend knows no owner of `p`.
    spec fn owns_nothing(&self, fs: RootFS, p: Seq<char>) -> bool;

    /// Return a package name, to which this file belongs to
    fn trace(&self, filename: &String, fs: &RootFS) -> (r: Option<String>)
        ensures
            r matches Some(s) ==> self.may_own(*fs, filename@, s@),
            r is None ==> self.owns_nothing(*fs, filename@),
    ;
}

} // verus!
