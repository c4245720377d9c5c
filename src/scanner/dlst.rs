//! What the report on a dry run is made of: counts, sizes and packages.
use super::general::known_total;
use crate::pathstr::{add_path, base_name, base_name_of, holds_path, parent_dir, parent_dir_of, paths_of};
use vstd::prelude::*;

verus! {

/// The lister for the finally gathered information, shown to the user
pub struct ContentFormatter {
    pub fs_data: Vec<String>,
    pub fs_removed: Option<Vec<String>>,
    pub bundled_packages: Option<Vec<String>>,
}

/// The names among the owners found.
pub open spec fn owner_names(owners: Seq<Option<String>>) -> Set<Seq<char>> {
    Set::new(|n: Seq<char>| exists|i: int| 0 <= i < owners.len() && #[trigger] owners[i] is Some && owners[i]->0@ == n)
}

impl ContentFormatter {
    pub fn new(fs_data: Vec<String>) -> (r: Self)
        ensures
            r.fs_data == fs_data,
            r.fs_removed is None,
            r.bundled_packages is None,
    {
        ContentFormatter { fs_data, fs_removed: None, bundled_packages: None }
    }

    /// Set removed data
    pub fn set_removed(&mut self, r: Vec<String>)
        ensures
            final(self).fs_removed == Some(r),
            final(self).fs_data == old(self).fs_data,
            final(self).bundled_packages == old(self).bundled_packages,
    {
        self.fs_removed = Some(r);
    }

    /// Set the packages the bundle owns; an empty list names none
    pub fn set_bundled_packages(&mut self, bp: &Vec<String>)
        ensures
            bp@.len() == 0 ==> *final(self) == *old(self),
            bp@.len() > 0 ==> (final(self).bundled_packages matches Some(b) && b@ == bp@),
            final(self).fs_data == old(self).fs_data,
            final(self).fs_removed == old(self).fs_removed,
    {
        if bp.len() == 0 {
            return;
        }
        let c = bp.clone();
        assert(c@ =~= bp@);
        self.bundled_packages = Some(c);
    }

    /// The number of removed files and their size on disk, from the disk
    /// size of each (where it could be read)
    pub fn format_removed(&self, sizes: &Vec<Option<u64>>) -> (r: (usize, i128))
        requires
            sizes@.len() <= 0x7fff_ffff_ffff_ffff,
            self.fs_removed matches Some(v) ==> sizes@.len() == v@.len(),
        ensures
            self.fs_removed is None ==> r == (0usize, 0i128),
            self.fs_removed matches Some(v) ==> r.0 == v@.len() && r.1 == known_total(sizes@),
    {
        match &self.fs_removed {
            None => (0, 0),
            Some(v) => {
                let mut sr = super::general::ScannerResult::new(v.clone());
                let total = if v.len() > 0 {
                    sr.get_size(sizes)
                } else {
                    proof {
                        assert(known_total(sizes@) == 0);
                    }
                    0
                };
                (v.len(), total)
            },
        }
    }

    /// The packages the kept files belong to, given the owner found for each
    /// (none where none was), and among them those the bundle does not own
    pub fn collect_package_data(&self, owners: &Vec<Option<String>>) -> (r: (Vec<String>, Vec<String>))
        ensures
            paths_of(r.0@) == owner_names(owners@),
            self.bundled_packages is None ==> r.1@.len() == 0,
            self.bundled_packages matches Some(b) ==> paths_of(r.1@) == owner_names(owners@).difference(
                paths_of(b@),
            ),
    {
        let mut pkgs: Vec<String> = Vec::new();
        assert(paths_of(pkgs@) =~= Set::<Seq<char>>::empty());
        let mut i: usize = 0;
        while i < owners.len()
            invariant
                i <= owners@.len(),
                paths_of(pkgs@) == owner_names(owners@.subrange(0, i as int)),
            decreases owners@.len() - i,
        {
            match &owners[i] {
                Some(s) => add_path(&mut pkgs, s.clone()),
                None => {},
            }
            proof {
                let a = owners@.subrange(0, i as int);
                let b = owners@.subrange(0, i + 1);
                assert forall|n: Seq<char>| owner_names(a).contains(n) implies owner_names(b).contains(n) by {
                    let j = choose|j: int| 0 <= j < a.len() && a[j] is Some && a[j]->0@ == n;
                    assert(b[j] == a[j]);
                }
                assert forall|n: Seq<char>| owner_names(b).contains(n) implies paths_of(pkgs@).contains(n) by {
                    let j = choose|j: int| 0 <= j < b.len() && b[j] is Some && b[j]->0@ == n;
                    if j < i {
                        assert(a[j] == b[j]);
                        assert(owner_names(a).contains(n));
                    }
                }
                if owners@[i as int] is Some {
                    assert(b[i as int] == owners@[i as int]);
                    assert(owner_names(b).contains(owners@[i as int]->0@));
                }
                assert(paths_of(pkgs@) =~= owner_names(b));
            }
            i = i + 1;
        }
        assert(owners@.subrange(0, owners@.len() as int) =~= owners@);
        let mut s_pkgs: Vec<String> = Vec::new();
        match &self.bundled_packages {
            None => {},
            Some(b) => {
                assert(paths_of(s_pkgs@) =~= Set::<Seq<char>>::empty());
                let mut k: usize = 0;
                while k < pkgs.len()
                    invariant
                        k <= pkgs@.len(),
                        paths_of(s_pkgs@) == paths_of(pkgs@.subrange(0, k as int)).difference(paths_of(b@)),
                    decreases pkgs@.len() - k,
                {
                    if !holds_path(b, &pkgs[k]) {
                        add_path(&mut s_pkgs, pkgs[k].clone());
                    }
                    proof {
                        let a = pkgs@.subrange(0, k as int);
                        let c = pkgs@.subrange(0, k + 1);
                        assert(paths_of(c) =~= paths_of(a).insert(pkgs@[k as int]@)) by {
                            assert forall|y: Seq<char>| paths_of(c).contains(y) implies paths_of(a).insert(pkgs@[k as int]@).contains(y) by {
                                let j = choose|j: int| 0 <= j < c.len() && c[j]@ == y;
                                if j < k {
                                    assert(a[j] == c[j]);
                                }
                            }
                            assert forall|y: Seq<char>| paths_of(a).insert(pkgs@[k as int]@).contains(y) implies paths_of(c).contains(y) by {
                                if y == pkgs@[k as int]@ {
                                    assert(c[k as int]@ == y);
                                } else {
                                    let j = choose|j: int| 0 <= j < a.len() && a[j]@ == y;
                                    assert(c[j] == a[j]);
                                }
                            }
                        }
                        assert(paths_of(s_pkgs@) =~= paths_of(c).difference(paths_of(b@)));
                    }
                    k = k + 1;
                }
                assert(pkgs@.subrange(0, pkgs@.len() as int) =~= pkgs@);
            },
        }
        (pkgs, s_pkgs)
    }

    /// Get the directory and name of a path; a directory has no name shown
    pub fn dn(&self, p: &str, is_dir: bool) -> (r: (String, String))
        ensures
            r.0@ == parent_dir(p@),
            is_dir ==> r.1@.len() == 0,
            !is_dir ==> r.1@ == base_name(p@),
    {
        let d = parent_dir_of(p);
        if is_dir {
            (d, String::new())
        } else {
            (d, base_name_of(p))
        }
    }
}

} // verus!
