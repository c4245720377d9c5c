//! Which Debian package owns a file, from the package database's file lists.
use super::traceitf::PkgFileTrace;
use crate::pathstr::{ends_with, paths_of, split_on, split_spec, texts};
use crate::rootfs::RootFS;
use vstd::prelude::*;
use vstd::string::*;

verus! {

/// The package recorded last for the path `p`, if any.
pub open spec fn recorded_owner(pairs: Seq<(String, String)>, p: Seq<char>) -> Option<Seq<char>>
    decreases pairs.len(),
{
    if pairs.len() == 0 {
        None
    } else if pairs.last().0@ == p {
        Some(pairs.last().1@)
    } else {
        recorded_owner(pairs.drop_last(), p)
    }
}

/// The package a file list is named after: the list's file name without
/// `.list`, up to the first `:`.
pub open spec fn list_package(name: Seq<char>) -> Seq<char> {
    split_spec(name.subrange(0, name.len() - 5), ':')[0]
}

/// The lines that name regular files of the root, each with the package.
pub open spec fn listed_files(lines: Seq<Seq<char>>, pkg: Seq<char>, fs: RootFS) -> Seq<(Seq<char>, Seq<char>)>
    decreases lines.len(),
{
    if lines.len() == 0 {
        Seq::empty()
    } else {
        listed_files(lines.drop_last(), pkg, fs) + if fs.is_file_path(lines.last()) {
            seq![(lines.last(), pkg)]
        } else {
            Seq::empty()
        }
    }
}

/// The pairs of path and package as plain texts.
pub open spec fn pair_texts(pairs: Seq<(String, String)>) -> Seq<(Seq<char>, Seq<char>)> {
    pairs.map_values(|x: (String, String)| (x.0@, x.1@))
}

pub struct DebPkgFileTrace {
    pub file_to_pkg: Vec<(String, String)>,
}

impl DebPkgFileTrace {
    pub fn new() -> (r: Self)
        ensures
            r.file_to_pkg@.len() == 0,
    {
        DebPkgFileTrace { file_to_pkg: Vec::new() }
    }

    /// Reads one file list of the package database, named `list_name`
    /// (`<package>[:<arch>].list`) with the content `data`: each line that
    /// names a regular file of the root is recorded for the package. A name
    /// without the `.list` suffix is no file list and changes nothing.
    pub fn load_pkg(&mut self, list_name: &str, data: &str, fs: &RootFS)
        ensures
            !crate::pathstr::is_suffix(".list"@, list_name@) ==> final(self).file_to_pkg == old(self).file_to_pkg,
            crate::pathstr::is_suffix(".list"@, list_name@) ==> pair_texts(final(self).file_to_pkg@)
                == pair_texts(old(self).file_to_pkg@) + listed_files(
                split_spec(data@, '\n'),
                list_package(list_name@),
                *fs,
            ),
    {
        if !ends_with(list_name, ".list") {
            return;
        }
        proof {
            reveal_strlit(".list");
        }
        let n = list_name.unicode_len();
        let stem = list_name.substring_char(0, n - 5);
        let parts = split_on(stem, ':');
        assert(texts(parts@)[0] == parts@[0]@);
        let pkg = parts[0].clone();
        let lines = split_on(data, '\n');
        let ghost start = pair_texts(self.file_to_pkg@);
        let mut i: usize = 0;
        while i < lines.len()
            invariant
                i <= lines@.len(),
                pkg@ == list_package(list_name@),
                texts(lines@) == split_spec(data@, '\n'),
                pair_texts(self.file_to_pkg@) == start + listed_files(texts(lines@).subrange(0, i as int), pkg@, *fs),
            decreases lines@.len() - i,
        {
            proof {
                assert(texts(lines@).subrange(0, i + 1).drop_last() =~= texts(lines@).subrange(0, i as int));
                assert(texts(lines@)[i as int] == lines@[i as int]@);
            }
            let ghost before = pair_texts(self.file_to_pkg@);
            if fs.is_file(&lines[i]) {
                self.file_to_pkg.push((lines[i].clone(), pkg.clone()));
                assert(pair_texts(self.file_to_pkg@) =~= before + seq![(lines@[i as int]@, pkg@)]);
            } else {
                assert(before + Seq::<(Seq<char>, Seq<char>)>::empty() =~= before);
            }
            i = i + 1;
        }
        assert(texts(lines@).subrange(0, lines@.len() as int) =~= texts(lines@));
    }

    /// The package recorded last for exactly the path `p`
    pub fn lookup(&self, p: &String) -> (r: Option<String>)
        ensures
            match r {
                Some(s) => recorded_owner(self.file_to_pkg@, p@) == Some(s@),
                None => recorded_owner(self.file_to_pkg@, p@) is None,
            },
    {
        let mut k: usize = self.file_to_pkg.len();
        assert(self.file_to_pkg@.subrange(0, k as int) =~= self.file_to_pkg@);
        while k > 0
            invariant
                k <= self.file_to_pkg@.len(),
                recorded_owner(self.file_to_pkg@, p@) == recorded_owner(self.file_to_pkg@.subrange(0, k as int), p@),
            decreases k,
        {
            assert(self.file_to_pkg@.subrange(0, k as int).drop_last() =~= self.file_to_pkg@.subrange(0, k - 1));
            if self.file_to_pkg[k - 1].0 == *p {
                return Some(self.file_to_pkg[k - 1].1.clone());
            }
            k = k - 1;
        }
        None
    }

    /// The package of a file, looked up under each location equivalent to it
    pub fn owner(&self, filename: &String, fs: &RootFS) -> (r: Option<String>)
        ensures
            r matches Some(s) ==> exists|a: Seq<char>| fs.aliases(filename@, true).contains(a)
                && recorded_owner(self.file_to_pkg@, a) == Some(s@),
            r is None ==> forall|a: Seq<char>| fs.aliases(filename@, true).contains(a)
                ==> recorded_owner(self.file_to_pkg@, a) is None,
    {
        let al = fs.expand_target(filename, true);
        let mut i: usize = 0;
        while i < al.len()
            invariant
                i <= al@.len(),
                paths_of(al@) == fs.aliases(filename@, true),
                forall|j: int| 0 <= j < i ==> recorded_owner(self.file_to_pkg@, #[trigger] al@[j]@) is None,
            decreases al@.len() - i,
        {
            match self.lookup(&al[i]) {
                Some(s) => {
                    assert(paths_of(al@).contains(al@[i as int]@));
                    return Some(s);
                },
                None => {},
            }
            i = i + 1;
        }
        proof {
            assert forall|a: Seq<char>| fs.aliases(filename@, true).contains(a) implies recorded_owner(
                self.file_to_pkg@,
                a,
            ) is None by {
                assert(paths_of(al@).contains(a));
                let j = choose|j: int| 0 <= j < al@.len() && al@[j]@ == a;
                assert(recorded_owner(self.file_to_pkg@, al@[j]@) is None);
            }
        }
        None
    }
}

impl PkgFileTrace for DebPkgFileTrace {
    open spec fn may_own(&self, fs: RootFS, p: Seq<char>, pkg: Seq<char>) -> bool {
        exists|a: Seq<char>| fs.aliases(p, true).contains(a) && recorded_owner(self.file_to_pkg@, a) == Some(pkg)
    }

    open spec fn owns_nothing(&self, fs: RootFS, p: Seq<char>) -> bool {
        forall|a: Seq<char>| fs.aliases(p, true).contains(a) ==> recorded_owner(self.file_to_pkg@, a) is None
    }

    fn trace(&self, filename: &String, fs: &RootFS) -> Option<String> {
        self.owner(filename, fs)
    }
}

} // verus!
