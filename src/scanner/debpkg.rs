//! The Debian package that owns a target, and the files a package holds.
use super::general::ScannerCommons;
use crate::pathstr::{
    chars_of, first_index, first_index_of, lemma_first_index, paths_of, split_on, split_spec,
    texts,
};
use crate::procdata::{Autodeps, TintError};
use crate::rootfs::{has_short_prefix, has_usr_prefix, RootFS};
use crate::textops::{trim_of, trimmed_of};
use vstd::prelude::*;
use vstd::string::*;

verus! {

/// The locations under which a package database may record `p`.
pub open spec fn owner_candidates(p: Seq<char>) -> Seq<Seq<char>> {
    if has_usr_prefix(p) {
        seq![p, p.subrange(4, p.len() as int)]
    } else if has_short_prefix(p) {
        seq![p, "/usr"@ + p]
    } else {
        seq![p]
    }
}

/// The package named by the ownership query's output: the part of its
/// first line before the first `:`, trimmed, where that is not empty.
pub open spec fn owner_in(out: Seq<char>) -> Option<Seq<char>> {
    let l = trimmed_of(split_spec(out, '\n')[0]);
    let i = first_index(l, ':');
    if i < 0 {
        None
    } else if trimmed_of(l.subrange(0, i)).len() == 0 {
        None
    } else {
        Some(trimmed_of(l.subrange(0, i)))
    }
}

/// The owner named by the first of the outputs that names one.
pub open spec fn first_owner(outs: Seq<Seq<char>>) -> Option<Seq<char>>
    decreases outs.len(),
{
    if outs.len() == 0 {
        None
    } else if owner_in(outs[0]) is Some {
        owner_in(outs[0])
    } else {
        first_owner(outs.drop_first())
    }
}

/// A file listed on one line of the content query's output: the trimmed
/// line, unless it is empty, the root entry, or a directory.
pub open spec fn content_line(l: Seq<char>, fs: RootFS) -> Option<Seq<char>> {
    let t = trimmed_of(l);
    if t.len() == 0 || t == "./"@ || t == "/."@ || fs.is_dir_path(t) {
        None
    } else {
        Some(t)
    }
}

/// The files listed on the lines, in order.
pub open spec fn contents_on(lines: Seq<Seq<char>>, fs: RootFS) -> Seq<Seq<char>>
    decreases lines.len(),
{
    if lines.len() == 0 {
        Seq::empty()
    } else {
        contents_on(lines.drop_last(), fs) + match content_line(lines.last(), fs) {
            Some(p) => seq![p],
            None => Seq::empty(),
        }
    }
}

/// Scans content of the package, to which a target belongs to.
pub struct DebPackageScanner {
    pub commons: ScannerCommons,
    pub autodeps: Autodeps,
    pub excluded_packages: Vec<String>,
}

impl DebPackageScanner {
    /// Constructor
    pub fn new(autodeps: Autodeps) -> (r: Self)
        ensures
            r.autodeps == autodeps,
            r.excluded_packages@.len() == 0,
    {
        DebPackageScanner { commons: ScannerCommons::new(), autodeps, excluded_packages: Vec::new() }
    }

    /// Packages whose dependencies are not followed
    pub fn exclude(&mut self, pkgs: Vec<String>)
        ensures
            final(self).excluded_packages@ == old(self).excluded_packages@ + pkgs@,
            final(self).autodeps == old(self).autodeps,
    {
        let mut pkgs = pkgs;
        self.excluded_packages.append(&mut pkgs);
    }

    /// The locations to ask the package database about, in order: the
    /// target, then its other form below or outside `/usr`
    pub fn expand_target(&self, target: &String) -> (r: Vec<String>)
        ensures
            texts(r@) == owner_candidates(target@),
    {
        let mut r: Vec<String> = Vec::new();
        let t = target.as_str();
        proof {
            reveal_strlit("/usr");
        }
        r.push(target.clone());
        if crate::pathstr::starts_with(t, "/usr") {
            let n = t.unicode_len();
            let rest = t.substring_char(4, n).to_owned();
            if crate::filters::defs::starts_with_any(rest.as_str(), &crate::rootfs::short_prefixes_list()) {
                r.push(rest);
                assert(texts(r@) =~= owner_candidates(target@));
                return r;
            }
        }
        if crate::filters::defs::starts_with_any(t, &crate::rootfs::short_prefixes_list()) {
            r.push(crate::pathstr::concat("/usr", t));
        }
        assert(texts(r@) =~= owner_candidates(target@));
        r
    }

    /// Get package name from the output of the ownership query.
    /// May still not find a package for the target.
    pub fn get_package_for(&self, out: &str) -> (r: Option<String>)
        ensures
            match r {
                Some(s) => owner_in(out@) == Some(s@),
                None => owner_in(out@) is None,
            },
    {
        let lines = split_on(out, '\n');
        assert(texts(lines@)[0] == lines@[0]@);
        let l = trim_of(lines[0].as_str());
        let c = chars_of(l.as_str());
        proof {
            lemma_first_index(l@, ':');
        }
        match first_index_of(&c, ':') {
            None => None,
            Some(i) => {
                let name = trim_of(l.as_str().substring_char(0, i));
                Self::package_name(name)
            },
        }
    }

    /// The owner of a target, from the ownership query's output for each of
    /// its locations in the order of `expand_target`: the first that names
    /// one. Without the package manager, `MissingTool`.
    pub fn owner_among(&self, dpkg_present: bool, outs: &Vec<String>) -> (r: Result<Option<String>, TintError>)
        ensures
            !dpkg_present ==> r == Err::<Option<String>, TintError>(TintError::MissingTool),
            dpkg_present ==> (r matches Ok(o) && match o {
                Some(s) => first_owner(texts(outs@)) == Some(s@),
                None => first_owner(texts(outs@)) is None,
            }),
    {
        if !dpkg_present {
            return Err(TintError::MissingTool);
        }
        let mut i: usize = 0;
        assert(texts(outs@).subrange(0, outs@.len() as int) =~= texts(outs@));
        while i < outs.len()
            invariant
                dpkg_present,
                i <= outs@.len(),
                first_owner(texts(outs@)) == first_owner(texts(outs@).subrange(i as int, outs@.len() as int)),
            decreases outs@.len() - i,
        {
            let ghost rest = texts(outs@).subrange(i as int, outs@.len() as int);
            assert(rest[0] == outs@[i as int]@);
            assert(rest.drop_first() =~= texts(outs@).subrange(i + 1, outs@.len() as int));
            match self.get_package_for(outs[i].as_str()) {
                Some(p) => return Ok(Some(p)),
                None => {},
            }
            i = i + 1;
        }
        Ok(None)
    }

    /// The package name, given the trimmed text before the `:`; none where
    /// it is empty
    pub fn package_name(name: String) -> (r: Option<String>)
        ensures
            name@.len() == 0 ==> r is None,
            name@.len() > 0 ==> r == Some(name),
    {
        if name.unicode_len() == 0 {
            None
        } else {
            Some(name)
        }
    }

    /// A trimmed line of the content query's output names a file or a
    /// link; `dirs` holds the directories of the root
    pub fn is_listed_file(t: &String, dirs: &Vec<String>) -> (r: bool)
        ensures
            r == !(t@.len() == 0 || t@ == "./"@ || t@ == "/."@ || paths_of(dirs@).contains(t@)),
    {
        let root_a = "./".to_owned();
        let root_b = "/.".to_owned();
        !(t.unicode_len() == 0 || *t == root_a || *t == root_b || crate::pathstr::holds_path(dirs, t))
    }

    /// Get contents of the package from the output of the content query:
    /// its files and links, without directories.
    pub fn get_package_contents(&self, out: &str, fs: &RootFS) -> (r: Vec<String>)
        ensures
            texts(r@) == contents_on(split_spec(out@, '\n'), *fs),
    {
        let lines = split_on(out, '\n');
        let dirs = fs.directories();
        let mut r: Vec<String> = Vec::new();
        let mut i: usize = 0;
        while i < lines.len()
            invariant
                i <= lines@.len(),
                texts(r@) == contents_on(texts(lines@).subrange(0, i as int), *fs),
                texts(lines@) == split_spec(out@, '\n'),
                forall|p: Seq<char>| paths_of(dirs@).contains(p) <==> fs.is_dir_path(p),
            decreases lines@.len() - i,
        {
            let t = trim_of(lines[i].as_str());
            let ghost before = texts(r@);
            proof {
                assert(texts(lines@).subrange(0, i + 1).drop_last() =~= texts(lines@).subrange(0, i as int));
                assert(texts(lines@)[i as int] == lines@[i as int]@);
            }
            if Self::is_listed_file(&t, &dirs) {
                r.push(t);
                assert(texts(r@) =~= before + seq![r@[r@.len() - 1]@]);
            } else {
                assert(texts(r@) =~= before + Seq::<Seq<char>>::empty());
            }
            i = i + 1;
        }
        assert(texts(lines@).subrange(0, lines@.len() as int) =~= texts(lines@));
        r
    }

    /// The packages whose content a scan takes: the owner of the target and,
    /// where the mode follows dependencies, those found by the trace that
    /// are not excluded. Nothing, where no owner was found.
    pub fn scan_packages(&self, owner: &Option<String>, deps: &Vec<String>) -> (r: Vec<String>)
        ensures
            owner is None ==> r@.len() == 0,
            owner matches Some(o) ==> paths_of(r@) == if self.autodeps.traces() {
                paths_of(deps@).difference(paths_of(self.excluded_packages@)).insert(o@)
            } else {
                set![o@]
            },
    {
        let mut r: Vec<String> = Vec::new();
        match owner {
            None => r,
            Some(o) => {
                assert(paths_of(r@) =~= Set::<Seq<char>>::empty());
                crate::pathstr::add_path(&mut r, o.clone());
                if self.autodeps.follows_dependencies() {
                    let mut i: usize = 0;
                    while i < deps.len()
                        invariant
                            i <= deps@.len(),
                            paths_of(r@) == Set::new(|x: Seq<char>| exists|j: int| 0 <= j < i && deps@[j]@ == x
                                && !paths_of(self.excluded_packages@).contains(x)).insert(o@),
                        decreases deps@.len() - i,
                    {
                        if !crate::pathstr::holds_path(&self.excluded_packages, &deps[i]) {
                            crate::pathstr::add_path(&mut r, deps[i].clone());
                        }
                        proof {
                            assert(paths_of(r@) =~= Set::new(|x: Seq<char>| exists|j: int| 0 <= j < i + 1 && deps@[j]@ == x
                                && !paths_of(self.excluded_packages@).contains(x)).insert(o@)) by {
                                assert forall|x: Seq<char>| (exists|j: int| 0 <= j < i + 1 && deps@[j]@ == x
                                    && !paths_of(self.excluded_packages@).contains(x)) implies paths_of(r@).contains(x) by {
                                    let j = choose|j: int| 0 <= j < i + 1 && deps@[j]@ == x
                                        && !paths_of(self.excluded_packages@).contains(x);
                                    if j < i {
                                        assert(exists|j: int| 0 <= j < i && deps@[j]@ == x
                                            && !paths_of(self.excluded_packages@).contains(x));
                                    }
                                }
                            }
                        }
                        i = i + 1;
                    }
                    assert(paths_of(r@) =~= paths_of(deps@).difference(paths_of(self.excluded_packages@)).insert(o@));
                } else {
                    assert(paths_of(r@) =~= set![o@]);
                }
                r
            },
        }
    }
}

/// The contents stored last for the package `pkg`, if any.
pub open spec fn stored_contents(entries: Seq<(String, Vec<String>)>, pkg: Seq<char>) -> Option<Seq<String>>
    decreases entries.len(),
{
    if entries.len() == 0 {
        None
    } else if entries.last().0@ == pkg {
        Some(entries.last().1@)
    } else {
        stored_contents(entries.drop_last(), pkg)
    }
}

/// The contents of the packages already queried in this run, so that no
/// package is queried twice.
pub struct ContentCache {
    pub entries: Vec<(String, Vec<String>)>,
}

impl ContentCache {
    pub fn new() -> (r: Self)
        ensures
            forall|p: Seq<char>| stored_contents(r.entries@, p) is None,
    {
        ContentCache { entries: Vec::new() }
    }

    /// Remembers the contents of a package
    pub fn store(&mut self, pkg: String, contents: Vec<String>)
        ensures
            stored_contents(final(self).entries@, pkg@) == Some(contents@),
            forall|p: Seq<char>| p != pkg@ ==> stored_contents(final(self).entries@, p) == stored_contents(old(self).entries@, p),
    {
        self.entries.push((pkg, contents));
        assert(self.entries@.drop_last() =~= old(self).entries@);
    }

    /// The contents remembered for a package
    pub fn lookup(&self, pkg: &String) -> (r: Option<Vec<String>>)
        ensures
            match r {
                Some(v) => stored_contents(self.entries@, pkg@) == Some(v@),
                None => stored_contents(self.entries@, pkg@) is None,
            },
    {
        let mut k: usize = self.entries.len();
        assert(self.entries@.subrange(0, k as int) =~= self.entries@);
        while k > 0
            invariant
                k <= self.entries@.len(),
                stored_contents(self.entries@, pkg@) == stored_contents(self.entries@.subrange(0, k as int), pkg@),
            decreases k,
        {
            assert(self.entries@.subrange(0, k as int).drop_last() =~= self.entries@.subrange(0, k - 1));
            if self.entries[k - 1].0 == *pkg {
                let v = self.entries[k - 1].1.clone();
                assert(v@ =~= self.entries@[k - 1].1@);
                return Some(v);
            }
            k = k - 1;
        }
        None
    }
}

} // verus!
