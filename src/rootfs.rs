//! The view of the root file system and the split of its files into those
//! kept and those removed.
use crate::filters::defs::{any_prefix, starts_with_any};
use crate::pathstr::{
    add_path, add_paths, base_name, base_name_of, concat, distinct_paths, holds_path, is_prefix,
    is_under, is_under_of, link_destination, paths_of, starts_with,
};
use vstd::prelude::*;
use vstd::string::*;

verus! {

/// Directories that also live below `/usr`.
pub open spec fn short_prefixes() -> Seq<&'static str> {
    seq!["/bin/", "/sbin/", "/lib/", "/lib32/", "/libx32/", "/lib64/"]
}

/// The directories that also live below `/usr`
pub fn short_prefixes_list() -> (r: Vec<&'static str>)
    ensures
        r@ == short_prefixes(),
{
    let r = vec!["/bin/", "/sbin/", "/lib/", "/lib32/", "/libx32/", "/lib64/"];
    assert(r@ =~= short_prefixes());
    r
}

/// `p` lies in one of the directories that also live below `/usr`.
pub open spec fn has_short_prefix(p: Seq<char>) -> bool {
    any_prefix(short_prefixes(), p)
}

/// `p` lies in the `/usr` form of one of those directories.
pub open spec fn has_usr_prefix(p: Seq<char>) -> bool {
    is_prefix("/usr"@, p) && has_short_prefix(p.subrange(4, p.len() as int))
}

/// The locations equivalent to `p`, looking from the short form.
pub open spec fn forward_aliases(p: Seq<char>) -> Set<Seq<char>> {
    if has_short_prefix(p) {
        set![p, "/usr"@ + p]
    } else {
        set![p]
    }
}

/// Every location equivalent to some path of `s`.
pub open spec fn expand_all(s: Set<Seq<char>>) -> Set<Seq<char>> {
    Set::new(|v: Seq<char>| exists|q: Seq<char>| s.contains(q) && forward_aliases(q).contains(v))
}

/// The base name of a dynamic loader.
pub open spec fn is_loader(p: Seq<char>) -> bool {
    is_prefix("ld-linux-"@, base_name(p))
}

/// One entry met while walking the root.
pub struct FsEntry {
    /// The path as the walk reached it.
    pub path: String,
    pub is_dir: bool,
    pub is_file: bool,
    /// The stored target, where the path is a symbolic link.
    pub link: Option<String>,
    /// The real location on disk, where the path is a regular file.
    pub real: Option<String>,
}

/// The result of a dissection: what stays and what goes.
pub struct Dissection {
    pub kept: Vec<String>,
    pub removed: Vec<String>,
}

pub struct RootFS {
    /// Keep /proc, /sys and /dev in the view
    pub pds: bool,
    /// Keep /tmp in the view
    pub tmp: bool,
    pub ptree: Vec<String>,
    pub entries: Vec<FsEntry>,
    pub broken_links: Vec<String>,
}

impl RootFS {
    /// Some walked entry has the path `p`.
    pub open spec fn exists_path(&self, p: Seq<char>) -> bool {
        exists|i: int| 0 <= i < self.entries@.len() && self.entries@[i].path@ == p
    }

    /// The walk leaves the path `p` out of the view.
    pub open spec fn skipped(&self, p: Seq<char>) -> bool {
        ||| (!self.tmp && is_under(p, "/tmp"@))
        ||| (!self.pds && (is_under(p, "/proc"@) || is_under(p, "/sys"@) || is_under(p, "/dev"@)))
        ||| exists|i: int| 0 <= i < self.ptree@.len() && is_under(p, self.ptree@[i]@)
    }

    /// The real path that entry `i` puts into the view, if any.
    pub open spec fn shown(&self, i: int) -> Option<Seq<char>> {
        let e = self.entries@[i];
        if e.is_file && !self.skipped(e.path@) && e.real is Some && !self.skipped(e.real->0@) {
            Some(e.real->0@)
        } else {
            None
        }
    }

    /// Entry `i` puts the real path `v` into the view.
    pub open spec fn shows(&self, i: int, v: Seq<char>) -> bool {
        0 <= i < self.entries@.len() && self.shown(i) == Some(v)
    }

    /// The loaders that the first `k` entries put into the view.
    pub open spec fn loaders_upto(&self, k: int) -> Set<Seq<char>> {
        Set::new(|v: Seq<char>| exists|j: int| 0 <= j < k && self.shows(j, v) && is_loader(v))
    }

    /// The other files that the first `k` entries put into the view and
    /// that `cover` does not hold.
    pub open spec fn doomed_upto(&self, k: int, cover: Set<Seq<char>>) -> Set<Seq<char>> {
        Set::new(
            |v: Seq<char>|
                exists|j: int| 0 <= j < k && self.shows(j, v) && !is_loader(v) && !cover.contains(v),
        )
    }

    /// The real locations of the regular files of the root, outside the
    /// protected subtrees both as walked and as resolved.
    pub open spec fn view(&self) -> Set<Seq<char>> {
        Set::new(|v: Seq<char>| exists|i: int| self.shows(i, v))
    }

    /// The locations equivalent to `p`: looking from the short form, both;
    /// looking back from the `/usr` form, those of the two that exist.
    pub open spec fn aliases(&self, p: Seq<char>, reverse: bool) -> Set<Seq<char>> {
        if !reverse {
            forward_aliases(p)
        } else if has_usr_prefix(p) {
            set![p, p.subrange(4, p.len() as int)].filter(|q: Seq<char>| self.exists_path(q))
        } else {
            set![p]
        }
    }

    /// What a dissection keeps: the kept set and every loader of the view.
    pub open spec fn kept_set(&self, kept: Set<Seq<char>>) -> Set<Seq<char>> {
        kept.union(self.view().filter(|v: Seq<char>| is_loader(v)))
    }

    /// What a dissection removes: the files of the view that no kept path
    /// stands for and that are no loader, and every broken link outside the
    /// protected subtrees that is not kept.
    pub open spec fn removed_set(&self, kept: Set<Seq<char>>) -> Set<Seq<char>> {
        self.view().filter(|v: Seq<char>| !is_loader(v) && !expand_all(kept).contains(v)).union(
            paths_of(self.broken_links@).filter(
                |b: Seq<char>| !self.skipped(b) && !self.kept_set(kept).contains(b),
            ),
        )
    }

    pub fn new() -> (r: Self)
        ensures
            r.pds && r.tmp,
            r.ptree@.len() == 0 && r.entries@.len() == 0 && r.broken_links@.len() == 0,
    {
        RootFS {
            pds: true,
            tmp: true,
            ptree: Vec::new(),
            entries: Vec::new(),
            broken_links: Vec::new(),
        }
    }

    /// Set the flag to keep /proc, /sys and /dev directories
    pub fn keep_pds(&mut self, keep: bool)
        ensures
            *final(self) == (RootFS { pds: keep, ..*old(self) }),
    {
        self.pds = keep;
    }

    /// Set the flag to keep the /tmp directory
    pub fn keep_tmp(&mut self, keep: bool)
        ensures
            *final(self) == (RootFS { tmp: keep, ..*old(self) }),
    {
        self.tmp = keep;
    }

    /// Leave these subtrees out of the view
    pub fn keep_tree(&mut self, paths: Vec<String>)
        ensures
            final(self).ptree@ == old(self).ptree@ + paths@,
            final(self).entries == old(self).entries,
            final(self).broken_links == old(self).broken_links,
            final(self).pds == old(self).pds && final(self).tmp == old(self).tmp,
    {
        let mut paths = paths;
        self.ptree.append(&mut paths);
    }

    /// Record an entry met by the walk
    pub fn record(&mut self, e: FsEntry)
        ensures
            final(self).entries@ == old(self).entries@.push(e),
            final(self).ptree == old(self).ptree,
            final(self).broken_links == old(self).broken_links,
            final(self).pds == old(self).pds && final(self).tmp == old(self).tmp,
    {
        self.entries.push(e);
    }

    /// Record a path that the walk could not follow
    pub fn record_broken(&mut self, p: String)
        ensures
            final(self).broken_links@ == old(self).broken_links@.push(p),
            final(self).ptree == old(self).ptree,
            final(self).entries == old(self).entries,
            final(self).pds == old(self).pds && final(self).tmp == old(self).tmp,
    {
        self.broken_links.push(p);
    }

    /// The index of the entry with path `p`
    pub fn find_entry(&self, p: &String) -> (r: Option<usize>)
        ensures
            r matches Some(i) ==> i < self.entries@.len() && self.entries@[i as int].path@ == p@,
            r is None ==> !self.exists_path(p@),
    {
        let mut i: usize = 0;
        while i < self.entries.len()
            invariant
                i <= self.entries@.len(),
                forall|j: int| 0 <= j < i ==> self.entries@[j].path@ != p@,
            decreases self.entries@.len() - i,
        {
            if self.entries[i].path == *p {
                return Some(i);
            }
            i = i + 1;
        }
        None
    }

    /// The walk leaves the path `p` out of the view
    pub fn is_skipped(&self, p: &str) -> (r: bool)
        ensures
            r == self.skipped(p@),
    {
        proof {
            reveal_strlit("/tmp");
            reveal_strlit("/proc");
            reveal_strlit("/sys");
            reveal_strlit("/dev");
        }
        if !self.tmp && is_under_of(p, "/tmp") {
            return true;
        }
        if !self.pds && (is_under_of(p, "/proc") || is_under_of(p, "/sys") || is_under_of(
            p,
            "/dev",
        )) {
            return true;
        }
        let mut i: usize = 0;
        while i < self.ptree.len()
            invariant
                i <= self.ptree@.len(),
                forall|j: int| 0 <= j < i ==> !is_under(p@, self.ptree@[j]@),
            decreases self.ptree@.len() - i,
        {
            if is_under_of(p, self.ptree[i].as_str()) {
                return true;
            }
            i = i + 1;
        }
        false
    }

    /// Expands target taking to the account Linux /bin symlinks to /usr/bin etc.
    ///
    /// Package databases record either form, so lookups must tolerate both.
    pub fn expand_target(&self, target: &String, reverse: bool) -> (r: Vec<String>)
        ensures
            paths_of(r@) == self.aliases(target@, reverse),
            distinct_paths(r@),
    {
        let mut out: Vec<String> = Vec::new();
        let t = target.as_str();
        let shorts = short_prefixes_list();
        if !reverse {
            if starts_with_any(t, &shorts) {
                let u = concat("/usr", t);
                add_path(&mut out, target.clone());
                add_path(&mut out, u);
            } else {
                add_path(&mut out, target.clone());
            }
            proof {
                lemma_paths_of_empty();
            }
            assert(paths_of(out@) =~= self.aliases(target@, reverse));
            return out;
        }
        proof {
            reveal_strlit("/usr");
        }
        if starts_with(t, "/usr") {
            let n = t.unicode_len();
            let rest = t.substring_char(4, n).to_owned();
            if starts_with_any(rest.as_str(), &shorts) {
                if self.find_entry(target).is_some() {
                    add_path(&mut out, target.clone());
                }
                if self.find_entry(&rest).is_some() {
                    add_path(&mut out, rest);
                }
                proof {
                    lemma_paths_of_empty();
                }
                assert(paths_of(out@) =~= self.aliases(target@, reverse));
                return out;
            }
        }
        add_path(&mut out, target.clone());
        proof {
            lemma_paths_of_empty();
        }
        assert(paths_of(out@) =~= self.aliases(target@, reverse));
        out
    }
}

impl RootFS {
    /// Get a list what needs to be deleted from the image, and what stays
    pub fn dissect(&self, src: &Vec<String>) -> (r: Dissection)
        ensures
            paths_of(r.kept@) == self.kept_set(paths_of(src@)),
            paths_of(r.removed@) == self.removed_set(paths_of(src@)),
            distinct_paths(r.kept@),
            distinct_paths(r.removed@),
    {
        let mut cover: Vec<String> = Vec::new();
        proof {
            lemma_paths_of_empty();
        }
        let mut i: usize = 0;
        while i < src.len()
            invariant
                i <= src@.len(),
                paths_of(cover@) == expand_all(paths_of(src@.subrange(0, i as int))),
            decreases src@.len() - i,
        {
            let al = self.expand_target(&src[i], false);
            add_paths(&mut cover, &al);
            proof {
                let a = src@.subrange(0, i as int);
                let b = src@.subrange(0, i + 1);
                assert(paths_of(b) =~= paths_of(a).insert(src@[i as int]@)) by {
                    assert forall|x: Seq<char>| paths_of(b).contains(x) implies paths_of(a).insert(
                        src@[i as int]@,
                    ).contains(x) by {
                        let j = choose|j: int| 0 <= j < b.len() && b[j]@ == x;
                        if j < i {
                            assert(a[j] == b[j]);
                        }
                    }
                    assert forall|x: Seq<char>| paths_of(a).insert(src@[i as int]@).contains(
                        x,
                    ) implies paths_of(b).contains(x) by {
                        if x == src@[i as int]@ {
                            assert(b[i as int]@ == x);
                        } else {
                            let j = choose|j: int| 0 <= j < a.len() && a[j]@ == x;
                            assert(b[j] == a[j]);
                        }
                    }
                }
                let x = src@[i as int]@;
                assert(paths_of(al@) == forward_aliases(x));
                assert forall|v: Seq<char>| expand_all(paths_of(b)).contains(v) implies paths_of(
                    cover@,
                ).contains(v) by {
                    let q = choose|q: Seq<char>| paths_of(b).contains(q) && forward_aliases(q).contains(v);
                    if q != x {
                        assert(paths_of(a).contains(q));
                        assert(expand_all(paths_of(a)).contains(v));
                    }
                }
                assert forall|v: Seq<char>| paths_of(cover@).contains(v) implies expand_all(
                    paths_of(b),
                ).contains(v) by {
                    if paths_of(al@).contains(v) {
                        assert(paths_of(b).contains(x) && forward_aliases(x).contains(v));
                    } else {
                        let q = choose|q: Seq<char>| paths_of(a).contains(q) && forward_aliases(q).contains(v);
                        assert(paths_of(b).contains(q) && forward_aliases(q).contains(v));
                    }
                }
                assert(paths_of(cover@) =~= expand_all(paths_of(b)));
            }
            i = i + 1;
        }
        assert(src@.subrange(0, src@.len() as int) =~= src@);
        let mut kept: Vec<String> = Vec::new();
        assert(paths_of(kept@) =~= Set::<Seq<char>>::empty());
        add_paths(&mut kept, src);
        let mut removed: Vec<String> = Vec::new();
        let ghost covered = expand_all(paths_of(src@));
        let mut k: usize = 0;
        proof {
            assert(self.loaders_upto(0) =~= Set::<Seq<char>>::empty());
            assert(self.doomed_upto(0, covered) =~= Set::<Seq<char>>::empty());
        }
        while k < self.entries.len()
            invariant
                k <= self.entries@.len(),
                paths_of(cover@) == covered,
                covered == expand_all(paths_of(src@)),
                paths_of(kept@) == paths_of(src@).union(self.loaders_upto(k as int)),
                paths_of(removed@) == self.doomed_upto(k as int, covered),
                distinct_paths(removed@),
                distinct_paths(kept@),
            decreases self.entries@.len() - k,
        {
            proof {
                self.lemma_step(k as int, covered);
            }
            let e = &self.entries[k];
            if e.is_file && !self.is_skipped(e.path.as_str()) {
                match &e.real {
                    Some(v) if !self.is_skipped(v.as_str()) => {
                        let b = base_name_of(v.as_str());
                        proof {
                            reveal_strlit("ld-linux-");
                        }
                        if starts_with(b.as_str(), "ld-linux-") {
                            add_path(&mut kept, v.clone());
                        } else if !holds_path(&cover, v) {
                            add_path(&mut removed, v.clone());
                        }
                    },
                    _ => {},
                }
            }
            k = k + 1;
        }
        proof {
            assert(self.loaders_upto(self.entries@.len() as int) =~= self.view().filter(
                |v: Seq<char>| is_loader(v),
            ));
            assert(self.doomed_upto(self.entries@.len() as int, covered) =~= self.view().filter(
                |v: Seq<char>| !is_loader(v) && !covered.contains(v),
            ));
        }
        let ghost doomed = paths_of(removed@);
        let ghost kept_all = paths_of(kept@);
        let mut j: usize = 0;
        while j < self.broken_links.len()
            invariant
                j <= self.broken_links@.len(),
                paths_of(kept@) == kept_all,
                distinct_paths(removed@),
                paths_of(removed@) == doomed.union(Set::new(|b: Seq<char>| exists|m: int| 0 <= m < j
                    && self.broken_links@[m]@ == b && !self.skipped(b) && !kept_all.contains(b))),
            decreases self.broken_links@.len() - j,
        {
            let b = &self.broken_links[j];
            if !self.is_skipped(b.as_str()) && !holds_path(&kept, b) {
                add_path(&mut removed, b.clone());
            }
            proof {
                assert(paths_of(removed@) =~= doomed.union(Set::new(|c: Seq<char>| exists|m: int| 0 <= m < j + 1
                    && self.broken_links@[m]@ == c && !self.skipped(c) && !kept_all.contains(c)))) by {
                    assert forall|c: Seq<char>| (exists|m: int| 0 <= m < j + 1
                        && self.broken_links@[m]@ == c && !self.skipped(c) && !kept_all.contains(c)) implies paths_of(removed@).contains(c) by {
                        let m = choose|m: int| 0 <= m < j + 1
                            && self.broken_links@[m]@ == c && !self.skipped(c) && !kept_all.contains(c);
                        if m < j {
                            assert(exists|m: int| 0 <= m < j
                                && self.broken_links@[m]@ == c && !self.skipped(c) && !kept_all.contains(c));
                        }
                    }
                }
            }
            j = j + 1;
        }
        proof {
            assert(Set::new(|b: Seq<char>| exists|m: int| 0 <= m < self.broken_links@.len()
                && self.broken_links@[m]@ == b && !self.skipped(b) && !kept_all.contains(b))
                =~= paths_of(self.broken_links@).filter(
                |b: Seq<char>| !self.skipped(b) && !self.kept_set(paths_of(src@)).contains(b)));
        }
        proof {
            assert(paths_of(kept@) =~= self.kept_set(paths_of(src@)));
            assert(paths_of(removed@) =~= self.removed_set(paths_of(src@)));
        }
        Dissection { kept, removed }
    }
}

impl RootFS {
    proof fn lemma_step(&self, k: int, cover: Set<Seq<char>>)
        requires
            0 <= k < self.entries@.len(),
        ensures
            self.loaders_upto(k + 1) == (match self.shown(k) {
                Some(v) => if is_loader(v) {
                    self.loaders_upto(k).insert(v)
                } else {
                    self.loaders_upto(k)
                },
                None => self.loaders_upto(k),
            }),
            self.doomed_upto(k + 1, cover) == (match self.shown(k) {
                Some(v) => if !is_loader(v) && !cover.contains(v) {
                    self.doomed_upto(k, cover).insert(v)
                } else {
                    self.doomed_upto(k, cover)
                },
                None => self.doomed_upto(k, cover),
            }),
    {
        let a = self.loaders_upto(k + 1);
        let b = self.loaders_upto(k);
        assert forall|v: Seq<char>| b.contains(v) implies a.contains(v) by {
            let j = choose|j: int| 0 <= j < k && self.shows(j, v) && is_loader(v);
            assert(0 <= j < k + 1 && self.shows(j, v) && is_loader(v));
        }
        assert forall|v: Seq<char>| a.contains(v) && self.shown(k) != Some(v) implies b.contains(v) by {
            let j = choose|j: int| 0 <= j < k + 1 && self.shows(j, v) && is_loader(v);
            assert(0 <= j < k && self.shows(j, v) && is_loader(v));
        }
        if let Some(v) = self.shown(k) {
            if is_loader(v) {
                assert(self.shows(k, v));
                assert(a.contains(v));
                assert(a =~= b.insert(v));
            } else {
                assert(a =~= b);
            }
        } else {
            assert(a =~= b);
        }
        let c = self.doomed_upto(k + 1, cover);
        let d = self.doomed_upto(k, cover);
        assert forall|v: Seq<char>| d.contains(v) implies c.contains(v) by {
            let j = choose|j: int| 0 <= j < k && self.shows(j, v) && !is_loader(v) && !cover.contains(v);
            assert(0 <= j < k + 1 && self.shows(j, v) && !is_loader(v) && !cover.contains(v));
        }
        assert forall|v: Seq<char>| c.contains(v) && self.shown(k) != Some(v) implies d.contains(v) by {
            let j = choose|j: int| 0 <= j < k + 1 && self.shows(j, v) && !is_loader(v) && !cover.contains(v);
            assert(0 <= j < k && self.shows(j, v) && !is_loader(v) && !cover.contains(v));
        }
        if let Some(v) = self.shown(k) {
            if !is_loader(v) && !cover.contains(v) {
                assert(self.shows(k, v));
                assert(c.contains(v));
                assert(c =~= d.insert(v));
            } else {
                assert(c =~= d);
            }
        } else {
            assert(c =~= d);
        }
    }
}

impl RootFS {
    /// The walk found `p` to be a directory.
    pub open spec fn is_dir_path(&self, p: Seq<char>) -> bool {
        exists|i: int| 0 <= i < self.entries@.len() && self.entries@[i].path@ == p && self.entries@[i].is_dir
    }

    /// The walk found `p` to be a regular file.
    pub open spec fn is_file_path(&self, p: Seq<char>) -> bool {
        exists|i: int| 0 <= i < self.entries@.len() && self.entries@[i].path@ == p && self.entries@[i].is_file
    }

    /// The walk found `p` to be a regular file
    pub fn is_file(&self, p: &String) -> (r: bool)
        ensures
            r == self.is_file_path(p@),
    {
        let mut i: usize = 0;
        while i < self.entries.len()
            invariant
                i <= self.entries@.len(),
                forall|j: int| 0 <= j < i ==> !(self.entries@[j].path@ == p@ && self.entries@[j].is_file),
            decreases self.entries@.len() - i,
        {
            if self.entries[i].is_file && self.entries[i].path == *p {
                return true;
            }
            i = i + 1;
        }
        false
    }

    /// Entry `k` is a symbolic link.
    pub open spec fn is_link(&self, k: int) -> bool {
        0 <= k < self.entries@.len() && self.entries@[k].link is Some
    }

    /// Where the symbolic link of entry `k` points.
    pub open spec fn link_dest(&self, k: int) -> Seq<char> {
        link_destination(self.entries@[k].path@, self.entries@[k].link->0@)
    }

    /// `p` is reached from `s` by following at most `n` links.
    pub open spec fn reach(&self, s: Set<Seq<char>>, p: Seq<char>, n: nat) -> bool
        decreases n,
    {
        if n == 0 {
            s.contains(p)
        } else {
            self.reach(s, p, (n - 1) as nat) || exists|k: int|
                self.is_link(k) && self.reach(s, self.entries@[k].path@, (n - 1) as nat) && p
                    == self.link_dest(k)
        }
    }

    /// The paths of `s` and everything their links lead to.
    pub open spec fn link_closure(&self, s: Set<Seq<char>>) -> Set<Seq<char>> {
        Set::new(|p: Seq<char>| exists|n: nat| self.reach(s, p, n))
    }

    /// Every link of `r` leads into `r`.
    pub open spec fn closed_under_links(&self, r: Set<Seq<char>>) -> bool {
        forall|k: int| self.is_link(k) && r.contains(#[trigger] self.entries@[k].path@) ==> r.contains(self.link_dest(k))
    }

    /// A set that holds `s` and is closed under links holds all that `s` reaches.
    pub proof fn lemma_reach_within(&self, s: Set<Seq<char>>, r: Set<Seq<char>>, p: Seq<char>, m: nat)
        requires
            s.subset_of(r),
            self.closed_under_links(r),
            self.reach(s, p, m),
        ensures
            r.contains(p),
        decreases m,
    {
        if m > 0 {
            if self.reach(s, p, (m - 1) as nat) {
                self.lemma_reach_within(s, r, p, (m - 1) as nat);
            } else {
                let k = choose|k: int|
                    self.is_link(k) && self.reach(s, self.entries@[k].path@, (m - 1) as nat) && p
                        == self.link_dest(k);
                self.lemma_reach_within(s, r, self.entries@[k].path@, (m - 1) as nat);
            }
        }
    }

    /// The paths of all directories met by the walk
    pub fn directories(&self) -> (r: Vec<String>)
        ensures
            forall|p: Seq<char>| paths_of(r@).contains(p) <==> self.is_dir_path(p),
    {
        let mut r: Vec<String> = Vec::new();
        let mut i: usize = 0;
        while i < self.entries.len()
            invariant
                i <= self.entries@.len(),
                forall|p: Seq<char>|
                    paths_of(r@).contains(p) <==> exists|j: int|
                        0 <= j < i && self.entries@[j].path@ == p && self.entries@[j].is_dir,
            decreases self.entries@.len() - i,
        {
            if self.entries[i].is_dir {
                add_path(&mut r, self.entries[i].path.clone());
                proof {
                    assert forall|p: Seq<char>|
                        paths_of(r@).contains(p) <==> exists|j: int|
                            0 <= j < i + 1 && self.entries@[j].path@ == p && self.entries@[j].is_dir by {
                        if p != self.entries@[i as int].path@ && exists|j: int|
                            0 <= j < i + 1 && self.entries@[j].path@ == p && self.entries@[j].is_dir {
                            let j = choose|j: int| 0 <= j < i + 1 && self.entries@[j].path@ == p && self.entries@[j].is_dir;
                            assert(j < i);
                        }
                    }
                }
            } else {
                proof {
                    assert forall|p: Seq<char>|
                        paths_of(r@).contains(p) <==> exists|j: int|
                            0 <= j < i + 1 && self.entries@[j].path@ == p && self.entries@[j].is_dir by {
                        if exists|j: int| 0 <= j < i + 1 && self.entries@[j].path@ == p && self.entries@[j].is_dir {
                            let j = choose|j: int| 0 <= j < i + 1 && self.entries@[j].path@ == p && self.entries@[j].is_dir;
                            assert(j < i);
                        }
                    }
                }
            }
            i = i + 1;
        }
        r
    }
}

/// Expanding the expansion of a path gives nothing new.
pub proof fn lemma_expand_aliases_idempotent(p: Seq<char>)
    ensures
        expand_all(forward_aliases(p)) == forward_aliases(p),
{
    if has_short_prefix(p) {
        lemma_usr_form_is_long(p);
    }
    assert(expand_all(forward_aliases(p)) =~= forward_aliases(p)) by {
        assert forall|v: Seq<char>| forward_aliases(p).contains(v) implies expand_all(
            forward_aliases(p),
        ).contains(v) by {
            assert(forward_aliases(v).contains(v));
        }
    }
}

/// A path written in the `/usr` form never lies in a short-form directory.
proof fn lemma_usr_form_is_long(p: Seq<char>)
    ensures
        !has_short_prefix("/usr"@ + p),
{
    reveal_strlit("/usr");
    reveal_strlit("/bin/");
    reveal_strlit("/sbin/");
    reveal_strlit("/lib/");
    reveal_strlit("/lib32/");
    reveal_strlit("/libx32/");
    reveal_strlit("/lib64/");
    let u = "/usr"@ + p;
    assert(u[1] == 'u');
    assert forall|i: int| 0 <= i < short_prefixes().len() implies !is_prefix(
        short_prefixes()[i]@,
        u,
    ) by {
        let s = short_prefixes()[i]@;
        assert(s[1] != 'u');
        if is_prefix(s, u) {
            assert(u.subrange(0, s.len() as int)[1] == u[1]);
        }
    }
}

/// A dissection never removes what it keeps.
pub proof fn lemma_kept_and_removed_disjoint(fs: &RootFS, kept: Set<Seq<char>>)
    ensures
        fs.kept_set(kept).intersect(fs.removed_set(kept)) == Set::<Seq<char>>::empty(),
{
    assert forall|v: Seq<char>| kept.contains(v) implies expand_all(kept).contains(v) by {
        if has_short_prefix(v) {
            assert(forward_aliases(v).contains(v));
        } else {
            assert(forward_aliases(v).contains(v));
        }
    }
    assert(fs.kept_set(kept).intersect(fs.removed_set(kept)) =~= Set::<Seq<char>>::empty());
}

/// Every dynamic loader of the view is kept and never removed.
pub proof fn lemma_loaders_kept(fs: &RootFS, kept: Set<Seq<char>>, v: Seq<char>)
    requires
        fs.view().contains(v),
        is_loader(v),
    ensures
        fs.kept_set(kept).contains(v),
        !fs.removed_set(kept).contains(v),
{
}

proof fn lemma_paths_of_empty()
    ensures
        paths_of(Seq::<String>::empty()) == Set::<Seq<char>>::empty(),
        distinct_paths(Seq::<String>::empty()),
{
    assert(paths_of(Seq::<String>::empty()) =~= Set::<Seq<char>>::empty());
}

} // verus!
