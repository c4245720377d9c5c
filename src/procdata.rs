//! The run of a whole operation: its settings, its errors, the set it keeps
//! and the steps that finish it.
use crate::filters::dirs::PathsDataFilter;
use crate::filters::intf::{retain_kept, DataFilter, PathList};
use crate::filters::resources::ResourcesDataFilter;
use crate::filters::texts::TextDataFilter;
use crate::pathstr::{
    add_path, add_paths, base_name, base_name_of, chars_of, concat, distinct_paths, holds_path,
    join_path, join_path_of, link_destination_of, parent_dir, parent_dir_of, paths_of,
};
use crate::profile::Profile;
use crate::rootfs::RootFS;
use vstd::prelude::*;

verus! {

/// Autodependency mode
#[derive(Clone, Copy, PartialEq, Eq, Structural, Debug)]
pub enum Autodeps {
    Undef,
    Free,
    Clean,
    Tight,
}

impl Autodeps {
    /// Package dependencies are followed. `Tight` is taken as `Clean`.
    pub open spec fn traces(self) -> bool {
        self != Autodeps::Undef
    }

    /// Files that look like junk are dropped. `Tight` is taken as `Clean`.
    pub open spec fn drops_junk(self) -> bool {
        self == Autodeps::Clean || self == Autodeps::Tight
    }

    pub fn follows_dependencies(&self) -> (r: bool)
        ensures
            r == self.traces(),
    {
        !matches!(self, Autodeps::Undef)
    }

    pub fn removes_junk(&self) -> (r: bool)
        ensures
            r == self.drops_junk(),
    {
        matches!(self, Autodeps::Clean | Autodeps::Tight)
    }
}

/// What stops a run.
#[derive(Clone, Copy, PartialEq, Eq, Structural, Debug)]
pub enum TintError {
    MissingTool,
    AlreadyTinted,
    InvalidArgument,
    AlreadyExists,
    IOError,
    MalformedProfile,
}

/// The number of entries not yet marked.
pub open spec fn count_open(d: Seq<bool>) -> nat
    decreases d.len(),
{
    if d.len() == 0 {
        0
    } else {
        count_open(d.drop_last()) + if d.last() {
            0nat
        } else {
            1nat
        }
    }
}

proof fn lemma_count_open_mark(d: Seq<bool>, k: int)
    requires
        0 <= k < d.len(),
        !d[k],
    ensures
        count_open(d.update(k, true)) + 1 == count_open(d),
    decreases d.len(),
{
    if k == d.len() - 1 {
        assert(d.update(k, true).drop_last() =~= d.drop_last());
    } else {
        lemma_count_open_mark(d.drop_last(), k);
        assert(d.update(k, true).drop_last() =~= d.drop_last().update(k, true));
    }
}

/// Adds to a set of paths everything their symbolic links lead to, until
/// nothing more is added. Cycles among links end the walk like any other
/// link whose destination is already held.
pub fn ext_path(p: &Vec<String>, fs: &RootFS) -> (r: Vec<String>)
    ensures
        paths_of(r@) == fs.link_closure(paths_of(p@)),
        distinct_paths(r@),
{
    let ghost s = paths_of(p@);
    let mut r: Vec<String> = Vec::new();
    assert(paths_of(r@) =~= Set::<Seq<char>>::empty());
    add_paths(&mut r, p);
    assert forall|x: Seq<char>| paths_of(r@).contains(x) implies exists|m: nat| fs.reach(s, x, m) by {
        assert(fs.reach(s, x, 0));
    }
    let n = fs.entries.len();
    let mut done: Vec<bool> = Vec::new();
    while done.len() < n
        invariant
            done@.len() <= n,
            count_open(done@) == done@.len(),
            forall|k: int| 0 <= k < done@.len() ==> !done@[k],
        decreases n - done@.len(),
    {
        let ghost before = done@;
        done.push(false);
        proof {
            assert(done@.drop_last() =~= before);
        }
    }
    let mut remaining: usize = n;
    let mut changed = true;
    while changed
        invariant
            n == fs.entries@.len(),
            done@.len() == n,
            remaining == count_open(done@),
            s.subset_of(paths_of(r@)),
            forall|x: Seq<char>| paths_of(r@).contains(x) ==> exists|m: nat| fs.reach(s, x, m),
            forall|k: int| 0 <= k < n && #[trigger] done@[k] ==> fs.is_link(k) && paths_of(r@).contains(fs.link_dest(k)),
            !changed ==> forall|k: int|
                0 <= k < n && !done@[k] && fs.is_link(k) ==> !paths_of(r@).contains(fs.entries@[k].path@),
            distinct_paths(r@),
        decreases remaining + if changed {
            1nat
        } else {
            0nat
        },
    {
        changed = false;
        let ghost start_rem = remaining;
        let ghost start_r = paths_of(r@);
        let mut k: usize = 0;
        while k < n
            invariant
                n == fs.entries@.len(),
                done@.len() == n,
                k <= n,
                remaining == count_open(done@),
                s.subset_of(paths_of(r@)),
                forall|x: Seq<char>| paths_of(r@).contains(x) ==> exists|m: nat| fs.reach(s, x, m),
                forall|j: int| 0 <= j < n && #[trigger] done@[j] ==> fs.is_link(j) && paths_of(r@).contains(fs.link_dest(j)),
                distinct_paths(r@),
                !changed ==> paths_of(r@) == start_r && remaining == start_rem,
                changed ==> remaining < start_rem,
                !changed ==> forall|j: int|
                    0 <= j < k && !done@[j] && fs.is_link(j) ==> !paths_of(r@).contains(fs.entries@[j].path@),
            decreases n - k,
        {
            if !done[k] {
                match &fs.entries[k].link {
                    Some(t) => {
                        if holds_path(&r, &fs.entries[k].path) {
                            let d = link_destination_of(fs.entries[k].path.as_str(), t.as_str());
                            proof {
                                let m = choose|m: nat| fs.reach(s, fs.entries@[k as int].path@, m);
                                assert(fs.is_link(k as int));
                                assert(fs.reach(s, d@, m + 1));
                                lemma_count_open_mark(done@, k as int);
                            }
                            let ghost before = paths_of(r@);
                            add_path(&mut r, d);
                            done.set(k, true);
                            remaining = remaining - 1;
                            changed = true;
                            proof {
                                assert forall|x: Seq<char>| paths_of(r@).contains(x) implies exists|m: nat|
                                    fs.reach(s, x, m) by {
                                    if x != d@ {
                                        assert(before.contains(x));
                                    }
                                }
                            }
                        }
                    },
                    None => {},
                }
            }
            k = k + 1;
        }
    }
    proof {
        let rs = paths_of(r@);
        assert(fs.closed_under_links(rs)) by {
            assert forall|k: int| fs.is_link(k) && rs.contains(#[trigger] fs.entries@[k].path@) implies rs.contains(
                fs.link_dest(k),
            ) by {
                assert(done@[k]);
            }
        }
        assert forall|x: Seq<char>| fs.link_closure(s).contains(x) implies rs.contains(x) by {
            let m = choose|m: nat| fs.reach(s, x, m);
            fs.lemma_reach_within(s, rs, x, m);
        }
        assert(rs =~= fs.link_closure(s));
    }
    r
}

/// The text filter that a profile asks for.
pub open spec fn text_filter_of(p: Profile) -> TextDataFilter {
    TextDataFilter {
        remove_manpages: p.f_man,
        remove_doc_data: p.f_doc,
        remove_l10n: p.f_l10n,
        remove_i18n: p.f_i18n,
    }
}

/// The resource filter that a profile and a mode ask for.
pub open spec fn resource_filter_of(p: Profile, ad: Autodeps) -> ResourcesDataFilter {
    ResourcesDataFilter { autodeps: ad, remove_archives: p.f_arc, remove_images: p.f_img }
}

/// The found paths that survive the text and resource filters.
pub open spec fn filtered_set(p: Profile, ad: Autodeps, found: Set<Seq<char>>) -> Set<Seq<char>> {
    found.filter(|x: Seq<char>| !text_filter_of(p).removes(x)).filter(
        |x: Seq<char>| !resource_filter_of(p, ad).removes(x),
    )
}

/// Every existing location of the content of the dropped packages.
pub open spec fn dropped_set(fs: RootFS, contents: Seq<String>) -> Set<Seq<char>> {
    Set::new(
        |a: Seq<char>| exists|i: int| 0 <= i < contents.len() && fs.aliases(contents[i]@, true).contains(a),
    )
}

/// The kept set: filters, then the kept paths added and the pruned ones
/// taken out, then links followed, then directories dropped where the
/// profile asks, then the dropped packages taken out. Kept paths survive
/// every removal, and pruned paths every addition.
pub open spec fn kept_paths(
    p: Profile,
    ad: Autodeps,
    found: Set<Seq<char>>,
    dropped: Set<Seq<char>>,
    fs: RootFS,
) -> Set<Seq<char>> {
    let keep = paths_of(p.f_expl_keep@);
    let prune = paths_of(p.f_expl_prune@);
    let s3 = filtered_set(p, ad, found).union(keep).difference(prune);
    let s4 = fs.link_closure(s3).difference(prune);
    let s5 = s4.filter(|x: Seq<char>| !(p.f_dir && fs.is_dir_path(x)));
    s5.difference(dropped).union(keep).difference(prune)
}

/// One thing a run does, in the order given.
#[derive(Clone, Copy, PartialEq, Eq, Structural, Debug)]
pub enum Step {
    /// Log the pre-hook instead of running it
    LogPreHook,
    RunPreHook,
    /// Log the post-hook instead of running it
    LogPostHook,
    RunPostHook,
    /// Report the kept and the removed sets
    Report,
    /// Write the kept set into the archive file, which lies outside the root
    Archive,
    /// Unlink every file of the removed set
    RemoveFiles,
    /// Remove directories that became empty
    RemoveEmptyDirs,
    /// Unlink symbolic links whose target is gone
    RemoveBrokenLinks,
    /// Mark the root as processed
    CreateLockfile,
}

/// The step deletes from the root or marks it.
pub open spec fn alters_root(s: Step) -> bool {
    s == Step::RemoveFiles || s == Step::RemoveEmptyDirs || s == Step::RemoveBrokenLinks || s
        == Step::CreateLockfile
}

/// The steps that open a run.
pub open spec fn start_steps(dry_run: bool, pre_hook: bool) -> Seq<Step> {
    if !pre_hook {
        seq![]
    } else if dry_run {
        seq![Step::LogPreHook]
    } else {
        seq![Step::RunPreHook]
    }
}

/// The steps that end a run: a report in a dry run, an archive where one
/// was asked for, else the post-hook, the deletions and the lockfile.
pub open spec fn finish_steps(dry_run: bool, archive: bool, post_hook: bool) -> Seq<Step> {
    if dry_run {
        if post_hook {
            seq![Step::LogPostHook, Step::Report]
        } else {
            seq![Step::Report]
        }
    } else if archive {
        seq![Step::Archive]
    } else {
        let tail = seq![
            Step::RemoveFiles,
            Step::RemoveEmptyDirs,
            Step::RemoveBrokenLinks,
            Step::CreateLockfile,
        ];
        if post_hook {
            seq![Step::RunPostHook] + tail
        } else {
            tail
        }
    }
}

/// The name a kept path has inside the archive, below its top directory.
pub open spec fn staged(top: Seq<char>, src: Seq<char>) -> Seq<char> {
    if src.len() > 0 && src[0] == '/' {
        top + src
    } else {
        top + seq!['/'] + src
    }
}

/// The top directory of the archive for `dst` at the time stamp `stamp`.
pub open spec fn archive_top(dst: Seq<char>, stamp: Seq<char>) -> Seq<char> {
    base_name(dst) + "-"@ + stamp
}

/// The archive file for `dst` at `stamp`: `<base>-<stamp>.tar.gz`, in the
/// directory of `dst`.
pub open spec fn archive_file(dst: Seq<char>, stamp: Seq<char>) -> Seq<char> {
    let name = archive_top(dst, stamp) + ".tar.gz"@;
    if parent_dir(dst).len() == 0 {
        name
    } else {
        join_path(parent_dir(dst), name)
    }
}

/// The archive file and its top directory for `dst` at `stamp`.
pub fn archive_name(dst: &str, stamp: &str) -> (r: (String, String))
    ensures
        r.0@ == archive_file(dst@, stamp@),
        r.1@ == archive_top(dst@, stamp@),
{
    let mut top = base_name_of(dst);
    top.append("-");
    top.append(stamp);
    let name = concat(top.as_str(), ".tar.gz");
    let dir = parent_dir_of(dst);
    let file = if dir.unicode_len() == 0 {
        name
    } else {
        join_path_of(dir.as_str(), name.as_str())
    };
    (file, top)
}

/// Each kept path with the name it has inside the archive.
pub fn archive_entries(top: &str, kept: &Vec<String>) -> (r: Vec<(String, String)>)
    ensures
        r@.len() == kept@.len(),
        forall|i: int|
            0 <= i < kept@.len() ==> (#[trigger] r@[i]).0@ == kept@[i]@ && r@[i].1@ == staged(
                top@,
                kept@[i]@,
            ),
{
    let mut entries: Vec<(String, String)> = Vec::new();
    let mut i: usize = 0;
    while i < kept.len()
        invariant
            i <= kept@.len(),
            entries@.len() == i,
            forall|j: int|
                0 <= j < i ==> (#[trigger] entries@[j]).0@ == kept@[j]@ && entries@[j].1@ == staged(
                    top@,
                    kept@[j]@,
                ),
        decreases kept@.len() - i,
    {
        let src = &kept[i];
        let c = chars_of(src.as_str());
        let name = if c.len() > 0 && c[0] == '/' {
            concat(top, src.as_str())
        } else {
            let mut t = concat(top, "/");
            t.append(src.as_str());
            proof {
                reveal_strlit("/");
            }
            t
        };
        entries.push((src.clone(), name));
        i = i + 1;
    }
    entries
}

/// A moment as calendar date and time of day.
#[derive(Clone, Copy)]
pub struct Stamp {
    pub year: u32,
    pub month: u32,
    pub day: u32,
    pub hour: u32,
    pub minute: u32,
    pub second: u32,
}

/// The decimal digit for `d`.
pub open spec fn digit_char(d: int) -> char {
    if d == 0 {
        '0'
    } else if d == 1 {
        '1'
    } else if d == 2 {
        '2'
    } else if d == 3 {
        '3'
    } else if d == 4 {
        '4'
    } else if d == 5 {
        '5'
    } else if d == 6 {
        '6'
    } else if d == 7 {
        '7'
    } else if d == 8 {
        '8'
    } else {
        '9'
    }
}

/// `n` in `w` decimal digits, zero-padded.
pub open spec fn padded(n: int, w: nat) -> Seq<char>
    decreases w,
{
    if w == 0 {
        Seq::empty()
    } else {
        padded(n / 10, (w - 1) as nat).push(digit_char(n % 10))
    }
}

impl Stamp {
    /// Every field lies in its calendar range (a four-digit year).
    pub open spec fn wf(&self) -> bool {
        &&& self.year <= 9999
        &&& 1 <= self.month <= 12
        &&& 1 <= self.day <= 31
        &&& self.hour <= 23
        &&& self.minute <= 59
        &&& self.second <= 60
    }

    /// The stamp as `YYYYMMDDHHMMSS`.
    pub open spec fn text(&self) -> Seq<char> {
        padded(self.year as int, 4) + padded(self.month as int, 2) + padded(self.day as int, 2)
            + padded(self.hour as int, 2) + padded(self.minute as int, 2) + padded(
            self.second as int,
            2,
        )
    }

    /// The stamp as `YYYYMMDDHHMMSS`
    pub fn to_text(&self) -> (r: String)
        requires
            self.wf(),
        ensures
            r@ == self.text(),
    {
        let mut s = String::new();
        push_padded(&mut s, self.year, 4);
        push_padded(&mut s, self.month, 2);
        push_padded(&mut s, self.day, 2);
        push_padded(&mut s, self.hour, 2);
        push_padded(&mut s, self.minute, 2);
        push_padded(&mut s, self.second, 2);
        assert(s@ =~= self.text());
        s
    }
}

fn push_digit(s: &mut String, d: u32)
    requires
        d < 10,
    ensures
        final(s)@ == old(s)@.push(digit_char(d as int)),
{
    let t = if d == 0 {
        "0"
    } else if d == 1 {
        "1"
    } else if d == 2 {
        "2"
    } else if d == 3 {
        "3"
    } else if d == 4 {
        "4"
    } else if d == 5 {
        "5"
    } else if d == 6 {
        "6"
    } else if d == 7 {
        "7"
    } else if d == 8 {
        "8"
    } else {
        "9"
    };
    proof {
        reveal_strlit("0");
        reveal_strlit("1");
        reveal_strlit("2");
        reveal_strlit("3");
        reveal_strlit("4");
        reveal_strlit("5");
        reveal_strlit("6");
        reveal_strlit("7");
        reveal_strlit("8");
        reveal_strlit("9");
    }
    s.append(t);
    assert(final(s)@ =~= old(s)@.push(digit_char(d as int)));
}

fn push_padded(s: &mut String, n: u32, w: u32)
    requires
        w <= 4,
    ensures
        final(s)@ == old(s)@ + padded(n as int, w as nat),
    decreases w,
{
    if w == 0 {
        assert(old(s)@ + padded(n as int, 0) =~= old(s)@);
        return;
    }
    push_padded(s, n / 10, w - 1);
    push_digit(s, n % 10);
    assert(final(s)@ =~= old(s)@ + padded(n as int, w as nat));
}

/// Main processing of profiles or other data
pub struct TintProcessor {
    pub profile: Profile,
    pub root: String,
    pub dry_run: bool,
    pub autodeps: Autodeps,
    pub lockfile: String,
    /// Do not erase what is not kept, but put the kept set into an archive
    pub copy_to: Option<String>,
}

impl TintProcessor {
    pub fn new(root: String) -> (r: Self)
        ensures
            r.root == root,
            r.dry_run,
            r.autodeps == Autodeps::Free,
            r.lockfile@ == "/.tinted.lock"@,
            r.copy_to is None,
            !r.profile.f_l10n && !r.profile.f_i18n && !r.profile.f_doc && !r.profile.f_man,
            !r.profile.f_dir && !r.profile.f_log && !r.profile.f_img && !r.profile.f_arc,
            r.profile.f_expl_prune@.len() == 0 && r.profile.f_expl_keep@.len() == 0,
            r.profile.packages@.len() == 0 && r.profile.targets@.len() == 0,
            r.profile.bundled_packages@.len() == 0 && r.profile.dropped_packages@.len() == 0,
            r.profile.pre_hook is None && r.profile.post_hook is None,
    {
        TintProcessor {
            profile: Profile::default(),
            root,
            dry_run: true,
            autodeps: Autodeps::Free,
            lockfile: "/.tinted.lock".to_owned(),
            copy_to: None,
        }
    }

    /// Set configuration from a profile
    pub fn set_profile(&mut self, profile: Profile)
        ensures
            *final(self) == (TintProcessor { profile, ..*old(self) }),
    {
        self.profile = profile;
    }

    /// Set dry-run flag (no actual writes on the target image)
    pub fn set_dry_run(&mut self, dr: bool)
        ensures
            *final(self) == (TintProcessor { dry_run: dr, ..*old(self) }),
    {
        self.dry_run = dr;
    }

    /// Set the mode of automatic dependency tracing from its name; an
    /// unknown name turns tracing off
    pub fn set_autodeps(&mut self, ad: &str)
        ensures
            *final(self) == (TintProcessor {
                autodeps: if ad@ == "free"@ {
                    Autodeps::Free
                } else if ad@ == "clean"@ {
                    Autodeps::Clean
                } else if ad@ == "tight"@ {
                    Autodeps::Tight
                } else {
                    Autodeps::Undef
                },
                ..*old(self)
            }),
    {
        let a = ad.to_owned();
        if a == "free".to_owned() {
            self.autodeps = Autodeps::Free;
        } else if a == "clean".to_owned() {
            self.autodeps = Autodeps::Clean;
        } else if a == "tight".to_owned() {
            self.autodeps = Autodeps::Tight;
        } else {
            self.autodeps = Autodeps::Undef;
        }
    }

    /// Set a path of an archive where to copy all the content, instead of
    /// erasing everything else from the root. An empty path changes nothing;
    /// a directory, or a path that exists, is refused.
    pub fn copy_to(&mut self, dst: &str, is_dir: bool, exists: bool) -> (r: Result<(), TintError>)
        ensures
            dst@.len() == 0 ==> r is Ok && *final(self) == *old(self),
            dst@.len() > 0 && is_dir ==> r == Err::<(), TintError>(TintError::InvalidArgument)
                && *final(self) == *old(self),
            dst@.len() > 0 && !is_dir && exists ==> r == Err::<(), TintError>(
                TintError::AlreadyExists,
            ) && *final(self) == *old(self),
            dst@.len() > 0 && !is_dir && !exists ==> r is Ok && (final(self).copy_to matches Some(
                c,
            ) && c@ == dst@) && *final(self) == (TintProcessor { copy_to: final(self).copy_to, ..*old(self) }),
    {
        if dst.is_empty() {
            return Ok(());
        }
        if is_dir {
            return Err(TintError::InvalidArgument);
        }
        if exists {
            return Err(TintError::AlreadyExists);
        }
        self.copy_to = Some(dst.to_owned());
        Ok(())
    }

    /// Opens a run: refuses a root that carries the lockfile, else gives the
    /// steps that come before any scan
    pub fn start(&self, lock_exists: bool) -> (r: Result<Vec<Step>, TintError>)
        ensures
            lock_exists ==> r == Err::<Vec<Step>, TintError>(TintError::AlreadyTinted),
            !lock_exists ==> (r matches Ok(v) && v@ == start_steps(
                self.dry_run,
                self.profile.pre_hook is Some,
            )),
    {
        if lock_exists {
            return Err(TintError::AlreadyTinted);
        }
        let mut v: Vec<Step> = Vec::new();
        if self.profile.has_pre_hook() {
            if self.dry_run {
                v.push(Step::LogPreHook);
            } else {
                v.push(Step::RunPreHook);
            }
        }
        assert(v@ =~= start_steps(self.dry_run, self.profile.pre_hook is Some));
        Ok(v)
    }

    /// The steps that end a run, once the kept and removed sets are known
    pub fn finish(&self) -> (r: Vec<Step>)
        ensures
            r@ == finish_steps(self.dry_run, self.copy_to is Some, self.profile.post_hook is Some),
    {
        let mut v: Vec<Step> = Vec::new();
        if self.dry_run {
            if self.profile.has_post_hook() {
                v.push(Step::LogPostHook);
            }
            v.push(Step::Report);
        } else if self.copy_to.is_some() {
            v.push(Step::Archive);
        } else {
            if self.profile.has_post_hook() {
                v.push(Step::RunPostHook);
            }
            v.push(Step::RemoveFiles);
            v.push(Step::RemoveEmptyDirs);
            v.push(Step::RemoveBrokenLinks);
            v.push(Step::CreateLockfile);
        }
        assert(v@ =~= finish_steps(
            self.dry_run,
            self.copy_to is Some,
            self.profile.post_hook is Some,
        ));
        v
    }

    /// The archive file and its top directory, stamped with the moment
    /// `at`; none where no archive was asked for
    pub fn into_archive(&self, at: &Stamp) -> (r: Option<(String, String)>)
        requires
            at.wf(),
        ensures
            self.copy_to is None <==> r is None,
            r matches Some(n) ==> n.0@ == archive_file(self.copy_to->0@, at.text()) && n.1@
                == archive_top(self.copy_to->0@, at.text()),
    {
        match &self.copy_to {
            Some(dst) => {
                let stamp = at.to_text();
                Some(archive_name(dst.as_str(), stamp.as_str()))
            },
            None => None,
        }
    }

    /// Every existing location of the content of the dropped packages
    pub fn dropped_locations(fs: &RootFS, contents: &Vec<String>) -> (r: Vec<String>)
        ensures
            paths_of(r@) == dropped_set(*fs, contents@),
    {
        let mut r: Vec<String> = Vec::new();
        assert(paths_of(r@) =~= Set::<Seq<char>>::empty());
        let mut i: usize = 0;
        while i < contents.len()
            invariant
                i <= contents@.len(),
                paths_of(r@) == Set::new(
                    |a: Seq<char>|
                        exists|j: int| 0 <= j < i && fs.aliases(contents@[j]@, true).contains(a),
                ),
            decreases contents@.len() - i,
        {
            let al = fs.expand_target(&contents[i], true);
            add_paths(&mut r, &al);
            proof {
                assert(paths_of(r@) =~= Set::new(
                    |a: Seq<char>|
                        exists|j: int| 0 <= j < i + 1 && fs.aliases(contents@[j]@, true).contains(a),
                )) by {
                    assert forall|a: Seq<char>| (exists|j: int| 0 <= j < i + 1 && fs.aliases(contents@[j]@, true).contains(a))
                        implies paths_of(r@).contains(a) by {
                        let j = choose|j: int| 0 <= j < i + 1 && fs.aliases(contents@[j]@, true).contains(a);
                        if j < i {
                            assert(exists|j: int| 0 <= j < i && fs.aliases(contents@[j]@, true).contains(a));
                        }
                    }
                }
            }
            i = i + 1;
        }
        assert(paths_of(r@) =~= dropped_set(*fs, contents@));
        r
    }

    /// The kept set, from the paths found by the scans, the content of the
    /// dropped packages and the walked root
    pub fn keep_set(&self, found: &Vec<String>, dropped: &Vec<String>, fs: &RootFS) -> (r: Vec<String>)
        ensures
            paths_of(r@) == kept_paths(
                self.profile,
                self.autodeps,
                paths_of(found@),
                dropped_set(*fs, dropped@),
                *fs,
            ),
            distinct_paths(r@),
    {
        let ghost keep = paths_of(self.profile.f_expl_keep@);
        let ghost prune = paths_of(self.profile.f_expl_prune@);
        let mut paths: Vec<String> = Vec::new();
        assert(paths_of(paths@) =~= Set::<Seq<char>>::empty());
        add_paths(&mut paths, found);
        TextDataFilter::new(&self.profile).filter(&mut paths);
        ResourcesDataFilter::new(&self.profile, self.autodeps).filter(&mut paths);
        assert(paths_of(paths@) =~= filtered_set(self.profile, self.autodeps, paths_of(found@)));
        add_paths(&mut paths, &self.profile.f_expl_keep);
        let prune_list = PathList { data: self.profile.get_prune_paths() };
        retain_kept(&prune_list, &mut paths);
        assert(paths_of(paths@) =~= filtered_set(self.profile, self.autodeps, paths_of(found@)).union(keep).difference(prune));
        let mut paths = ext_path(&paths, fs);
        retain_kept(&prune_list, &mut paths);
        let dirs = PathsDataFilter::for_root(fs, &self.profile);
        dirs.filter(&mut paths);
        let gone = PathList { data: Self::dropped_locations(fs, dropped) };
        retain_kept(&gone, &mut paths);
        add_paths(&mut paths, &self.profile.f_expl_keep);
        retain_kept(&prune_list, &mut paths);
        assert(paths_of(paths@) =~= kept_paths(
            self.profile,
            self.autodeps,
            paths_of(found@),
            dropped_set(*fs, dropped@),
            *fs,
        ));
        paths
    }
}

/// Every path held by some list of `v`.
pub open spec fn union_all(v: Seq<Vec<String>>) -> Set<Seq<char>> {
    Set::new(|p: Seq<char>| exists|i: int| 0 <= i < v.len() && paths_of(v[i]@).contains(p))
}

/// Adds every path of every list of `w` to `v`.
fn add_all(v: &mut Vec<String>, w: &Vec<Vec<String>>)
    ensures
        paths_of(final(v)@) == paths_of(old(v)@).union(union_all(w@)),
        distinct_paths(old(v)@) ==> distinct_paths(final(v)@),
{
    let mut i: usize = 0;
    while i < w.len()
        invariant
            i <= w@.len(),
            paths_of(v@) == paths_of(old(v)@).union(union_all(w@.subrange(0, i as int))),
            distinct_paths(old(v)@) ==> distinct_paths(v@),
        decreases w@.len() - i,
    {
        add_paths(v, &w[i]);
        proof {
            let a = w@.subrange(0, i as int);
            let b = w@.subrange(0, i + 1);
            assert forall|p: Seq<char>| union_all(b).contains(p) implies union_all(a).union(paths_of(w@[i as int]@)).contains(p) by {
                let j = choose|j: int| 0 <= j < b.len() && paths_of(b[j]@).contains(p);
                if j < i {
                    assert(a[j] == b[j]);
                }
            }
            assert forall|p: Seq<char>| union_all(a).union(paths_of(w@[i as int]@)).contains(p) implies union_all(b).contains(p) by {
                if union_all(a).contains(p) {
                    let j = choose|j: int| 0 <= j < a.len() && paths_of(a[j]@).contains(p);
                    assert(b[j] == a[j]);
                } else {
                    assert(b[i as int] == w@[i as int]);
                }
            }
            assert(union_all(b) =~= union_all(a).union(paths_of(w@[i as int]@)));
            assert(paths_of(v@) =~= paths_of(old(v)@).union(union_all(b)));
        }
        i = i + 1;
    }
    assert(w@.subrange(0, w@.len() as int) =~= w@);
}

/// The paths the scans found: every target, the libraries and the package
/// files found for the targets, and the content of the requested packages.
pub fn collect_found(
    targets: &Vec<String>,
    libs: &Vec<Vec<String>>,
    pkg_files: &Vec<Vec<String>>,
    packages: &Vec<Vec<String>>,
) -> (r: Vec<String>)
    ensures
        paths_of(r@) == paths_of(targets@).union(union_all(libs@)).union(union_all(pkg_files@)).union(
            union_all(packages@),
        ),
        distinct_paths(r@),
{
    let mut r: Vec<String> = Vec::new();
    assert(paths_of(r@) =~= Set::<Seq<char>>::empty());
    assert(distinct_paths(r@));
    add_paths(&mut r, targets);
    add_all(&mut r, libs);
    add_all(&mut r, pkg_files);
    add_all(&mut r, packages);
    assert(paths_of(r@) =~= paths_of(targets@).union(union_all(libs@)).union(union_all(pkg_files@)).union(
        union_all(packages@),
    ));
    r
}

/// Without filters, pruned paths or dropped packages, every found path is
/// kept.
pub proof fn lemma_found_kept_without_filters(
    p: Profile,
    ad: Autodeps,
    found: Set<Seq<char>>,
    fs: RootFS,
    x: Seq<char>,
)
    requires
        found.contains(x),
        !p.f_l10n && !p.f_i18n && !p.f_doc && !p.f_man,
        !p.f_dir && !p.f_img && !p.f_arc,
        !ad.drops_junk(),
        p.f_expl_prune@.len() == 0,
    ensures
        kept_paths(p, ad, found, Set::empty(), fs).contains(x),
{
    let keep = paths_of(p.f_expl_keep@);
    let prune = paths_of(p.f_expl_prune@);
    assert(!prune.contains(x));
    let s3 = filtered_set(p, ad, found).union(keep).difference(prune);
    assert(s3.contains(x));
    assert(fs.reach(s3, x, 0));
    assert(fs.link_closure(s3).contains(x));
}

/// Every kept path that is not also pruned stays in the kept set.
pub proof fn lemma_keep_wins(
    p: Profile,
    ad: Autodeps,
    found: Set<Seq<char>>,
    dropped: Set<Seq<char>>,
    fs: RootFS,
    x: Seq<char>,
)
    requires
        paths_of(p.f_expl_keep@).contains(x),
        !paths_of(p.f_expl_prune@).contains(x),
    ensures
        kept_paths(p, ad, found, dropped, fs).contains(x),
{
}

/// No pruned path is in the kept set.
pub proof fn lemma_prune_wins(
    p: Profile,
    ad: Autodeps,
    found: Set<Seq<char>>,
    dropped: Set<Seq<char>>,
    fs: RootFS,
    x: Seq<char>,
)
    requires
        paths_of(p.f_expl_prune@).contains(x),
    ensures
        !kept_paths(p, ad, found, dropped, fs).contains(x),
{
}

/// No location of a dropped package's content is in the kept set, unless
/// it is kept explicitly.
pub proof fn lemma_dropped_removed(
    p: Profile,
    ad: Autodeps,
    found: Set<Seq<char>>,
    dropped: Set<Seq<char>>,
    fs: RootFS,
    x: Seq<char>,
)
    requires
        dropped.contains(x),
        !paths_of(p.f_expl_keep@).contains(x),
    ensures
        !kept_paths(p, ad, found, dropped, fs).contains(x),
{
}

/// An archive run neither deletes from the root nor marks it.
pub proof fn lemma_archive_leaves_root(pre_hook: bool, post_hook: bool)
    ensures
        forall|i: int| 0 <= i < finish_steps(false, true, post_hook).len() ==> !alters_root(
            #[trigger] finish_steps(false, true, post_hook)[i],
        ),
        forall|i: int| 0 <= i < start_steps(false, pre_hook).len() ==> !alters_root(
            #[trigger] start_steps(false, pre_hook)[i],
        ),
{
}

/// The lockfile is written in an apply run alone, as its last step, and in
/// no step that opens a run.
pub proof fn lemma_lockfile_only_when_applied(dry_run: bool, archive: bool, pre_hook: bool, post_hook: bool)
    ensures
        finish_steps(dry_run, archive, post_hook).contains(Step::CreateLockfile) <==> (!dry_run
            && !archive),
        !dry_run && !archive ==> finish_steps(dry_run, archive, post_hook).last()
            == Step::CreateLockfile,
        !start_steps(dry_run, pre_hook).contains(Step::CreateLockfile),
{
    let f = finish_steps(dry_run, archive, post_hook);
    if !dry_run && !archive {
        assert(f[f.len() - 1] == Step::CreateLockfile);
    }
    if f.contains(Step::CreateLockfile) {
        let i = choose|i: int| 0 <= i < f.len() && f[i] == Step::CreateLockfile;
    }
    if start_steps(dry_run, pre_hook).contains(Step::CreateLockfile) {
        let i = choose|i: int| 0 <= i < start_steps(dry_run, pre_hook).len() && start_steps(dry_run, pre_hook)[i] == Step::CreateLockfile;
    }
}

} // verus!
