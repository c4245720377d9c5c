//! The declarative description of what a bundle keeps and drops.
use crate::procdata::TintError;
use vstd::prelude::*;

verus! {

/// The `config` section of a profile document.
pub struct PConfig {
    pub filters: Option<Vec<String>>,
    pub prune: Option<Vec<String>>,
    pub keep: Option<Vec<String>>,
    pub pre_hook: Option<String>,
    pub post_hook: Option<String>,
    pub bundled_packages: Option<Vec<String>>,
    pub dropped_packages: Option<Vec<String>>,
}

/// A profile document as it was read.
pub struct PTargets {
    pub targets: Vec<String>,
    pub packages: Option<Vec<String>>,
    pub config: Option<PConfig>,
}

/// Which filter flags were given on the command line, one per filter.
#[derive(Clone, Copy)]
pub struct FilterFlags {
    pub l10n: bool,
    pub i18n: bool,
    pub doc: bool,
    pub man: bool,
    pub dir: bool,
    pub log: bool,
    pub img: bool,
    pub arc: bool,
}

/// The flag a filter ends with: where it was given, or where every flag is
/// applied, it removes its data unless the flag (inverted under `invert`)
/// says to keep it; otherwise it stays as it was.
pub open spec fn flag_result(old_remove: bool, given: bool, invert: bool, only_given: bool) -> bool {
    if !only_given || given {
        !(given != invert)
    } else {
        old_remove
    }
}

/// Profile. Each `f_*` flag is true when the corresponding data is removed.
pub struct Profile {
    pub f_l10n: bool,
    pub f_i18n: bool,
    pub f_doc: bool,
    pub f_man: bool,
    pub f_dir: bool,
    pub f_log: bool,
    pub f_img: bool,
    pub f_arc: bool,
    pub f_expl_prune: Vec<String>,
    pub f_expl_keep: Vec<String>,
    pub packages: Vec<String>,
    pub targets: Vec<String>,
    pub bundled_packages: Vec<String>,
    pub dropped_packages: Vec<String>,
    pub pre_hook: Option<String>,
    pub post_hook: Option<String>,
}

/// The filter list names `name` itself, or `all`.
pub open spec fn names_filter(names: Seq<String>, name: Seq<char>) -> bool {
    exists|i: int| 0 <= i < names.len() && (names[i]@ == name || names[i]@ == "all"@)
}

/// The list held by an optional field, empty when it is absent.
pub open spec fn list_or_empty(l: Option<Vec<String>>) -> Seq<String> {
    match l {
        Some(v) => v@,
        None => Seq::empty(),
    }
}

fn names_filter_exec(names: &Vec<String>, name: &str) -> (r: bool)
    ensures
        r == names_filter(names@, name@),
{
    let want = name.to_owned();
    let all = "all".to_owned();
    let mut i: usize = 0;
    while i < names.len()
        invariant
            i <= names@.len(),
            want@ == name@,
            all@ == "all"@,
            forall|j: int| 0 <= j < i ==> names@[j]@ != name@ && names@[j]@ != "all"@,
        decreases names@.len() - i,
    {
        if names[i] == want || names[i] == all {
            return true;
        }
        i = i + 1;
    }
    false
}

fn take_list(l: &Option<Vec<String>>) -> (r: Vec<String>)
    ensures
        r@ == list_or_empty(*l),
{
    match l {
        Some(v) => v.clone(),
        None => Vec::new(),
    }
}

impl Profile {
    /// A profile that removes nothing and names no target.
    pub fn default() -> (r: Self)
        ensures
            !r.f_l10n && !r.f_i18n && !r.f_doc && !r.f_man,
            !r.f_dir && !r.f_log && !r.f_img && !r.f_arc,
            r.f_expl_prune@.len() == 0 && r.f_expl_keep@.len() == 0,
            r.packages@.len() == 0 && r.targets@.len() == 0,
            r.bundled_packages@.len() == 0 && r.dropped_packages@.len() == 0,
            r.pre_hook is None && r.post_hook is None,
    {
        Profile {
            f_l10n: false,
            f_i18n: false,
            f_doc: false,
            f_man: false,
            f_dir: false,
            f_log: false,
            f_img: false,
            f_arc: false,
            f_expl_prune: Vec::new(),
            f_expl_keep: Vec::new(),
            packages: Vec::new(),
            targets: Vec::new(),
            bundled_packages: Vec::new(),
            dropped_packages: Vec::new(),
            pre_hook: None,
            post_hook: None,
        }
    }

    /// Builds the profile that a document describes. A document without
    /// targets is malformed; unknown filter names are ignored.
    pub fn new(doc: &PTargets) -> (r: Result<Self, TintError>)
        ensures
            doc.targets@.len() == 0 <==> r is Err,
            r is Err ==> r == Err::<Self, TintError>(TintError::MalformedProfile),
            r matches Ok(p) ==> {
                let names = match doc.config {
                    Some(c) => list_or_empty(c.filters),
                    None => Seq::empty(),
                };
                &&& p.targets@ == doc.targets@
                &&& p.packages@ == list_or_empty(doc.packages)
                &&& p.f_l10n == names_filter(names, "l10n"@)
                &&& p.f_i18n == names_filter(names, "i18n"@)
                &&& p.f_doc == names_filter(names, "doc"@)
                &&& p.f_man == names_filter(names, "man"@)
                &&& p.f_log == names_filter(names, "log"@)
                &&& p.f_dir == names_filter(names, "dir"@)
                &&& p.f_img == names_filter(names, "images"@)
                &&& p.f_arc == names_filter(names, "archives"@)
                &&& match doc.config {
                    Some(c) => {
                        &&& p.f_expl_prune@ == list_or_empty(c.prune)
                        &&& p.f_expl_keep@ == list_or_empty(c.keep)
                        &&& p.bundled_packages@ == list_or_empty(c.bundled_packages)
                        &&& p.dropped_packages@ == list_or_empty(c.dropped_packages)
                        &&& p.pre_hook == c.pre_hook
                        &&& p.post_hook == c.post_hook
                    },
                    None => {
                        &&& p.f_expl_prune@.len() == 0 && p.f_expl_keep@.len() == 0
                        &&& p.bundled_packages@.len() == 0 && p.dropped_packages@.len() == 0
                        &&& p.pre_hook is None && p.post_hook is None
                    },
                }
            },
    {
        if doc.targets.len() == 0 {
            return Err(TintError::MalformedProfile);
        }
        let mut p = Profile::default();
        p.targets = doc.targets.clone();
        p.packages = take_list(&doc.packages);
        match &doc.config {
            Some(c) => {
                let names = take_list(&c.filters);
                p.f_l10n = names_filter_exec(&names, "l10n");
                p.f_i18n = names_filter_exec(&names, "i18n");
                p.f_doc = names_filter_exec(&names, "doc");
                p.f_man = names_filter_exec(&names, "man");
                p.f_log = names_filter_exec(&names, "log");
                p.f_dir = names_filter_exec(&names, "dir");
                p.f_img = names_filter_exec(&names, "images");
                p.f_arc = names_filter_exec(&names, "archives");
                p.f_expl_prune = take_list(&c.prune);
                p.f_expl_keep = take_list(&c.keep);
                p.bundled_packages = take_list(&c.bundled_packages);
                p.dropped_packages = take_list(&c.dropped_packages);
                p.pre_hook = c.pre_hook.clone();
                p.post_hook = c.post_hook.clone();
            },
            None => {
                proof {
                    assert forall|n: Seq<char>| !names_filter(Seq::<String>::empty(), n) by {}
                }
            },
        }
        Ok(p)
    }

    /// Add target
    pub fn add_target(&mut self, target: String)
        ensures
            final(self).targets@ == old(self).targets@.push(target),
            *final(self) == (Profile { targets: final(self).targets, ..*old(self) }),
    {
        self.targets.push(target);
    }

    /// Keep localisation data when `keep` holds, else remove them
    pub fn set_l10n(&mut self, keep: bool)
        ensures
            *final(self) == (Profile { f_l10n: !keep, ..*old(self) }),
    {
        self.f_l10n = !keep;
    }

    /// Keep internationalisation data when `keep` holds, else remove them
    pub fn set_i18n(&mut self, keep: bool)
        ensures
            *final(self) == (Profile { f_i18n: !keep, ..*old(self) }),
    {
        self.f_i18n = !keep;
    }

    /// Keep documentation when `keep` holds, else remove them
    pub fn set_doc(&mut self, keep: bool)
        ensures
            *final(self) == (Profile { f_doc: !keep, ..*old(self) }),
    {
        self.f_doc = !keep;
    }

    /// Keep manual pages when `keep` holds, else remove them
    pub fn set_manpages(&mut self, keep: bool)
        ensures
            *final(self) == (Profile { f_man: !keep, ..*old(self) }),
    {
        self.f_man = !keep;
    }

    /// Keep directories when `keep` holds, else remove them
    pub fn set_dir(&mut self, keep: bool)
        ensures
            *final(self) == (Profile { f_dir: !keep, ..*old(self) }),
    {
        self.f_dir = !keep;
    }

    /// Keep images when `keep` holds, else remove them
    pub fn set_img(&mut self, keep: bool)
        ensures
            *final(self) == (Profile { f_img: !keep, ..*old(self) }),
    {
        self.f_img = !keep;
    }

    /// Keep archives when `keep` holds, else remove them
    pub fn set_arch(&mut self, keep: bool)
        ensures
            *final(self) == (Profile { f_arc: !keep, ..*old(self) }),
    {
        self.f_arc = !keep;
    }

    /// Keep logs when `keep` holds, else remove them
    pub fn set_log(&mut self, keep: bool)
        ensures
            *final(self) == (Profile { f_log: !keep, ..*old(self) }),
    {
        self.f_log = !keep;
    }

    /// Applies the command line's filter flags: each flag keeps its data,
    /// or under `invert` removes it. With `only_given`, only the flags that
    /// were given change the profile.
    pub fn apply_flags(&mut self, flags: FilterFlags, invert: bool, only_given: bool)
        ensures
            *final(self) == (Profile {
                f_l10n: flag_result(old(self).f_l10n, flags.l10n, invert, only_given),
                f_i18n: flag_result(old(self).f_i18n, flags.i18n, invert, only_given),
                f_doc: flag_result(old(self).f_doc, flags.doc, invert, only_given),
                f_man: flag_result(old(self).f_man, flags.man, invert, only_given),
                f_dir: flag_result(old(self).f_dir, flags.dir, invert, only_given),
                f_log: flag_result(old(self).f_log, flags.log, invert, only_given),
                f_img: flag_result(old(self).f_img, flags.img, invert, only_given),
                f_arc: flag_result(old(self).f_arc, flags.arc, invert, only_given),
                ..*old(self)
            }),
    {
        if !only_given || flags.man {
            self.set_manpages(flags.man != invert);
        }
        if !only_given || flags.dir {
            self.set_dir(flags.dir != invert);
        }
        if !only_given || flags.doc {
            self.set_doc(flags.doc != invert);
        }
        if !only_given || flags.i18n {
            self.set_i18n(flags.i18n != invert);
        }
        if !only_given || flags.l10n {
            self.set_l10n(flags.l10n != invert);
        }
        if !only_given || flags.log {
            self.set_log(flags.log != invert);
        }
        if !only_given || flags.arc {
            self.set_arch(flags.arc != invert);
        }
        if !only_given || flags.img {
            self.set_img(flags.img != invert);
        }
    }

    /// Add a path that is always dropped
    pub fn prune_path(&mut self, pth: String)
        ensures
            final(self).f_expl_prune@ == old(self).f_expl_prune@.push(pth),
            *final(self) == (Profile { f_expl_prune: final(self).f_expl_prune, ..*old(self) }),
    {
        self.f_expl_prune.push(pth);
    }

    /// Add a path that is always kept
    pub fn keep_path(&mut self, pth: String)
        ensures
            final(self).f_expl_keep@ == old(self).f_expl_keep@.push(pth),
            *final(self) == (Profile { f_expl_keep: final(self).f_expl_keep, ..*old(self) }),
    {
        self.f_expl_keep.push(pth);
    }

    /// Add a package whose whole content is kept
    pub fn add_package(&mut self, name: String)
        ensures
            final(self).packages@ == old(self).packages@.push(name),
            *final(self) == (Profile { packages: final(self).packages, ..*old(self) }),
    {
        self.packages.push(name);
    }

    /// Add a package whose content is removed even where a scan found it
    pub fn drop_package(&mut self, name: String)
        ensures
            final(self).dropped_packages@ == old(self).dropped_packages@.push(name),
            *final(self) == (Profile { dropped_packages: final(self).dropped_packages, ..*old(self) }),
    {
        self.dropped_packages.push(name);
    }

    /// Set the script run before the work
    pub fn set_pre_hook(&mut self, script: String)
        ensures
            *final(self) == (Profile { pre_hook: Some(script), ..*old(self) }),
    {
        self.pre_hook = Some(script);
    }

    /// Set the script run after the work
    pub fn set_post_hook(&mut self, script: String)
        ensures
            *final(self) == (Profile { post_hook: Some(script), ..*old(self) }),
    {
        self.post_hook = Some(script);
    }

    /// Get targets
    pub fn get_targets(&self) -> (r: &Vec<String>)
        ensures
            r == &self.targets,
    {
        &self.targets
    }

    /// Get paths to be explicitly pruned
    pub fn get_prune_paths(&self) -> (r: Vec<String>)
        ensures
            r@ == self.f_expl_prune@,
    {
        self.f_expl_prune.clone()
    }

    /// Get paths to be explicitly kept
    pub fn get_keep_paths(&self) -> (r: Vec<String>)
        ensures
            r@ == self.f_expl_keep@,
    {
        self.f_expl_keep.clone()
    }

    /// Get the packages whose content is kept
    pub fn get_packages(&self) -> (r: &Vec<String>)
        ensures
            r == &self.packages,
    {
        &self.packages
    }

    /// Get the packages whose content is removed
    pub fn get_dropped_packages(&self) -> (r: &Vec<String>)
        ensures
            r == &self.dropped_packages,
    {
        &self.dropped_packages
    }

    /// Get the packages the bundle owns
    pub fn get_bundled_packages(&self) -> (r: &Vec<String>)
        ensures
            r == &self.bundled_packages,
    {
        &self.bundled_packages
    }

    /// Returns true if localisation data needs to be removed
    pub fn filter_l10n(&self) -> (r: bool)
        ensures
            r == self.f_l10n,
    {
        self.f_l10n
    }

    /// Returns true if internationalisation data needs to be removed
    pub fn filter_i18n(&self) -> (r: bool)
        ensures
            r == self.f_i18n,
    {
        self.f_i18n
    }

    /// Returns true if logs needs to be removed
    pub fn filter_logs(&self) -> (r: bool)
        ensures
            r == self.f_log,
    {
        self.f_log
    }

    /// Returns true if manpages needs to be removed
    pub fn filter_manpages(&self) -> (r: bool)
        ensures
            r == self.f_man,
    {
        self.f_man
    }

    /// Returns true if directories needs to be revisited
    pub fn filter_dirs(&self) -> (r: bool)
        ensures
            r == self.f_dir,
    {
        self.f_dir
    }

    /// Returns true if documentation needs to be removed
    pub fn filter_doc(&self) -> (r: bool)
        ensures
            r == self.f_doc,
    {
        self.f_doc
    }

    /// Returns true if archives needs to be removed
    pub fn filter_arc(&self) -> (r: bool)
        ensures
            r == self.f_arc,
    {
        self.f_arc
    }

    /// Returns true if images/pictures needs to be removed
    pub fn filter_img(&self) -> (r: bool)
        ensures
            r == self.f_img,
    {
        self.f_img
    }

    /// A script runs before the work
    pub fn has_pre_hook(&self) -> (r: bool)
        ensures
            r == self.pre_hook is Some,
    {
        self.pre_hook.is_some()
    }

    /// A script runs after the work
    pub fn has_post_hook(&self) -> (r: bool)
        ensures
            r == self.post_hook is Some,
    {
        self.post_hook.is_some()
    }
}

} // verus!
