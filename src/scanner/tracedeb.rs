//! The dependency graph of Debian packages, followed transitively.
use super::general::Worklist;
use super::traceitf::PkgDepTrace;
use crate::pathstr::{is_prefix, paths_of, split_on, split_spec, texts};
use crate::textops::{lower_of, to_lower, trim_of, trimmed_of};
use vstd::prelude::*;

verus! {

/// The package named on a `depends:` line, given the trimmed line and its
/// lower-cased form: the second space-separated token, where there are more
/// than two.
pub open spec fn dependency_in(t: Seq<char>, lower: Seq<char>) -> Option<Seq<char>> {
    let toks = split_spec(t, ' ');
    if is_prefix("depends:"@, lower) && toks.len() > 2 {
        Some(toks[1])
    } else {
        None
    }
}

/// The package named on one line of the `depends` query's output.
pub open spec fn dependency_line(l: Seq<char>) -> Option<Seq<char>> {
    dependency_in(trimmed_of(l), lower_of(trimmed_of(l)))
}

/// The packages named on the lines, in order.
pub open spec fn dependencies_on(lines: Seq<Seq<char>>) -> Seq<Seq<char>>
    decreases lines.len(),
{
    if lines.len() == 0 {
        Seq::empty()
    } else {
        dependencies_on(lines.drop_last()) + match dependency_line(lines.last()) {
            Some(p) => seq![p],
            None => Seq::empty(),
        }
    }
}

/// The package on a trimmed line, given the line in lower case
pub fn dependency_of(t: &str, lower: &str) -> (r: Option<String>)
    ensures
        match r {
            Some(s) => dependency_in(t@, lower@) == Some(s@),
            None => dependency_in(t@, lower@) is None,
        },
{
    proof {
        reveal_strlit("depends:");
    }
    if !crate::pathstr::starts_with(lower, "depends:") {
        return None;
    }
    let toks = split_on(t, ' ');
    if toks.len() > 2 {
        assert(texts(toks@)[1] == toks@[1]@);
        Some(toks[1].clone())
    } else {
        None
    }
}

/// The packages that the output of the `depends` query names
pub fn parse_dependencies(out: &str) -> (r: Vec<String>)
    ensures
        texts(r@) == dependencies_on(split_spec(out@, '\n')),
{
    let lines = split_on(out, '\n');
    let mut r: Vec<String> = Vec::new();
    let mut i: usize = 0;
    while i < lines.len()
        invariant
            i <= lines@.len(),
            texts(r@) == dependencies_on(texts(lines@).subrange(0, i as int)),
            texts(lines@) == split_spec(out@, '\n'),
        decreases lines@.len() - i,
    {
        let t = trim_of(lines[i].as_str());
        let lower = to_lower(t.as_str());
        let hit = dependency_of(t.as_str(), lower.as_str());
        let ghost before = texts(r@);
        proof {
            assert(texts(lines@).subrange(0, i + 1).drop_last() =~= texts(lines@).subrange(0, i as int));
            assert(texts(lines@)[i as int] == lines@[i as int]@);
        }
        match hit {
            Some(p) => {
                r.push(p);
                assert(texts(r@) =~= before + seq![r@[r@.len() - 1]@]);
            },
            None => {
                assert(texts(r@) =~= before + Seq::<Seq<char>>::empty());
            },
        }
        i = i + 1;
    }
    assert(texts(lines@).subrange(0, lines@.len() as int) =~= texts(lines@));
    r
}

/// Follows the dependencies of a package: ask the `depends` query about
/// `next`, hand its output to `get_dependencies`, until nothing is left.
pub struct DebPackageTrace {
    pub work: Worklist,
}

impl DebPackageTrace {
    pub fn new() -> (r: Self)
        ensures
            r.work.wf(),
            r.work.seen@.len() == 0 && r.work.pending@.len() == 0 && r.work.excluded@.len() == 0,
    {
        DebPackageTrace { work: Worklist::new() }
    }

    /// Starts a trace at `pkg`
    pub fn start(&mut self, pkg: String)
        ensures
            final(self).work.wf(),
            final(self).work.seen@.len() == 0,
            texts(final(self).work.pending@) == seq![pkg@],
            final(self).work.asking is None,
            final(self).work.root@ == Some(pkg@),
            final(self).work.excluded == old(self).work.excluded,
    {
        self.work.start(pkg);
    }

    /// The next package to ask about; a package asked about before whose
    /// answer never came is taken as depending on nothing
    pub fn next(&mut self) -> (r: Option<String>)
        requires
            old(self).work.wf(),
        ensures
            final(self).work.wf(),
            final(self).work.seen == old(self).work.seen,
            final(self).work.excluded == old(self).work.excluded,
            old(self).work.pending@.len() == 0 ==> r is None && final(self).work.pending
                == old(self).work.pending,
            old(self).work.pending@.len() > 0 ==> r == Some(old(self).work.pending@.last())
                && final(self).work.pending@ == old(self).work.pending@.drop_last(),
            final(self).work.asking == r,
    {
        self.work.next()
    }

    /// Takes the output of the `depends` query for the package asked about
    /// last: the packages it names that were not found before and are not
    /// excluded are found and wait to be asked about
    pub fn get_dependencies(&mut self, out: &str)
        requires
            old(self).work.wf(),
        ensures
            final(self).work.wf(),
            final(self).work.excluded == old(self).work.excluded,
            old(self).work.asking is None ==> final(self).work == old(self).work,
            old(self).work.asking is Some ==> final(self).work.asking is None
                && paths_of(final(self).work.seen@) == paths_of(old(self).work.seen@).union(
                dependencies_on(split_spec(out@, '\n')).to_set().difference(
                    paths_of(old(self).work.excluded@),
                ),
            ) && paths_of(final(self).work.pending@) == paths_of(old(self).work.pending@).union(
                dependencies_on(split_spec(out@, '\n')).to_set().difference(
                    paths_of(old(self).work.excluded@),
                ).difference(paths_of(old(self).work.seen@)),
            ) && final(self).work.answers@.dom().contains(old(self).work.asked()->0)
                && dependencies_on(split_spec(out@, '\n')).to_set().subset_of(
                final(self).work.answers@[old(self).work.asked()->0],
            ),
    {
        let deps = parse_dependencies(out);
        proof {
            assert(paths_of(deps@) =~= texts(deps@).to_set()) by {
                assert forall|x: Seq<char>| texts(deps@).to_set().contains(x) implies paths_of(deps@).contains(x) by {
                    let j = choose|j: int| 0 <= j < texts(deps@).len() && texts(deps@)[j] == x;
                    assert(deps@[j]@ == x);
                }
                assert forall|x: Seq<char>| paths_of(deps@).contains(x) implies texts(deps@).to_set().contains(x) by {
                    let j = choose|j: int| 0 <= j < deps@.len() && deps@[j]@ == x;
                    assert(texts(deps@)[j] == x);
                }
            }
        }
        self.work.feed(&deps);
    }

    /// The packages found so far; once none waits and none is being asked
    /// about, the set is closed under the answers
    pub fn found(&self) -> (r: Vec<String>)
        requires
            self.work.wf(),
        ensures
            r@ == self.work.seen@,
            self.work.pending@.len() == 0 && self.work.asking is None ==> self.work.closed(),
            self.work.pending@.len() == 0 && self.work.asking is None && self.work.excluded@.len() == 0
                ==> paths_of(r@) == self.work.closure(),
    {
        self.work.found()
    }
}

impl PkgDepTrace for DebPackageTrace {
    open spec fn stops_at(&self) -> Set<Seq<char>> {
        paths_of(self.work.excluded@)
    }

    open spec fn found_so_far(&self) -> Set<Seq<char>> {
        paths_of(self.work.seen@)
    }

    open spec fn well_formed(&self) -> bool {
        self.work.wf()
    }

    /// Packages at which the trace stops
    fn exclude(&mut self, pkgs: Vec<String>) {
        let ghost before = self.work.excluded@;
        let mut pkgs = pkgs;
        let ghost added = pkgs@;
        self.work.excluded.append(&mut pkgs);
        proof {
            assert(paths_of(self.work.excluded@) =~= paths_of(before).union(paths_of(added))) by {
                assert forall|x: Seq<char>| paths_of(self.work.excluded@).contains(x) implies paths_of(before).union(paths_of(added)).contains(x) by {
                    let j = choose|j: int| 0 <= j < self.work.excluded@.len() && self.work.excluded@[j]@ == x;
                    if j < before.len() {
                        assert(self.work.excluded@[j] == before[j]);
                    } else {
                        assert(self.work.excluded@[j] == added[j - before.len()]);
                    }
                }
                assert forall|x: Seq<char>| paths_of(before).union(paths_of(added)).contains(x) implies paths_of(self.work.excluded@).contains(x) by {
                    if paths_of(before).contains(x) {
                        let j = choose|j: int| 0 <= j < before.len() && before[j]@ == x;
                        assert(self.work.excluded@[j] == before[j]);
                    } else {
                        let j = choose|j: int| 0 <= j < added.len() && added[j]@ == x;
                        assert(self.work.excluded@[j + before.len()] == added[j]);
                    }
                }
            }
            if old(self).work.wf() {
                assert forall|z: Seq<char>| self.work.answers@.dom().contains(z) implies self.work.answers@[z].difference(
                    paths_of(self.work.excluded@),
                ).subset_of(paths_of(self.work.seen@)) && self.work.member(z) by {
                    assert(old(self).work.answers@[z].difference(paths_of(before)).subset_of(paths_of(self.work.seen@)));
                }
                assert forall|y: Seq<char>| self.work.member(y) implies paths_of(self.work.pending@).contains(y)
                    || self.work.answers@.dom().contains(y) || self.work.asked() == Some(y) by {
                    assert(old(self).work.member(y));
                }
                assert forall|y: Seq<char>| paths_of(self.work.pending@).contains(y) implies self.work.member(y) by {
                    assert(old(self).work.member(y));
                }
                assert forall|y: Seq<char>| paths_of(self.work.seen@).contains(y) implies exists|x: Seq<char>|
                    self.work.answers@.dom().contains(x) && #[trigger] self.work.answers@[x].contains(y)
                        && self.work.reached(x) by {
                    assert(paths_of(old(self).work.seen@).contains(y));
                    let x = choose|x: Seq<char>| old(self).work.answers@.dom().contains(x) && old(self).work.answers@[x].contains(y)
                        && old(self).work.reached(x);
                    assert(self.work.answers@[x].contains(y));
                }
                if let Some(y) = self.work.asked() {
                    assert(old(self).work.member(y));
                }
            }
        }
    }

    /// The packages found so far
    fn trace(&self) -> Vec<String> {
        let r = self.work.seen.clone();
        assert(r@ =~= self.work.seen@);
        r
    }
}

} // verus!
