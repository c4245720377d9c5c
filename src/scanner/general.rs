//! What the scanners share: their results, the ELF reader's output, and the
//! work list of a closure over a graph that is explored one query at a time.
use crate::pathstr::{
    add_path, chars_of, contains_seq, contains_str, distinct_paths, ends_with, find_str,
    first_index, first_index_of, first_occurrence, is_suffix, lemma_first_index,
    paths_of, split_on, split_spec, texts,
};
use crate::procdata::TintError;
use crate::textops::{trim_of, trimmed_of};
use vstd::prelude::*;
use vstd::string::*;

verus! {

/// The sum of the sizes that are known.
pub open spec fn known_total(s: Seq<Option<u64>>) -> int
    decreases s.len(),
{
    if s.len() == 0 {
        0
    } else {
        known_total(s.drop_last()) + match s.last() {
            Some(n) => n as int,
            None => 0,
        }
    }
}

proof fn lemma_known_total_bound(s: Seq<Option<u64>>)
    ensures
        0 <= known_total(s) <= s.len() * 0xffff_ffff_ffff_ffff,
    decreases s.len(),
{
    if s.len() > 0 {
        lemma_known_total_bound(s.drop_last());
    }
}

/// Results of the scanner
pub struct ScannerResult {
    pub paths: Vec<String>,
    pub size: i128,
}

impl ScannerResult {
    /// Constructor
    pub fn new(paths: Vec<String>) -> (r: Self)
        ensures
            r.paths == paths,
            r.size == 0,
    {
        ScannerResult { paths, size: 0 }
    }

    /// Returns the total size on disk, summed once from the disk size of
    /// each path (where it could be read) and kept from then on
    pub fn get_size(&mut self, disk_sizes: &Vec<Option<u64>>) -> (r: i128)
        requires
            disk_sizes@.len() == old(self).paths@.len(),
            disk_sizes@.len() <= 0x7fff_ffff_ffff_ffff,
        ensures
            final(self).paths == old(self).paths,
            old(self).paths@.len() > 0 && old(self).size == 0 ==> final(self).size == known_total(disk_sizes@),
            !(old(self).paths@.len() > 0 && old(self).size == 0) ==> final(self).size == old(self).size,
            r == final(self).size,
    {
        if self.paths.len() > 0 && self.size == 0 {
            let mut t: i128 = 0;
            let mut i: usize = 0;
            while i < disk_sizes.len()
                invariant
                    i <= disk_sizes@.len(),
                    disk_sizes@.len() <= 0x7fff_ffff_ffff_ffff,
                    t == known_total(disk_sizes@.subrange(0, i as int)),
                decreases disk_sizes@.len() - i,
            {
                proof {
                    let a = disk_sizes@.subrange(0, i + 1);
                    assert(a.drop_last() =~= disk_sizes@.subrange(0, i as int));
                    lemma_known_total_bound(a);
                    assert(a.len() * 0xffff_ffff_ffff_ffff <= 0x7fff_ffff_ffff_ffff * 0xffff_ffff_ffff_ffff) by (nonlinear_arith)
                        requires a.len() <= 0x7fff_ffff_ffff_ffff;
                }
                match disk_sizes[i] {
                    Some(n) => {
                        t = t + n as i128;
                    },
                    None => {},
                }
                i = i + 1;
            }
            assert(disk_sizes@.subrange(0, disk_sizes@.len() as int) =~= disk_sizes@);
            self.size = t;
        }
        self.size
    }

    /// Returns package paths
    pub fn get_paths(&self) -> (r: &Vec<String>)
        ensures
            r == &self.paths,
    {
        &self.paths
    }
}

/// The library path on one line of the loader resolver's output: what
/// follows the first `/` up to the next `(`, trimmed, as an absolute path.
pub open spec fn ldd_line(l: Seq<char>) -> Option<Seq<char>> {
    let i = first_index(l, '/');
    let rest = l.subrange(i + 1, l.len() as int);
    let j = first_index(rest, '(');
    if i < 0 || rest.len() == 0 || j < 0 {
        None
    } else {
        Some(seq!['/'] + trimmed_of(rest.subrange(0, j)))
    }
}

/// `s` without the closing brackets at its end.
pub open spec fn strip_closing(s: Seq<char>) -> Seq<char>
    decreases s.len(),
{
    if s.len() > 0 && s.last() == ']' {
        strip_closing(s.drop_last())
    } else {
        s
    }
}

/// The library name on one line of the static printer's output: on a
/// `(NEEDED)` line, what follows the first `: [`, trimmed, without its
/// closing brackets, where that is not empty.
pub open spec fn readelf_line(l: Seq<char>) -> Option<Seq<char>> {
    if contains_seq(l, "(NEEDED)"@) && contains_seq(l, ": ["@) {
        let v = strip_closing(
            trimmed_of(l.subrange(first_occurrence(l, ": ["@) + 3, l.len() as int)),
        );
        if v.len() > 0 {
            Some(v)
        } else {
            None
        }
    } else {
        None
    }
}

/// What a line parser finds on each of `lines`, in order.
pub open spec fn found_on(lines: Seq<Seq<char>>, ldd: bool) -> Seq<Seq<char>>
    decreases lines.len(),
{
    if lines.len() == 0 {
        Seq::empty()
    } else {
        let hit = if ldd {
            ldd_line(lines.last())
        } else {
            readelf_line(lines.last())
        };
        found_on(lines.drop_last(), ldd) + match hit {
            Some(p) => seq![p],
            None => Seq::empty(),
        }
    }
}

/// The library path on one line of the loader resolver's output
pub fn parse_ldd_line(l: &str) -> (r: Option<String>)
    ensures
        match r {
            Some(s) => ldd_line(l@) == Some(s@),
            None => ldd_line(l@) is None,
        },
{
    let c = chars_of(l);
    proof {
        lemma_first_index(l@, '/');
    }
    let i = match first_index_of(&c, '/') {
        Some(i) => i,
        None => return None,
    };
    let n = l.unicode_len();
    let rest = l.substring_char(i + 1, n);
    let rc = chars_of(rest);
    if rc.len() == 0 {
        return None;
    }
    proof {
        lemma_first_index(rest@, '(');
    }
    let j = match first_index_of(&rc, '(') {
        Some(j) => j,
        None => return None,
    };
    let head = rest.substring_char(0, j);
    let t = trim_of(head);
    Some(ldd_path_from(t.as_str()))
}

/// The absolute library path, given the trimmed name part of a line
pub fn ldd_path_from(t: &str) -> (r: String)
    ensures
        r@ == seq!['/'] + t@,
{
    let mut out = "/".to_owned();
    out.append(t);
    proof {
        reveal_strlit("/");
    }
    assert(out@ =~= seq!['/'] + t@);
    out
}

/// The library name on one line of the static printer's output
pub fn parse_readelf_line(l: &str) -> (r: Option<String>)
    ensures
        match r {
            Some(s) => readelf_line(l@) == Some(s@),
            None => readelf_line(l@) is None,
        },
{
    if !contains_str(l, "(NEEDED)") {
        return None;
    }
    let i = match find_str(l, ": [") {
        Some(i) => i,
        None => return None,
    };
    proof {
        reveal_strlit(": [");
    }
    let n = l.unicode_len();
    let rest = l.substring_char(i + 3, n);
    let t = trim_of(rest);
    let v = strip_closing_of(t.as_str());
    if v.unicode_len() == 0 {
        return None;
    }
    Some(v)
}

/// `t` without the closing brackets at its end
pub fn strip_closing_of(t: &str) -> (r: String)
    ensures
        r@ == strip_closing(t@),
{
    let tc = chars_of(t);
    let mut k: usize = tc.len();
    assert(tc@.subrange(0, k as int) =~= tc@);
    while k > 0 && tc[k - 1] == ']'
        invariant
            k <= tc@.len(),
            tc@ == t@,
            strip_closing(tc@.subrange(0, k as int)) == strip_closing(tc@),
        decreases k,
    {
        assert(tc@.subrange(0, k as int).drop_last() =~= tc@.subrange(0, k - 1));
        k = k - 1;
    }
    let v = t.substring_char(0, k).to_owned();
    v
}

proof fn lemma_found_on_step(lines: Seq<Seq<char>>, i: int, ldd: bool)
    requires
        0 <= i < lines.len(),
    ensures
        found_on(lines.subrange(0, i + 1), ldd) == found_on(lines.subrange(0, i), ldd) + match (
        if ldd {
            ldd_line(lines[i])
        } else {
            readelf_line(lines[i])
        }) {
            Some(p) => seq![p],
            None => Seq::empty(),
        },
{
    assert(lines.subrange(0, i + 1).drop_last() =~= lines.subrange(0, i));
}

/// What the loader resolver or the static printer lists in its output.
#[verifier::rlimit(40)]
pub fn parse_libfind_output(out: &str, ldd: bool) -> (r: Vec<String>)
    ensures
        texts(r@) == found_on(split_spec(out@, '\n'), ldd),
{
    let lines = split_on(out, '\n');
    let mut r: Vec<String> = Vec::new();
    let mut i: usize = 0;
    while i < lines.len()
        invariant
            i <= lines@.len(),
            texts(r@) == found_on(texts(lines@).subrange(0, i as int), ldd),
            texts(lines@) == split_spec(out@, '\n'),
        decreases lines@.len() - i,
    {
        let hit = if ldd {
            parse_ldd_line(lines[i].as_str())
        } else {
            parse_readelf_line(lines[i].as_str())
        };
        let ghost before = texts(r@);
        proof {
            lemma_found_on_step(texts(lines@), i as int, ldd);
            assert(texts(lines@)[i as int] == lines@[i as int]@);
        }
        match hit {
            Some(p) => {
                r.push(p);
                assert(texts(r@) =~= before.push(r@[r@.len() - 1]@));
            },
            None => {},
        }
        i = i + 1;
    }
    assert(texts(lines@).subrange(0, lines@.len() as int) =~= texts(lines@));
    r
}

/// The ELF readers probed, in order, and the one chosen.
pub struct ScannerCommons {
    pub elfrd_paths: Vec<String>,
    pub elfrd_p: String,
}

impl ScannerCommons {
    pub fn new() -> (r: Self)
        ensures
            texts(r.elfrd_paths@) == seq!["/usr/bin/ldd"@, "/usr/bin/readelf"@],
            r.elfrd_p@.len() == 0,
    {
        let mut v: Vec<String> = Vec::new();
        v.push("/usr/bin/ldd".to_owned());
        v.push("/usr/bin/readelf".to_owned());
        assert(texts(v@) =~= seq!["/usr/bin/ldd"@, "/usr/bin/readelf"@]);
        ScannerCommons { elfrd_paths: v, elfrd_p: String::new() }
    }

    /// Chooses the first installed reader, once. `present[i]` tells whether
    /// the reader `elfrd_paths[i]` is installed.
    pub fn select_reader(&mut self, present: &Vec<bool>) -> (r: Result<(), TintError>)
        requires
            present@.len() == old(self).elfrd_paths@.len(),
        ensures
            final(self).elfrd_paths == old(self).elfrd_paths,
            old(self).elfrd_p@.len() > 0 ==> r is Ok && final(self).elfrd_p == old(self).elfrd_p,
            old(self).elfrd_p@.len() == 0 ==> (
                if exists|i: int| 0 <= i < present@.len() && present@[i] {
                    r is Ok && exists|i: int|
                        0 <= i < present@.len() && present@[i] && final(self).elfrd_p@
                            == old(self).elfrd_paths@[i]@ && forall|j: int| 0 <= j < i ==> !present@[j]
                } else {
                    r == Err::<(), TintError>(TintError::MissingTool)
                }
            ),
    {
        if self.elfrd_p.unicode_len() > 0 {
            return Ok(());
        }
        let mut i: usize = 0;
        while i < present.len()
            invariant
                i <= present@.len(),
                present@.len() == self.elfrd_paths@.len(),
                *self == *old(self),
                old(self).elfrd_p@.len() == 0,
                forall|j: int| 0 <= j < i ==> !present@[j],
            decreases present@.len() - i,
        {
            if present[i] {
                self.elfrd_p = self.elfrd_paths[i].clone();
                assert(present@[i as int] && self.elfrd_p@ == old(self).elfrd_paths@[i as int]@
                    && forall|j: int| 0 <= j < i ==> !present@[j]);
                return Ok(());
            }
            i = i + 1;
        }
        Err(TintError::MissingTool)
    }

    /// The arguments the chosen reader takes for a target
    pub fn reader_args(&self, target: &String) -> (r: Result<Vec<String>, TintError>)
        ensures
            is_suffix("/ldd"@, self.elfrd_p@) ==> (r matches Ok(v) && texts(v@) == seq![target@]),
            !is_suffix("/ldd"@, self.elfrd_p@) && is_suffix("/readelf"@, self.elfrd_p@) ==> (r matches Ok(v) && texts(v@) == seq!["-d"@, target@]),
            !is_suffix("/ldd"@, self.elfrd_p@) && !is_suffix("/readelf"@, self.elfrd_p@) ==> r == Err::<Vec<String>, TintError>(TintError::MissingTool),
    {
        let mut v: Vec<String> = Vec::new();
        if ends_with(self.elfrd_p.as_str(), "/ldd") {
            v.push(target.clone());
            assert(texts(v@) =~= seq![target@]);
            Ok(v)
        } else if ends_with(self.elfrd_p.as_str(), "/readelf") {
            v.push("-d".to_owned());
            v.push(target.clone());
            assert(texts(v@) =~= seq!["-d"@, target@]);
            Ok(v)
        } else {
            Err(TintError::MissingTool)
        }
    }

    /// The libraries that the chosen reader lists in its output
    pub fn call_libfind(&self, out: &str) -> (r: Result<Vec<String>, TintError>)
        ensures
            is_suffix("/ldd"@, self.elfrd_p@) ==> (r matches Ok(v) && texts(v@) == found_on(split_spec(out@, '\n'), true)),
            !is_suffix("/ldd"@, self.elfrd_p@) && is_suffix("/readelf"@, self.elfrd_p@) ==> (r matches Ok(v) && texts(v@) == found_on(split_spec(out@, '\n'), false)),
            !is_suffix("/ldd"@, self.elfrd_p@) && !is_suffix("/readelf"@, self.elfrd_p@) ==> r == Err::<Vec<String>, TintError>(TintError::MissingTool),
    {
        if ends_with(self.elfrd_p.as_str(), "/ldd") {
            Ok(parse_libfind_output(out, true))
        } else if ends_with(self.elfrd_p.as_str(), "/readelf") {
            Ok(parse_libfind_output(out, false))
        } else {
            Err(TintError::MissingTool)
        }
    }
}

/// The work list of a closure explored one query at a time: what was found,
/// what is still to be asked about, and what is never followed.
/// `y` is the root, or lies within `n` steps of it, a step leading from an
/// answered item to each item of its answer.
pub open spec fn reach_in(
    root: Option<Seq<char>>,
    ans: Map<Seq<char>, Set<Seq<char>>>,
    y: Seq<char>,
    n: nat,
) -> bool
    decreases n,
{
    if n == 0 {
        root == Some(y)
    } else {
        reach_in(root, ans, y, (n - 1) as nat) || exists|x: Seq<char>|
            ans.dom().contains(x) && reach_in(root, ans, x, (n - 1) as nat) && #[trigger] ans[x].contains(
                y,
            )
    }
}

/// `b` holds every answer of `a`, and more perhaps.
pub open spec fn answers_grow(a: Map<Seq<char>, Set<Seq<char>>>, b: Map<Seq<char>, Set<Seq<char>>>) -> bool {
    forall|x: Seq<char>| #[trigger] a.dom().contains(x) ==> b.dom().contains(x) && a[x].subset_of(b[x])
}

proof fn lemma_reach_grows(
    root: Option<Seq<char>>,
    a: Map<Seq<char>, Set<Seq<char>>>,
    b: Map<Seq<char>, Set<Seq<char>>>,
    y: Seq<char>,
    n: nat,
)
    requires
        answers_grow(a, b),
        reach_in(root, a, y, n),
    ensures
        reach_in(root, b, y, n),
    decreases n,
{
    if n > 0 {
        if reach_in(root, a, y, (n - 1) as nat) {
            lemma_reach_grows(root, a, b, y, (n - 1) as nat);
        } else {
            let x = choose|x: Seq<char>|
                a.dom().contains(x) && reach_in(root, a, x, (n - 1) as nat) && #[trigger] a[x].contains(y);
            lemma_reach_grows(root, a, b, x, (n - 1) as nat);
            assert(b[x].contains(y));
        }
    }
}

pub struct Worklist {
    pub seen: Vec<String>,
    pub pending: Vec<String>,
    pub excluded: Vec<String>,
    /// The item asked about last, whose answer has not come yet
    pub asking: Option<String>,
    /// Where the closure started
    pub root: Ghost<Option<Seq<char>>>,
    /// What each item asked about was answered with
    pub answers: Ghost<Map<Seq<char>, Set<Seq<char>>>>,
}

impl Worklist {
    /// `y` is the start or was found.
    pub open spec fn member(&self, y: Seq<char>) -> bool {
        paths_of(self.seen@).contains(y) || self.root@ == Some(y)
    }

    /// `y` is reached from the root through the recorded answers.
    pub open spec fn reached(&self, y: Seq<char>) -> bool {
        exists|n: nat| reach_in(self.root@, self.answers@, y, n)
    }

    /// What the answers of the items reached from the root name.
    pub open spec fn closure(&self) -> Set<Seq<char>> {
        Set::new(
            |y: Seq<char>|
                exists|x: Seq<char>|
                    self.reached(x) && self.answers@.dom().contains(x) && #[trigger] self.answers@[x].contains(y),
        )
    }

    /// The item being asked about, as text.
    pub open spec fn asked(&self) -> Option<Seq<char>> {
        match self.asking {
            Some(x) => Some(x@),
            None => None,
        }
    }

    /// The list is consistent: nothing is found twice; every member waits,
    /// is being asked about, or was answered; every answer, but for what is
    /// excluded, was found; everything found comes from some answer; and
    /// only members are asked about or wait.
    pub open spec fn wf(&self) -> bool {
        &&& distinct_paths(self.seen@)
        &&& forall|y: Seq<char>|
            #![trigger self.member(y)]
            self.member(y) ==> paths_of(self.pending@).contains(y) || self.answers@.dom().contains(y)
                || self.asked() == Some(y)
        &&& forall|x: Seq<char>|
            #![trigger self.answers@.dom().contains(x)]
            self.answers@.dom().contains(x) ==> self.answers@[x].difference(
                paths_of(self.excluded@),
            ).subset_of(paths_of(self.seen@)) && self.member(x)
        &&& forall|y: Seq<char>|
            #![trigger paths_of(self.seen@).contains(y)]
            paths_of(self.seen@).contains(y) ==> exists|x: Seq<char>|
                self.answers@.dom().contains(x) && #[trigger] self.answers@[x].contains(y)
                    && self.reached(x)
        &&& forall|y: Seq<char>|
            #![trigger paths_of(self.pending@).contains(y)]
            paths_of(self.pending@).contains(y) ==> self.member(y)
        &&& (self.asked() matches Some(y) ==> self.member(y))
    }

    /// Every member was asked about, and all its answer but what is
    /// excluded was found: the found set is closed.
    pub open spec fn closed(&self) -> bool {
        forall|y: Seq<char>|
            #![trigger self.member(y)]
            self.member(y) ==> self.answers@.dom().contains(y) && self.answers@[y].difference(
                paths_of(self.excluded@),
            ).subset_of(paths_of(self.seen@))
    }

    /// Every member is reached from the root.
    pub proof fn lemma_member_reached(&self, y: Seq<char>)
        requires
            self.wf(),
            self.member(y),
        ensures
            self.reached(y),
    {
        if self.root@ == Some(y) {
            assert(reach_in(self.root@, self.answers@, y, 0));
        } else {
            assert(paths_of(self.seen@).contains(y));
            let x = choose|x: Seq<char>|
                self.answers@.dom().contains(x) && #[trigger] self.answers@[x].contains(y) && self.reached(x);
            let n = choose|n: nat| reach_in(self.root@, self.answers@, x, n);
            assert(reach_in(self.root@, self.answers@, y, n + 1));
        }
    }

    /// Once the list is drained and closed, and nothing is excluded, every
    /// reached item is a member.
    proof fn lemma_reached_member(&self, y: Seq<char>, n: nat)
        requires
            self.wf(),
            self.closed(),
            self.excluded@.len() == 0,
            reach_in(self.root@, self.answers@, y, n),
        ensures
            self.member(y),
        decreases n,
    {
        if n > 0 {
            if reach_in(self.root@, self.answers@, y, (n - 1) as nat) {
                self.lemma_reached_member(y, (n - 1) as nat);
            } else {
                let x = choose|x: Seq<char>|
                    self.answers@.dom().contains(x) && reach_in(self.root@, self.answers@, x, (n - 1) as nat)
                        && #[trigger] self.answers@[x].contains(y);
                self.lemma_reached_member(x, (n - 1) as nat);
                assert(!paths_of(self.excluded@).contains(y));
                assert(self.answers@[x].difference(paths_of(self.excluded@)).contains(y));
            }
        }
    }

    /// Drained, with nothing excluded, the found set is exactly what the
    /// answers of the reached items name.
    pub proof fn lemma_done_is_closure(&self)
        requires
            self.wf(),
            self.pending@.len() == 0,
            self.asking is None,
            self.excluded@.len() == 0,
        ensures
            paths_of(self.seen@) == self.closure(),
    {
        self.lemma_done_is_closed();
        assert forall|y: Seq<char>| self.closure().contains(y) implies paths_of(self.seen@).contains(y) by {
            let x = choose|x: Seq<char>|
                self.reached(x) && self.answers@.dom().contains(x) && #[trigger] self.answers@[x].contains(y);
            let n = choose|n: nat| reach_in(self.root@, self.answers@, x, n);
            self.lemma_reached_member(x, n);
            assert(!paths_of(self.excluded@).contains(y));
            assert(self.answers@[x].difference(paths_of(self.excluded@)).contains(y));
        }
        assert(paths_of(self.seen@) =~= self.closure());
    }

    /// With nothing waiting and nothing asked about, the found set is closed.
    pub proof fn lemma_done_is_closed(&self)
        requires
            self.wf(),
            self.pending@.len() == 0,
            self.asking is None,
        ensures
            self.closed(),
    {
        assert forall|y: Seq<char>| self.member(y) implies self.answers@.dom().contains(y)
            && self.answers@[y].difference(paths_of(self.excluded@)).subset_of(
            paths_of(self.seen@),
        ) by {
            if paths_of(self.pending@).contains(y) {
                let j = choose|j: int| 0 <= j < self.pending@.len() && self.pending@[j]@ == y;
            }
        }
    }

    pub fn new() -> (r: Self)
        ensures
            r.seen@.len() == 0 && r.pending@.len() == 0 && r.excluded@.len() == 0,
            r.asking is None,
            r.wf(),
    {
        let r = Worklist {
            seen: Vec::new(),
            pending: Vec::new(),
            excluded: Vec::new(),
            asking: None,
            root: Ghost(None),
            answers: Ghost(Map::empty()),
        };
        assert(paths_of(r.seen@) =~= Set::<Seq<char>>::empty());
        assert(paths_of(r.pending@) =~= Set::<Seq<char>>::empty());
        r
    }

    /// Starts over from `root`, which is asked about first but is not itself
    /// a finding
    pub fn start(&mut self, root: String)
        ensures
            final(self).wf(),
            final(self).seen@.len() == 0,
            texts(final(self).pending@) == seq![root@],
            final(self).asking is None,
            final(self).root@ == Some(root@),
            final(self).excluded == old(self).excluded,
    {
        self.seen = Vec::new();
        self.pending = Vec::new();
        self.asking = None;
        self.root = Ghost(Some(root@));
        self.answers = Ghost(Map::empty());
        self.pending.push(root);
        assert(texts(self.pending@) =~= seq![root@]);
        assert(paths_of(self.seen@) =~= Set::<Seq<char>>::empty());
        assert(paths_of(self.pending@) =~= set![self.pending@[0]@]) by {
            assert(self.pending@[0]@ == self.pending@[0]@);
        }
    }

    /// The next item to ask about, if any. An item still asked about whose
    /// answer never came is taken as answered with nothing.
    pub fn next(&mut self) -> (r: Option<String>)
        requires
            old(self).wf(),
        ensures
            final(self).wf(),
            final(self).seen == old(self).seen,
            final(self).excluded == old(self).excluded,
            final(self).root == old(self).root,
            old(self).pending@.len() == 0 ==> r is None && final(self).pending == old(self).pending,
            old(self).pending@.len() > 0 ==> r == Some(old(self).pending@.last())
                && final(self).pending@ == old(self).pending@.drop_last(),
            final(self).asking == r,
    {
        proof {
            if let Some(y) = self.asked() {
                if !self.answers@.dom().contains(y) {
                    self.answers@ = self.answers@.insert(y, Set::empty());
                }
            }
        }
        let ghost before = self.pending@;
        let r = if self.pending.len() == 0 {
            None
        } else {
            self.pending.pop()
        };
        self.asking = match &r {
            Some(x) => Some(x.clone()),
            None => None,
        };
        proof {
            if before.len() > 0 {
                assert(paths_of(before).contains(before.last()@)) by {
                    assert(before[before.len() - 1]@ == before.last()@);
                }
                assert forall|y: Seq<char>| paths_of(self.pending@).contains(y) implies paths_of(before).contains(y) by {
                    let j = choose|j: int| 0 <= j < self.pending@.len() && self.pending@[j]@ == y;
                    assert(before[j] == self.pending@[j]);
                }
                assert forall|y: Seq<char>| paths_of(before).contains(y) && y != before.last()@ implies paths_of(self.pending@).contains(y) by {
                    let j = choose|j: int| 0 <= j < before.len() && before[j]@ == y;
                    assert(j != before.len() - 1);
                    assert(self.pending@[j] == before[j]);
                }
            }
            assert(paths_of(self.seen@) == paths_of(old(self).seen@));
            assert forall|y: Seq<char>| self.member(y) implies paths_of(self.pending@).contains(y)
                || self.answers@.dom().contains(y) || self.asked() == Some(y) by {
                assert(old(self).member(y));
                if paths_of(before).contains(y) {
                    if before.len() > 0 && y == before.last()@ {
                        assert(self.asked() == Some(y));
                    }
                }
            }
            assert forall|z: Seq<char>| self.answers@.dom().contains(z) implies self.answers@[z].difference(
                paths_of(self.excluded@),
            ).subset_of(paths_of(self.seen@)) && self.member(z) by {
                if old(self).answers@.dom().contains(z) {
                    assert(old(self).answers@[z] == self.answers@[z]);
                } else {
                    assert(self.answers@[z] =~= Set::<Seq<char>>::empty());
                    assert(old(self).asked() == Some(z));
                    assert(old(self).member(z));
                }
            }
            assert(answers_grow(old(self).answers@, self.answers@));
            assert forall|y: Seq<char>| paths_of(self.seen@).contains(y) implies exists|z: Seq<char>|
                self.answers@.dom().contains(z) && #[trigger] self.answers@[z].contains(y) && self.reached(z) by {
                assert(paths_of(old(self).seen@).contains(y));
                let z = choose|z: Seq<char>| old(self).answers@.dom().contains(z) && old(self).answers@[z].contains(y)
                    && old(self).reached(z);
                let n = choose|n: nat| reach_in(old(self).root@, old(self).answers@, z, n);
                lemma_reach_grows(self.root@, old(self).answers@, self.answers@, z, n);
                assert(self.answers@[z] == old(self).answers@[z]);
            }
            assert forall|y: Seq<char>| paths_of(self.pending@).contains(y) implies self.member(y) by {
                assert(paths_of(before).contains(y));
                assert(old(self).member(y));
            }
            if before.len() > 0 {
                assert(old(self).member(before.last()@));
            }
        }
        r
    }

    /// Each item of `found` not yet found and not excluded is found and
    /// waits to be asked about
    fn absorb(&mut self, found: &Vec<String>)
        requires
            distinct_paths(old(self).seen@),
        ensures
            distinct_paths(final(self).seen@),
            final(self).excluded == old(self).excluded,
            final(self).asking == old(self).asking,
            final(self).root == old(self).root,
            final(self).answers == old(self).answers,
            paths_of(final(self).seen@) == paths_of(old(self).seen@).union(
                paths_of(found@).difference(paths_of(old(self).excluded@)),
            ),
            paths_of(final(self).pending@) == paths_of(old(self).pending@).union(
                paths_of(found@).difference(paths_of(old(self).excluded@)).difference(
                    paths_of(old(self).seen@),
                ),
            ),
    {
        let ghost seen0 = paths_of(self.seen@);
        let ghost pend0 = paths_of(self.pending@);
        let ghost excl = paths_of(self.excluded@);
        let mut i: usize = 0;
        while i < found.len()
            invariant
                i <= found@.len(),
                distinct_paths(self.seen@),
                excl == paths_of(self.excluded@),
                self.excluded == old(self).excluded,
                self.asking == old(self).asking,
                self.root == old(self).root,
                self.answers == old(self).answers,
                paths_of(self.seen@) == seen0.union(
                    paths_of(found@.subrange(0, i as int)).difference(excl),
                ),
                paths_of(self.pending@) == pend0.union(
                    paths_of(found@.subrange(0, i as int)).difference(excl).difference(seen0),
                ),
            decreases found@.len() - i,
        {
            let x = &found[i];
            let ghost a = found@.subrange(0, i as int);
            let ghost b = found@.subrange(0, i + 1);
            proof {
                assert(paths_of(b) =~= paths_of(a).insert(x@)) by {
                    assert forall|y: Seq<char>| paths_of(b).contains(y) implies paths_of(a).insert(x@).contains(y) by {
                        let j = choose|j: int| 0 <= j < b.len() && b[j]@ == y;
                        if j < i {
                            assert(a[j] == b[j]);
                        }
                    }
                    assert forall|y: Seq<char>| paths_of(a).insert(x@).contains(y) implies paths_of(b).contains(y) by {
                        if y == x@ {
                            assert(b[i as int]@ == y);
                        } else {
                            let j = choose|j: int| 0 <= j < a.len() && a[j]@ == y;
                            assert(b[j] == a[j]);
                        }
                    }
                }
            }
            if !crate::pathstr::holds_path(&self.excluded, x) && !crate::pathstr::holds_path(&self.seen, x) {
                let ghost p_before = self.pending@;
                assert(!seen0.contains(x@));
                add_path(&mut self.seen, x.clone());
                self.pending.push(x.clone());
                proof {
                    assert(self.pending@.drop_last() =~= p_before);
                    assert(paths_of(self.pending@) =~= paths_of(self.pending@.drop_last()).insert(x@)) by {
                        assert forall|y: Seq<char>| paths_of(self.pending@).contains(y) implies paths_of(self.pending@.drop_last()).insert(x@).contains(y) by {
                            let j = choose|j: int| 0 <= j < self.pending@.len() && self.pending@[j]@ == y;
                            if j < self.pending@.len() - 1 {
                                assert(self.pending@.drop_last()[j] == self.pending@[j]);
                            }
                        }
                        assert forall|y: Seq<char>| paths_of(self.pending@.drop_last()).insert(x@).contains(y) implies paths_of(self.pending@).contains(y) by {
                            if y == x@ {
                                assert(self.pending@[self.pending@.len() - 1]@ == y);
                            } else {
                                let j = choose|j: int| 0 <= j < self.pending@.drop_last().len() && self.pending@.drop_last()[j]@ == y;
                                assert(self.pending@[j] == self.pending@.drop_last()[j]);
                            }
                        }
                    }
                    assert(paths_of(self.seen@) =~= seen0.union(paths_of(b).difference(excl)));
                    assert(paths_of(self.pending@) =~= pend0.union(paths_of(b).difference(excl).difference(seen0)));
                }
            } else {
                proof {
                    if !excl.contains(x@) {
                        assert(paths_of(self.seen@).contains(x@));
                        if !seen0.contains(x@) {
                            assert(paths_of(a).contains(x@));
                        }
                    }
                    assert(paths_of(b).difference(excl).difference(seen0) =~= paths_of(a).difference(excl).difference(seen0));
                    assert(paths_of(self.seen@) =~= seen0.union(paths_of(b).difference(excl)));
                    assert(paths_of(self.pending@) =~= pend0.union(paths_of(b).difference(excl).difference(seen0)));
                }
            }
            i = i + 1;
        }
        assert(found@.subrange(0, found@.len() as int) =~= found@);
    }

    /// Takes the answer to the item being asked about: each item of it not
    /// yet found and not excluded is found and waits to be asked about. An
    /// answer when nothing is being asked about changes nothing.
    pub fn feed(&mut self, found: &Vec<String>)
        requires
            old(self).wf(),
        ensures
            final(self).wf(),
            final(self).excluded == old(self).excluded,
            final(self).root == old(self).root,
            old(self).asking is None ==> *final(self) == *old(self),
            old(self).asking is Some ==> final(self).asking is None,
            old(self).asking is Some ==> paths_of(final(self).seen@) == paths_of(old(self).seen@).union(
                paths_of(found@).difference(paths_of(old(self).excluded@)),
            ),
            old(self).asking is Some ==> paths_of(final(self).pending@) == paths_of(old(self).pending@).union(
                paths_of(found@).difference(paths_of(old(self).excluded@)).difference(
                    paths_of(old(self).seen@),
                ),
            ),
            old(self).asking is Some ==> final(self).answers@.dom().contains(old(self).asked()->0)
                && paths_of(found@).subset_of(final(self).answers@[old(self).asked()->0]),
    {
        if self.asking.is_none() {
            return;
        }
        let ghost x = self.asked()->0;
        let ghost prev = if self.answers@.dom().contains(x) { self.answers@[x] } else { Set::empty() };
        let ghost old_seen = paths_of(self.seen@);
        let ghost old_pending = paths_of(self.pending@);
        let ghost old_answers = self.answers@;
        let ghost excl = paths_of(self.excluded@);
        assert(self.member(x));
        proof {
            self.lemma_member_reached(x);
        }
        let ghost nx = choose|n: nat| reach_in(self.root@, self.answers@, x, n);
        self.absorb(found);
        self.asking = None;
        proof {
            self.answers@ = old_answers.insert(x, prev.union(paths_of(found@)));
            let seen = paths_of(self.seen@);
            assert forall|y: Seq<char>| self.member(y) implies paths_of(self.pending@).contains(y)
                || self.answers@.dom().contains(y) || self.asked() == Some(y) by {
                if !old_seen.contains(y) && self.root@ != Some(y) {
                    assert(paths_of(self.pending@).contains(y));
                } else if y != x {
                    assert(old(self).member(y));
                    if old_pending.contains(y) {
                        assert(paths_of(self.pending@).contains(y));
                    } else {
                        assert(old_answers.dom().contains(y));
                    }
                }
            }
            assert forall|z: Seq<char>| self.answers@.dom().contains(z) implies self.answers@[z].difference(
                excl,
            ).subset_of(seen) && self.member(z) by {
                if z != x {
                    assert(old_answers.dom().contains(z));
                    assert(old_answers[z].difference(excl).subset_of(old_seen));
                }
            }
            assert(answers_grow(old_answers, self.answers@));
            lemma_reach_grows(self.root@, old_answers, self.answers@, x, nx);
            assert(self.reached(x));
            assert forall|y: Seq<char>| seen.contains(y) implies exists|z: Seq<char>|
                self.answers@.dom().contains(z) && #[trigger] self.answers@[z].contains(y) && self.reached(z) by {
                if old_seen.contains(y) {
                    let z = choose|z: Seq<char>| old_answers.dom().contains(z) && old_answers[z].contains(y)
                        && old(self).reached(z);
                    let n = choose|n: nat| reach_in(self.root@, old_answers, z, n);
                    lemma_reach_grows(self.root@, old_answers, self.answers@, z, n);
                    if z == x {
                        assert(self.answers@[x].contains(y));
                    } else {
                        assert(self.answers@[z].contains(y));
                    }
                } else {
                    assert(paths_of(found@).contains(y));
                    assert(self.answers@[x].contains(y));
                }
            }
            assert forall|y: Seq<char>| paths_of(self.pending@).contains(y) implies self.member(y) by {
                if !old_pending.contains(y) {
                    assert(seen.contains(y));
                }
            }
        }
    }

    /// Everything found so far; closed once nothing waits and nothing is
    /// being asked about, and then, where nothing is excluded, exactly what
    /// the answers of the items reached from the root name
    pub fn found(&self) -> (r: Vec<String>)
        requires
            self.wf(),
        ensures
            r@ == self.seen@,
            self.pending@.len() == 0 && self.asking is None ==> self.closed(),
            self.pending@.len() == 0 && self.asking is None && self.excluded@.len() == 0
                ==> paths_of(r@) == self.closure(),
    {
        proof {
            if self.pending@.len() == 0 && self.asking is None {
                self.lemma_done_is_closed();
                if self.excluded@.len() == 0 {
                    self.lemma_done_is_closure();
                }
            }
        }
        self.seen.clone()
    }
}

} // verus!
