//! Paths as character sequences: prefixes, suffixes, base names, parents and
//! path sets held in vectors.
use vstd::prelude::*;
use vstd::string::*;

verus! {

/// `p` is a prefix of `s`.
pub open spec fn is_prefix(p: Seq<char>, s: Seq<char>) -> bool {
    p.len() <= s.len() && s.subrange(0, p.len() as int) == p
}

/// `p` is a suffix of `s`.
pub open spec fn is_suffix(p: Seq<char>, s: Seq<char>) -> bool {
    p.len() <= s.len() && s.subrange(s.len() - p.len(), s.len() as int) == p
}

/// `t` occurs in `s` at position `i`.
pub open spec fn occurs_at(s: Seq<char>, t: Seq<char>, i: int) -> bool {
    0 <= i && i + t.len() <= s.len() && s.subrange(i, i + t.len()) == t
}

/// `t` occurs somewhere in `s`.
pub open spec fn contains_seq(s: Seq<char>, t: Seq<char>) -> bool {
    exists|i: int| occurs_at(s, t, i)
}

/// Index of the last `/` in `s`, or -1 when there is none.
pub open spec fn last_slash(s: Seq<char>) -> int
    decreases s.len(),
{
    if s.len() == 0 {
        -1
    } else if s.last() == '/' {
        s.len() - 1
    } else {
        last_slash(s.drop_last())
    }
}

/// The last component of a path.
pub open spec fn base_name(s: Seq<char>) -> Seq<char> {
    s.subrange(last_slash(s) + 1, s.len() as int)
}

/// The directory that holds a path: `/` for a top-level entry, empty for a
/// path without any `/`.
pub open spec fn parent_dir(s: Seq<char>) -> Seq<char> {
    if last_slash(s) > 0 {
        s.subrange(0, last_slash(s))
    } else if last_slash(s) == 0 {
        seq!['/']
    } else {
        Seq::empty()
    }
}

/// `t` appended to the directory `d` with a single separator.
pub open spec fn join_path(d: Seq<char>, t: Seq<char>) -> Seq<char> {
    if d.len() > 0 && d.last() == '/' {
        d + t
    } else {
        d + seq!['/'] + t
    }
}

/// Where a symbolic link at `link` with the stored target `t` points: an
/// absolute target as it is, a relative one against the link's directory.
pub open spec fn link_destination(link: Seq<char>, t: Seq<char>) -> Seq<char> {
    if t.len() > 0 && t[0] == '/' {
        t
    } else {
        join_path(parent_dir(link), t)
    }
}

/// `p` is the directory `d` itself or lies below it.
pub open spec fn is_under(p: Seq<char>, d: Seq<char>) -> bool {
    p == d || is_prefix(d + seq!['/'], p)
}

/// The set of paths held by a vector.
pub open spec fn paths_of(v: Seq<String>) -> Set<Seq<char>> {
    Set::new(|s: Seq<char>| exists|i: int| 0 <= i < v.len() && v[i]@ == s)
}

/// No two entries of `v` hold the same text.
pub open spec fn distinct_paths(v: Seq<String>) -> bool {
    forall|i: int, j: int| 0 <= i < v.len() && 0 <= j < v.len() && i != j ==> v[i]@ != v[j]@
}

/// The characters of a string slice.
pub fn chars_of(s: &str) -> (r: Vec<char>)
    ensures
        r@ == s@,
{
    let mut r: Vec<char> = Vec::new();
    for c in it: s.chars()
        invariant
            r@ == it.seq().subrange(0, it.index() as int),
    {
        r.push(c);
    }
    r
}

/// `t` occurs in `s` at `i` (executable form over character vectors).
fn occurs_at_exec(s: &Vec<char>, t: &Vec<char>, i: usize) -> (r: bool)
    requires
        i + t@.len() <= s@.len(),
    ensures
        r == occurs_at(s@, t@, i as int),
{
    let mut k: usize = 0;
    let sl = s.len();
    while k < t.len()
        invariant
            k <= t@.len(),
            i + t@.len() <= s@.len(),
            sl == s@.len(),
            forall|j: int| 0 <= j < k ==> s@[i + j] == t@[j],
        decreases t@.len() - k,
    {
        if s[i + k] != t[k] {
            assert(s@.subrange(i as int, i + t@.len())[k as int] != t@[k as int]);
            return false;
        }
        k = k + 1;
    }
    assert(s@.subrange(i as int, i + t@.len()) =~= t@);
    true
}

/// `s` begins with `p`.
pub fn starts_with(s: &str, p: &str) -> (r: bool)
    ensures
        r == is_prefix(p@, s@),
{
    let sc = chars_of(s);
    let pc = chars_of(p);
    if pc.len() > sc.len() {
        return false;
    }
    occurs_at_exec(&sc, &pc, 0)
}

/// `s` ends with `p`.
pub fn ends_with(s: &str, p: &str) -> (r: bool)
    ensures
        r == is_suffix(p@, s@),
{
    let sc = chars_of(s);
    let pc = chars_of(p);
    if pc.len() > sc.len() {
        return false;
    }
    occurs_at_exec(&sc, &pc, sc.len() - pc.len())
}

/// `t` occurs in `s`.
pub fn contains_str(s: &str, t: &str) -> (r: bool)
    ensures
        r == contains_seq(s@, t@),
{
    let sc = chars_of(s);
    let tc = chars_of(t);
    if tc.len() > sc.len() {
        assert forall|i: int| !occurs_at(s@, t@, i) by {}
        return false;
    }
    let mut i: usize = 0;
    let last: usize = sc.len() - tc.len();
    while i < last
        invariant
            last == sc@.len() - tc@.len(),
            tc@.len() <= sc@.len(),
            sc@ == s@,
            tc@ == t@,
            i <= last,
            forall|j: int| 0 <= j < i ==> !occurs_at(s@, t@, j),
        decreases sc@.len() + 1 - i,
    {
        if occurs_at_exec(&sc, &tc, i) {
            return true;
        }
        i = i + 1;
    }
    if occurs_at_exec(&sc, &tc, last) {
        return true;
    }
    assert forall|j: int| !occurs_at(s@, t@, j) by {
        if 0 <= j && j + t@.len() <= s@.len() && j != last {
            assert(j < i);
        }
    }
    false
}

proof fn lemma_last_slash_bounds(s: Seq<char>)
    ensures
        -1 <= last_slash(s) < s.len(),
        last_slash(s) >= 0 ==> s[last_slash(s)] == '/',
        forall|k: int| last_slash(s) < k < s.len() ==> s[k] != '/',
    decreases s.len(),
{
    if s.len() > 0 && s.last() != '/' {
        lemma_last_slash_bounds(s.drop_last());
        assert forall|k: int| last_slash(s) < k < s.len() implies s[k] != '/' by {
            if k < s.len() - 1 {
                assert(s[k] == s.drop_last()[k]);
            }
        }
    }
}

/// Index of the last `/` in the characters, as `last_slash` says.
fn last_slash_exec(c: &Vec<char>) -> (r: Option<usize>)
    ensures
        match r {
            Some(i) => i as int == last_slash(c@),
            None => last_slash(c@) == -1,
        },
{
    let mut n: usize = c.len();
    assert(c@.subrange(0, n as int) =~= c@);
    while n > 0
        invariant
            n <= c@.len(),
            last_slash(c@) == last_slash(c@.subrange(0, n as int)),
        decreases n,
    {
        assert(c@.subrange(0, n as int).drop_last() =~= c@.subrange(0, n - 1));
        if c[n - 1] == '/' {
            return Some(n - 1);
        }
        n = n - 1;
    }
    None
}

/// The last component of a path.
pub fn base_name_of(s: &str) -> (r: String)
    ensures
        r@ == base_name(s@),
{
    let c = chars_of(s);
    proof {
        lemma_last_slash_bounds(s@);
    }
    let n = s.unicode_len();
    match last_slash_exec(&c) {
        Some(i) => s.substring_char(i + 1, n).to_owned(),
        None => s.substring_char(0, n).to_owned(),
    }
}

/// The directory that holds a path.
pub fn parent_dir_of(s: &str) -> (r: String)
    ensures
        r@ == parent_dir(s@),
{
    let c = chars_of(s);
    proof {
        lemma_last_slash_bounds(s@);
    }
    match last_slash_exec(&c) {
        Some(i) => {
            if i > 0 {
                s.substring_char(0, i).to_owned()
            } else {
                let r = "/".to_owned();
                proof {
                    reveal_strlit("/");
                }
                assert(r@ =~= seq!['/']);
                r
            }
        },
        None => String::new(),
    }
}

/// Two texts joined.
pub fn concat(a: &str, b: &str) -> (r: String)
    ensures
        r@ == a@ + b@,
{
    let mut s = a.to_owned();
    s.append(b);
    s
}

/// `t` appended to the directory `d` with a single separator.
pub fn join_path_of(d: &str, t: &str) -> (r: String)
    ensures
        r@ == join_path(d@, t@),
{
    let c = chars_of(d);
    if c.len() > 0 && c[c.len() - 1] == '/' {
        concat(d, t)
    } else {
        let mut s = d.to_owned();
        s.append("/");
        s.append(t);
        proof {
            reveal_strlit("/");
        }
        s
    }
}

/// Where a symbolic link points, given the link's path and stored target.
pub fn link_destination_of(link: &str, t: &str) -> (r: String)
    ensures
        r@ == link_destination(link@, t@),
{
    let c = chars_of(t);
    if c.len() > 0 && c[0] == '/' {
        t.to_owned()
    } else {
        let d = parent_dir_of(link);
        join_path_of(d.as_str(), t)
    }
}

/// `p` is the directory `d` or lies below it.
pub fn is_under_of(p: &str, d: &str) -> (r: bool)
    ensures
        r == is_under(p@, d@),
{
    let pc = chars_of(p);
    let dc = chars_of(d);
    let mut same = pc.len() == dc.len();
    if same {
        same = occurs_at_exec(&pc, &dc, 0);
        assert(p@.subrange(0, d@.len() as int) =~= p@);
    } else {
        assert(p@ != d@);
    }
    if same {
        return true;
    }
    let ds = concat(d, "/");
    proof {
        reveal_strlit("/");
    }
    assert(ds@ =~= d@ + seq!['/']);
    starts_with(p, ds.as_str())
}

/// The path `s` is held by `v`.
pub fn holds_path(v: &Vec<String>, s: &String) -> (r: bool)
    ensures
        r == paths_of(v@).contains(s@),
{
    let mut i: usize = 0;
    while i < v.len()
        invariant
            i <= v@.len(),
            forall|j: int| 0 <= j < i ==> v@[j]@ != s@,
        decreases v@.len() - i,
    {
        if v[i] == *s {
            return true;
        }
        i = i + 1;
    }
    false
}

/// Adds `s` to `v` unless it is there already.
pub fn add_path(v: &mut Vec<String>, s: String)
    ensures
        paths_of(final(v)@) == paths_of(old(v)@).insert(s@),
        distinct_paths(old(v)@) ==> distinct_paths(final(v)@),
{
    if !holds_path(v, &s) {
        v.push(s);
    }
    assert(paths_of(final(v)@) =~= paths_of(old(v)@).insert(s@)) by {
        assert forall|x: Seq<char>| paths_of(final(v)@).contains(x) implies paths_of(
            old(v)@,
        ).insert(s@).contains(x) by {
            let i = choose|i: int| 0 <= i < final(v)@.len() && final(v)@[i]@ == x;
            if i < old(v)@.len() {
                assert(paths_of(old(v)@).contains(x));
            }
        }
        assert forall|x: Seq<char>| paths_of(old(v)@).insert(s@).contains(x) implies paths_of(
            final(v)@,
        ).contains(x) by {
            if x == s@ && !paths_of(old(v)@).contains(x) {
                assert(final(v)@[old(v)@.len() as int]@ == x);
            } else {
                let i = choose|i: int| 0 <= i < old(v)@.len() && old(v)@[i]@ == x;
                assert(final(v)@[i]@ == x);
            }
        }
    }
}

/// Adds every path of `w` to `v`.
pub fn add_paths(v: &mut Vec<String>, w: &Vec<String>)
    ensures
        paths_of(final(v)@) == paths_of(old(v)@).union(paths_of(w@)),
        distinct_paths(old(v)@) ==> distinct_paths(final(v)@),
{
    let mut i: usize = 0;
    while i < w.len()
        invariant
            i <= w@.len(),
            paths_of(old(v)@).subset_of(paths_of(v@)),
            forall|j: int| 0 <= j < i ==> paths_of(v@).contains(#[trigger] w@[j]@),
            forall|x: Seq<char>|
                paths_of(v@).contains(x) ==> paths_of(old(v)@).contains(x) || paths_of(
                    w@,
                ).contains(x),
            distinct_paths(old(v)@) ==> distinct_paths(v@),
        decreases w@.len() - i,
    {
        add_path(v, w[i].clone());
        i = i + 1;
    }
    assert(paths_of(v@) =~= paths_of(old(v)@).union(paths_of(w@)));
}

/// The texts of a vector of strings.
pub open spec fn texts(v: Seq<String>) -> Seq<Seq<char>> {
    v.map_values(|x: String| x@)
}

/// Index of the first `c` in `s`, or -1 when there is none.
pub open spec fn first_index(s: Seq<char>, c: char) -> int
    decreases s.len(),
{
    if s.len() == 0 {
        -1
    } else if s[0] == c {
        0
    } else if first_index(s.drop_first(), c) < 0 {
        -1
    } else {
        first_index(s.drop_first(), c) + 1
    }
}

/// Index of the first occurrence of `t` in `s`, where there is one.
pub open spec fn first_occurrence(s: Seq<char>, t: Seq<char>) -> int {
    choose|i: int| occurs_at(s, t, i) && forall|j: int| 0 <= j < i ==> !occurs_at(s, t, j)
}

pub proof fn lemma_first_index(s: Seq<char>, c: char)
    ensures
        -1 <= first_index(s, c) < s.len(),
        first_index(s, c) >= 0 ==> s[first_index(s, c)] == c,
        forall|k: int| 0 <= k < s.len() && (first_index(s, c) < 0 || k < first_index(s, c)) ==> s[k] != c,
    decreases s.len(),
{
    if s.len() > 0 && s[0] != c {
        lemma_first_index(s.drop_first(), c);
        assert forall|k: int| 0 <= k < s.len() && (first_index(s, c) < 0 || k < first_index(s, c)) implies s[k] != c by {
            if k > 0 {
                assert(s[k] == s.drop_first()[k - 1]);
            }
        }
    }
}

/// Index of the first `c` in the characters, as `first_index` says.
pub fn first_index_of(s: &Vec<char>, c: char) -> (r: Option<usize>)
    ensures
        match r {
            Some(i) => i as int == first_index(s@, c),
            None => first_index(s@, c) == -1,
        },
{
    proof {
        lemma_first_index(s@, c);
    }
    let mut i: usize = 0;
    while i < s.len()
        invariant
            i <= s@.len(),
            forall|k: int| 0 <= k < i ==> s@[k] != c,
            -1 <= first_index(s@, c) < s@.len(),
            first_index(s@, c) >= 0 ==> s@[first_index(s@, c)] == c,
            forall|k: int| 0 <= k < s@.len() && (first_index(s@, c) < 0 || k < first_index(s@, c)) ==> s@[k] != c,
        decreases s@.len() - i,
    {
        if s[i] == c {
            return Some(i);
        }
        i = i + 1;
    }
    None
}

/// Index of the first occurrence of `t` in `s`, where there is one.
pub fn find_str(s: &str, t: &str) -> (r: Option<usize>)
    ensures
        match r {
            Some(i) => i as int == first_occurrence(s@, t@) && occurs_at(s@, t@, i as int),
            None => !contains_seq(s@, t@),
        },
{
    let sc = chars_of(s);
    let tc = chars_of(t);
    if tc.len() > sc.len() {
        assert forall|i: int| !occurs_at(s@, t@, i) by {}
        return None;
    }
    let last: usize = sc.len() - tc.len();
    let mut i: usize = 0;
    while i <= last
        invariant
            last == sc@.len() - tc@.len(),
            sc@ == s@,
            tc@ == t@,
            forall|j: int| 0 <= j < i ==> !occurs_at(s@, t@, j),
        decreases last + 1 - i,
    {
        if occurs_at_exec(&sc, &tc, i) {
            assert(occurs_at(s@, t@, i as int) && forall|j: int| 0 <= j < i ==> !occurs_at(s@, t@, j));
            proof {
                let w = first_occurrence(s@, t@);
                if w < i {
                    assert(!occurs_at(s@, t@, w));
                }
                if w > i {
                    assert(!occurs_at(s@, t@, i as int));
                }
            }
            return Some(i);
        }
        if i == last {
            assert forall|j: int| !occurs_at(s@, t@, j) by {
                if 0 <= j && j + t@.len() <= s@.len() {
                    assert(j <= i);
                }
            }
            return None;
        }
        i = i + 1;
    }
    None
}

/// The pieces of `s` between the occurrences of `sep`, in order.
pub open spec fn split_spec(s: Seq<char>, sep: char) -> Seq<Seq<char>>
    decreases s.len(),
{
    let i = first_index(s, sep);
    if i < 0 || i >= s.len() {
        seq![s]
    } else {
        seq![s.subrange(0, i)] + split_spec(s.subrange(i + 1, s.len() as int), sep)
    }
}

/// Splits `s` at every `sep`.
pub fn split_on(s: &str, sep: char) -> (r: Vec<String>)
    ensures
        texts(r@) == split_spec(s@, sep),
        r@.len() >= 1,
{
    let mut r: Vec<String> = Vec::new();
    let mut rest: String = s.to_owned();
    loop
        invariant
            texts(r@) + split_spec(rest@, sep) == split_spec(s@, sep),
        decreases rest@.len(),
    {
        let c = chars_of(rest.as_str());
        proof {
            lemma_first_index(rest@, sep);
        }
        match first_index_of(&c, sep) {
            None => {
                let ghost before = texts(r@);
                r.push(rest);
                assert(texts(r@) =~= before + split_spec(rest@, sep));
                assert(texts(r@).len() == r@.len());
                return r;
            },
            Some(i) => {
                let n = rest.unicode_len();
                let head = rest.as_str().substring_char(0, i).to_owned();
                let tail = rest.as_str().substring_char(i + 1, n).to_owned();
                let ghost before = texts(r@);
                let ghost old_rest = rest@;
                r.push(head);
                proof {
                    assert(texts(r@) =~= before.push(old_rest.subrange(0, i as int)));
                    assert(split_spec(old_rest, sep) == seq![old_rest.subrange(0, i as int)] + split_spec(tail@, sep));
                    assert(texts(r@) + split_spec(tail@, sep) =~= before + split_spec(old_rest, sep));
                }
                rest = tail;
            },
        }
    }
}

} // verus!
