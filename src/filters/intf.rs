use crate::pathstr::{distinct_paths, paths_of};
use vstd::prelude::*;

verus! {

/// A classifier that removes paths from a candidate set.
pub trait DataFilter {
    /// The filter removes the path `p`.
    spec fn removes(&self, p: Seq<char>) -> bool;

    /// Decides one path.
    fn drops(&self, p: &String) -> (r: bool)
        ensures
            r == self.removes(p@),
    ;
}

/// Keeps in `data` the paths that `f` does not remove, in their order.
pub fn retain_kept<F: DataFilter>(f: &F, data: &mut Vec<String>)
    ensures
        paths_of(final(data)@) == paths_of(old(data)@).filter(|p: Seq<char>| !f.removes(p)),
        distinct_paths(old(data)@) ==> distinct_paths(final(data)@),
{
    let mut out: Vec<String> = Vec::new();
    let ghost mut origin: Seq<int> = Seq::empty();
    let mut i: usize = 0;
    while i < data.len()
        invariant
            i <= data@.len(),
            data@ == old(data)@,
            origin.len() == out@.len(),
            forall|k: int|
                0 <= k < out@.len() ==> 0 <= #[trigger] origin[k] < i && out@[k]@ == data@[origin[k]]@
                    && !f.removes(data@[origin[k]]@),
            forall|a: int, b: int| 0 <= a < b < out@.len() ==> origin[a] < origin[b],
            forall|j: int|
                0 <= j < i && !f.removes((#[trigger] data@[j])@) ==> paths_of(out@).contains(
                    data@[j]@,
                ),
        decreases data@.len() - i,
    {
        if !f.drops(&data[i]) {
            let ghost before = out@;
            out.push(data[i].clone());
            proof {
                origin = origin.push(i as int);
                assert forall|j: int|
                    0 <= j < i + 1 && !f.removes((#[trigger] data@[j])@) implies paths_of(
                    out@,
                ).contains(data@[j]@) by {
                    if j < i {
                        let k = choose|k: int| 0 <= k < before.len() && before[k]@ == data@[j]@;
                        assert(out@[k] == before[k]);
                    } else {
                        assert(out@[before.len() as int]@ == data@[j]@);
                    }
                }
            }
        }
        i = i + 1;
    }
    proof {
        assert(paths_of(out@) =~= paths_of(data@).filter(|p: Seq<char>| !f.removes(p))) by {
            assert forall|x: Seq<char>| paths_of(out@).contains(x) implies paths_of(data@).filter(
                |p: Seq<char>| !f.removes(p),
            ).contains(x) by {
                let k = choose|k: int| 0 <= k < out@.len() && out@[k]@ == x;
                let j = origin[k];
                assert(0 <= j < data@.len() && data@[j]@ == x);
                assert(paths_of(data@).contains(x));
            }
        }
        if distinct_paths(data@) {
            assert forall|a: int, b: int|
                0 <= a < out@.len() && 0 <= b < out@.len() && a != b implies out@[a]@ != out@[b]@ by {
                let (ja, jb) = (origin[a], origin[b]);
                if a < b {
                    assert(ja < jb);
                } else {
                    assert(jb < ja);
                }
                assert(data@[ja]@ != data@[jb]@);
            }
        }
    }
    *data = out;
}

} // verus!

verus! {

/// Removes the paths of an explicit list.
pub struct PathList {
    pub data: Vec<String>,
}

impl DataFilter for PathList {
    open spec fn removes(&self, p: Seq<char>) -> bool {
        paths_of(self.data@).contains(p)
    }

    fn drops(&self, p: &String) -> (r: bool) {
        crate::pathstr::holds_path(&self.data, p)
    }
}

} // verus!
