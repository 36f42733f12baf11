use vstd::prelude::*;
use crate::error::ServeError;

verus! {

/// `p` has a segment that is exactly `..`: two dots with a `/` or an end of
/// the text on each side.
pub open spec fn has_parent_segment(p: Seq<char>) -> bool {
    exists|k: int| parent_segment_at(p, k)
}

pub open spec fn parent_segment_at(p: Seq<char>, k: int) -> bool {
    &&& 0 <= k
    &&& k + 2 <= p.len()
    &&& p[k] == '.'
    &&& p[k + 1] == '.'
    &&& (k == 0 || p[k - 1] == '/')
    &&& (k + 2 == p.len() || p[k + 2] == '/')
}

/// Whether a request path tries to climb out of its directory through a `..`
/// segment.
pub fn contains_parent_segment(path: &str) -> (r: bool)
    ensures
        r == has_parent_segment(path@),
{
    let n = path.unicode_len();
    if n < 2 {
        assert(!has_parent_segment(path@)) by {
            if has_parent_segment(path@) {
                let k = choose|k: int| parent_segment_at(path@, k);
            }
        }
        return false;
    }
    let mut k: usize = 0;
    while k < n - 1
        invariant
            n == path@.len(),
            n >= 2,
            k <= n - 1,
            forall|j: int| 0 <= j < k ==> !parent_segment_at(path@, j),
        decreases n - k,
    {
        if path.get_char(k) == '.' && path.get_char(k + 1) == '.' && (k == 0 || path.get_char(
            k - 1,
        ) == '/') && (k + 2 == n || path.get_char(k + 2) == '/') {
            assert(parent_segment_at(path@, k as int));
            return true;
        }
        k = k + 1;
    }
    assert(!has_parent_segment(path@)) by {
        if has_parent_segment(path@) {
            let j = choose|j: int| parent_segment_at(path@, j);
            assert(j < k);
        }
    }
    false
}

/// The file-system path that a request path names under `root`, rejected
/// when it holds a `..` segment. Nothing is looked up on disk: whether the
/// path exists is for the caller to find out afterwards.
pub fn resolve_under_root(root: &str, path: &str) -> (r: Result<String, ServeError>)
    ensures
        r is Err <==> has_parent_segment(path@),
        r matches Err(e) ==> e == ServeError::PathTraversalRejected,
        r matches Ok(full) ==> full@ == root@ + seq!['/'] + path@,
{
    if contains_parent_segment(path) {
        return Err(ServeError::PathTraversalRejected);
    }
    let mut full = root.to_owned();
    full.append("/");
    full.append(path);
    proof {
        reveal_strlit("/");
    }
    assert(full@ =~= root@ + seq!['/'] + path@);
    Ok(full)
}

} // verus!
