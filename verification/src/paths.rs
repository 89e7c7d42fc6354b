//! Paths of the files of a project: relative, `/`-separated, with no empty,
//! `.` or trailing component, as a project's file tree lists them.

use vstd::prelude::*;
use crate::text::{push_range, string_of, chars_of};

verus! {

/// `k` is the position of the last `/` of `p`.
pub open spec fn is_last_slash(p: Seq<char>, k: int) -> bool {
    &&& 0 <= k < p.len()
    &&& p[k] == '/'
    &&& forall|j: int| k < j < p.len() ==> p[j] != '/'
}

/// The folder that holds `path` (what `PathBuf::pop` leaves): everything
/// before the last `/`, or the empty path when there is none.
pub open spec fn parent_folder(path: Seq<char>) -> Seq<char> {
    if exists|k: int| is_last_slash(path, k) {
        let k = choose|k: int| is_last_slash(path, k);
        path.subrange(0, k)
    } else {
        Seq::empty()
    }
}

/// The last component of `path` (its file name).
pub open spec fn file_name(path: Seq<char>) -> Seq<char> {
    if exists|k: int| is_last_slash(path, k) {
        let k = choose|k: int| is_last_slash(path, k);
        path.subrange(k + 1, path.len() as int)
    } else {
        path
    }
}

proof fn lemma_last_slash_unique(p: Seq<char>, k: int, k2: int)
    requires
        is_last_slash(p, k),
        is_last_slash(p, k2),
    ensures
        k == k2,
{
    if k < k2 {
        assert(p[k2] != '/');
    } else if k2 < k {
        assert(p[k] != '/');
    }
}

/// The position of the last `/` of `p`.
fn last_slash(p: &[char]) -> (r: Option<usize>)
    ensures
        match r {
            Some(k) => is_last_slash(p@, k as int),
            None => forall|k: int| !is_last_slash(p@, k),
        },
{
    let mut i: usize = p.len();
    while i > 0
        invariant
            i <= p.len(),
            forall|j: int| i <= j < p.len() ==> p@[j] != '/',
        decreases i,
    {
        i = i - 1;
        if p[i] == '/' {
            return Some(i);
        }
    }
    proof {
        assert forall|k: int| !is_last_slash(p@, k) by {
            if is_last_slash(p@, k) {
                assert(p@[k] == '/');
            }
        }
    }
    None
}

/// The folder that holds `path`.
pub fn parent_folder_exec(path: &str) -> (r: String)
    ensures
        r@ == parent_folder(path@),
{
    let p = chars_of(path);
    match last_slash(p.as_slice()) {
        Some(k) => {
            proof {
                let k2 = choose|k2: int| is_last_slash(path@, k2);
                lemma_last_slash_unique(path@, k as int, k2);
            }
            let mut out: Vec<char> = Vec::new();
            push_range(&mut out, p.as_slice(), 0, k);
            string_of(out.as_slice())
        },
        None => String::new(),
    }
}

/// The last component of `path`.
pub fn file_name_exec(path: &str) -> (r: String)
    ensures
        r@ == file_name(path@),
{
    let p = chars_of(path);
    match last_slash(p.as_slice()) {
        Some(k) => {
            proof {
                let k2 = choose|k2: int| is_last_slash(path@, k2);
                lemma_last_slash_unique(path@, k as int, k2);
            }
            let mut out: Vec<char> = Vec::new();
            let n = p.len();
            push_range(&mut out, p.as_slice(), k + 1, n);
            string_of(out.as_slice())
        },
        None => path.to_owned(),
    }
}

/// `path` lies in `folder`, component by component (`Path::starts_with`):
/// every path lies in the empty folder.
pub open spec fn is_within_folder(path: Seq<char>, folder: Seq<char>) -> bool {
    ||| folder.len() == 0
    ||| path == folder
    ||| (folder.len() < path.len() && path.subrange(0, folder.len() as int) == folder
        && path[folder.len() as int] == '/')
}

pub fn is_within_folder_exec(path: &str, folder: &str) -> (b: bool)
    ensures
        b == is_within_folder(path@, folder@),
{
    let p = chars_of(path);
    let f = chars_of(folder);
    if f.len() == 0 {
        return true;
    }
    if f.len() > p.len() {
        assert(path@ != folder@);
        return false;
    }
    let mut k: usize = 0;
    while k < f.len()
        invariant
            k <= f.len() <= p.len(),
            p@ == path@,
            f@ == folder@,
            forall|j: int| 0 <= j < k ==> p@[j] == f@[j],
        decreases f.len() - k,
    {
        if p[k] != f[k] {
            assert(path@.subrange(0, folder@.len() as int)[k as int] != folder@[k as int]);
            assert(path@ != folder@);
            return false;
        }
        k = k + 1;
    }
    assert(p@.subrange(0, f@.len() as int) =~= f@);
    if p.len() == f.len() {
        assert(p@ =~= f@);
        true
    } else {
        p[f.len()] == '/'
    }
}

} // verus!
