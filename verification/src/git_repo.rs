//! The git repository of an npm package, read from what `npm repo` prints,
//! and the locked nodes of a flake lock that pin the same repository.

use vstd::prelude::*;
use crate::text::{matches_at, matches_at_exec, chars_of, string_of, push_range, str_eq, opt_view};

verus! {

/// The git host, owner and name of a repository.
#[derive(Debug, PartialEq, Eq)]
pub struct GitRepo {
    pub owner: String,
    pub repo: String,
    pub git_type: String,
}

/// A repository node of a flake lock, as it is locked.
#[derive(Debug, PartialEq, Eq)]
pub struct LockedRepo {
    pub node_type: String,
    pub owner: String,
    pub repo: String,
    pub rev: String,
}

pub open spec fn https_prefix() -> Seq<char> {
    seq!['h', 't', 't', 'p', 's', ':', '/', '/']
}

pub open spec fn github() -> Seq<char> {
    seq!['g', 'i', 't', 'h', 'u', 'b']
}

pub open spec fn gitlab() -> Seq<char> {
    seq!['g', 'i', 't', 'l', 'a', 'b']
}

pub open spec fn com_slash() -> Seq<char> {
    seq!['c', 'o', 'm', '/']
}

/// `https://(github|gitlab).com/(owner)/(repo)` at `p`, the owner ending at
/// the `/` at `o`, the repository at `r`: the end of the text or of the line
/// (the `.` before `com` is any character but a newline).
pub open spec fn repo_url_match(t: Seq<char>, p: int, o: int, r: int) -> bool {
    &&& matches_at(t, p, https_prefix())
    &&& (matches_at(t, p + 8, github()) || matches_at(t, p + 8, gitlab()))
    &&& p + 14 < t.len()
    &&& t[p + 14] != '\n'
    &&& matches_at(t, p + 15, com_slash())
    &&& p + 19 < o < t.len()
    &&& t[o] == '/'
    &&& forall|k: int| p + 19 <= k < o ==> #[trigger] t[k] != '/'
    &&& o + 1 < r <= t.len()
    &&& (r == t.len() || t[r] == '\n')
    &&& forall|k: int| o + 1 <= k < r ==> #[trigger] t[k] != '\n'
}

/// The leftmost such match.
pub open spec fn is_repo_url(t: Seq<char>, p: int, o: int, r: int) -> bool {
    &&& repo_url_match(t, p, o, r)
    &&& forall|p2: int, o2: int, r2: int| #[trigger] repo_url_match(t, p2, o2, r2) ==> p <= p2
}

pub proof fn lemma_repo_url_unique(t: Seq<char>, p: int, o: int, r: int, p2: int, o2: int, r2: int)
    requires
        is_repo_url(t, p, o, r),
        is_repo_url(t, p2, o2, r2),
    ensures
        p == p2 && o == o2 && r == r2,
{
    assert(p <= p2 && p2 <= p);
    if o < o2 {
        assert(t[o] != '/');
    } else if o2 < o {
        assert(t[o2] != '/');
    }
    if r < r2 {
        assert(t[r] != '\n');
    } else if r2 < r {
        assert(t[r2] != '\n');
    }
}

/// The repository that the output of `npm repo` names: its first
/// `https://github.com/...` or `https://gitlab.com/...` URL.
pub open spec fn repo_of_output(t: Seq<char>) -> Option<(Seq<char>, Seq<char>, Seq<char>)> {
    if exists|p: int, o: int, r: int| is_repo_url(t, p, o, r) {
        let (p, o, r) = choose|p: int, o: int, r: int| is_repo_url(t, p, o, r);
        Some((t.subrange(p + 8, p + 14), t.subrange(p + 19, o), t.subrange(o + 1, r)))
    } else {
        None
    }
}

/// The URL match at `p`, given that its fixed part matches there.
fn repo_url_at(t: &[char], p: usize) -> (res: Option<(usize, usize)>)
    requires
        p + 19 <= t.len(),
    ensures
        match res {
            Some((o, r)) => (forall|o2: int, r2: int| #[trigger] repo_url_match(t@, p as int, o2, r2) ==> o2 == o && r2 == r)
                && (matches_at(t@, p as int, https_prefix()) && (matches_at(t@, p + 8, github()) || matches_at(t@, p + 8, gitlab()))
                && t@[p + 14] != '\n' && matches_at(t@, p + 15, com_slash()) ==> repo_url_match(t@, p as int, o as int, r as int)),
            None => forall|o2: int, r2: int| !#[trigger] repo_url_match(t@, p as int, o2, r2),
        },
{
    let n = t.len();
    let mut o: usize = p + 19;
    while o < n && t[o] != '/'
        invariant
            n == t.len(),
            p + 19 <= o <= n,
            forall|k: int| p + 19 <= k < o ==> #[trigger] t@[k] != '/',
        decreases n - o,
    {
        o = o + 1;
    }
    if o == n || o == p + 19 {
        assert forall|o2: int, r2: int| !#[trigger] repo_url_match(t@, p as int, o2, r2) by {
            if repo_url_match(t@, p as int, o2, r2) {
                if o2 > o {
                    assert(t@[o as int] != '/');
                }
            }
        }
        return None;
    }
    let mut r: usize = o + 1;
    while r < n && t[r] != '\n'
        invariant
            n == t.len(),
            o + 1 <= r <= n,
            forall|k: int| o + 1 <= k < r ==> #[trigger] t@[k] != '\n',
        decreases n - r,
    {
        r = r + 1;
    }
    if r == o + 1 {
        assert forall|o2: int, r2: int| !#[trigger] repo_url_match(t@, p as int, o2, r2) by {
            if repo_url_match(t@, p as int, o2, r2) {
                if o2 > o {
                    assert(t@[o as int] != '/');
                } else if o2 < o {
                    assert(t@[o2] != '/');
                }
            }
        }
        return None;
    }
    assert forall|o2: int, r2: int| #[trigger] repo_url_match(t@, p as int, o2, r2) implies o2 == o && r2 == r by {
        if o2 > o {
            assert(t@[o as int] != '/');
        } else if o2 < o {
            assert(t@[o2] != '/');
        }
        if r2 > r {
            assert(t@[r as int] != '\n');
        } else if r2 < r {
            assert(t@[r2] != '\n');
        }
    }
    Some((o, r))
}

/// Reads the repository that the output of `npm repo` names.
pub fn parse_npm_repo_output(npm_repo_output: &str) -> (res: Option<GitRepo>)
    ensures
        match res {
            Some(g) => repo_of_output(npm_repo_output@) == Some((g.git_type@, g.owner@, g.repo@)),
            None => repo_of_output(npm_repo_output@) is None,
        },
{
    let t = chars_of(npm_repo_output);
    let https: Vec<char> = vec!['h', 't', 't', 'p', 's', ':', '/', '/'];
    let gh: Vec<char> = vec!['g', 'i', 't', 'h', 'u', 'b'];
    let gl: Vec<char> = vec!['g', 'i', 't', 'l', 'a', 'b'];
    let com: Vec<char> = vec!['c', 'o', 'm', '/'];
    assert(https@ =~= https_prefix());
    assert(gh@ =~= github());
    assert(gl@ =~= gitlab());
    assert(com@ =~= com_slash());
    let n = t.len();
    let mut p: usize = 0;
    while p < n
        invariant
            n == t@.len(),
            t@ == npm_repo_output@,
            https@ == https_prefix(),
            gh@ == github(),
            gl@ == gitlab(),
            com@ == com_slash(),
            forall|p2: int, o2: int, r2: int| #[trigger] repo_url_match(t@, p2, o2, r2) ==> p <= p2,
        decreases n - p,
    {
        if n - p >= 20 && matches_at_exec(t.as_slice(), p, https.as_slice())
            && (matches_at_exec(t.as_slice(), p + 8, gh.as_slice()) || matches_at_exec(t.as_slice(), p + 8, gl.as_slice()))
            && t[p + 14] != '\n' && matches_at_exec(t.as_slice(), p + 15, com.as_slice()) {
            match repo_url_at(t.as_slice(), p) {
                Some((o, r)) => {
                    assert(is_repo_url(t@, p as int, o as int, r as int));
                    proof {
                        let (p2, o2, r2) = choose|p2: int, o2: int, r2: int| is_repo_url(t@, p2, o2, r2);
                        lemma_repo_url_unique(t@, p as int, o as int, r as int, p2, o2, r2);
                    }
                    let mut git_type: Vec<char> = Vec::new();
                    push_range(&mut git_type, t.as_slice(), p + 8, p + 14);
                    let mut owner: Vec<char> = Vec::new();
                    push_range(&mut owner, t.as_slice(), p + 19, o);
                    let mut repo: Vec<char> = Vec::new();
                    push_range(&mut repo, t.as_slice(), o + 1, r);
                    return Some(GitRepo {
                        owner: string_of(owner.as_slice()),
                        repo: string_of(repo.as_slice()),
                        git_type: string_of(git_type.as_slice()),
                    });
                },
                None => {},
            }
        } else {
            assert forall|o2: int, r2: int| !#[trigger] repo_url_match(t@, p as int, o2, r2) by {
                if repo_url_match(t@, p as int, o2, r2) {
                    assert(p + 20 <= n);
                }
            }
        }
        p = p + 1;
    }
    assert(!exists|p: int, o: int, r: int| is_repo_url(t@, p, o, r));
    None
}

/// `node` locks the repository `name` of `owner` on the host `git_type`.
pub open spec fn locks(git_type: Seq<char>, owner: Seq<char>, name: Seq<char>, node: LockedRepo) -> bool {
    node.node_type@ == git_type && node.owner@ == owner && node.repo@ == name
}

/// The locked revisions that a dependency pinned at `revision` in the
/// repository `name` of `owner` on `git_type` is to move to: those of the
/// nodes of that repository at another revision, in the order of the flake
/// lock.
pub open spec fn locked_revisions(
    git_type: Seq<char>,
    owner: Seq<char>,
    name: Seq<char>,
    revision: Seq<char>,
    nodes: Seq<LockedRepo>,
) -> Seq<Seq<char>>
    decreases nodes.len(),
{
    if nodes.len() == 0 {
        Seq::empty()
    } else {
        let earlier = locked_revisions(git_type, owner, name, revision, nodes.drop_last());
        let node = nodes.last();
        if locks(git_type, owner, name, node) && revision != node.rev@ {
            earlier.push(node.rev@)
        } else {
            earlier
        }
    }
}

/// The locked revisions that a dependency pinned at `revision` in `repo`
/// is to move to.
pub open spec fn revisions_to_sync(repo: GitRepo, revision: Seq<char>, nodes: Seq<LockedRepo>) -> Seq<Seq<char>> {
    locked_revisions(repo.git_type@, repo.owner@, repo.repo@, revision, nodes)
}

/// The locked revisions that a dependency pinned at `revision` in `repo` is
/// to move to, in the order of the flake lock; the last one is where it ends.
pub fn locked_revisions_to_sync(repo: &GitRepo, revision: &str, nodes: &Vec<LockedRepo>) -> (revs: Vec<String>)
    ensures
        revs@.map_values(|s: String| s@) == revisions_to_sync(*repo, revision@, nodes@),
{
    let mut revs: Vec<String> = Vec::new();
    let mut i: usize = 0;
    let owned = revision.to_owned();
    while i < nodes.len()
        invariant
            i <= nodes.len(),
            owned@ == revision@,
            revs@.map_values(|s: String| s@) == revisions_to_sync(*repo, revision@, nodes@.take(i as int)),
        decreases nodes.len() - i,
    {
        let node = &nodes[i];
        assert(nodes@.take(i + 1).drop_last() =~= nodes@.take(i as int));
        if node.node_type == repo.git_type && node.owner == repo.owner && node.repo == repo.repo
            && !(owned == node.rev) {
            revs.push(node.rev.clone());
            assert(revs@.map_values(|s: String| s@) =~= revisions_to_sync(*repo, revision@, nodes@.take(i as int)).push(node.rev@));
        }
        i = i + 1;
    }
    assert(nodes@.take(nodes@.len() as int) =~= nodes@);
    revs
}

/// The output recorded for `key` among `(key, output)` answers: that of the
/// first answer with this key.
pub open spec fn answer_for(answers: Seq<(String, String)>, key: Seq<char>) -> Option<Seq<char>>
    decreases answers.len(),
{
    if answers.len() == 0 {
        None
    } else {
        match answer_for(answers.drop_last(), key) {
            Some(o) => Some(o),
            None => if answers.last().0@ == key {
                Some(answers.last().1@)
            } else {
                None
            },
        }
    }
}

/// The output recorded for `key` among `(key, output)` answers.
pub fn find_answer(answers: &Vec<(String, String)>, key: &str) -> (r: Option<String>)
    ensures
        opt_view(r) == answer_for(answers@, key@),
{
    let mut found: Option<String> = None;
    let mut i: usize = 0;
    while i < answers.len()
        invariant
            i <= answers.len(),
            opt_view(found) == answer_for(answers@.take(i as int), key@),
        decreases answers.len() - i,
    {
        assert(answers@.take(i + 1).drop_last() =~= answers@.take(i as int));
        if found.is_none() && str_eq(answers[i].0.as_str(), key) {
            found = Some(answers[i].1.clone());
        }
        i = i + 1;
    }
    assert(answers@.take(answers.len() as int) =~= answers@);
    found
}

} // verus!
