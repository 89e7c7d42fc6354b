//! Keeping npm dependencies pinned with `rev-tag.<rev>` in step with the
//! revisions that the flake lock pins for the same git repositories.

use vstd::prelude::*;
use crate::text::{matches_at, matches_at_exec, chars_of, string_of, push_range, push_str};
use crate::git_repo::{
    GitRepo, LockedRepo, parse_npm_repo_output, repo_of_output, locked_revisions, locked_revisions_to_sync,
    answer_for, find_answer,
};
use crate::json::{
    Json, JsonModel, parse_json, parsed_json, pretty_json, to_pretty_json, key_index, find_key, entries_model,
    lemma_object_model, lemma_key_index_bounds,
};

verus! {

/// The errors of synchronizing `rev-tag` dependencies, as far as the
/// library's rules raise them.
#[derive(Debug, PartialEq, Eq)]
pub enum SynchronizeNpmGitDependenciesWithNixError {
    /// A `package.json` is not JSON; the parser's message.
    SerdeJsonError(String),
    ParseGitRepositoryError(String, String),
    RevTagDependencyError(String),
    /// The npm package, and what went wrong reading its repository.
    NpmRepoError(String, String),
}

/// `rev-tag.`
pub open spec fn rev_tag_prefix() -> Seq<char> {
    seq!['r', 'e', 'v', '-', 't', 'a', 'g', '.']
}

/// `rev-tag.` at `p`, and no newline after it (`rev-tag\.(.*)$`).
pub open spec fn rev_tag_match(t: Seq<char>, p: int) -> bool {
    &&& matches_at(t, p, rev_tag_prefix())
    &&& forall|k: int| p + 8 <= k < t.len() ==> #[trigger] t[k] != '\n'
}

/// The revision that a `rev-tag` dependency source pins: what follows the
/// leftmost `rev-tag.` that has no newline after it.
#[verifier::opaque]
pub open spec fn rev_tag_revision_spec(t: Seq<char>) -> Option<Seq<char>> {
    if exists|p: int| #[trigger] rev_tag_match(t, p) {
        let p = choose|p: int| #[trigger] rev_tag_match(t, p) && forall|q: int| #[trigger] rev_tag_match(t, q) ==> p <= q;
        Some(t.subrange(p + 8, t.len() as int))
    } else {
        None
    }
}

/// The revision that a `rev-tag` dependency source pins, if it is one.
pub fn rev_tag_revision(dependency_source: &str) -> (r: Option<String>)
    ensures
        match r {
            Some(rev) => rev_tag_revision_spec(dependency_source@) == Some(rev@),
            None => rev_tag_revision_spec(dependency_source@) is None,
        },
{
    let t = chars_of(dependency_source);
    let prefix: Vec<char> = vec!['r', 'e', 'v', '-', 't', 'a', 'g', '.'];
    assert(prefix@ =~= rev_tag_prefix());
    let n = t.len();
    // The last newline bounds where a match can start.
    let mut last_newline_end: usize = 0;
    let mut k: usize = 0;
    while k < n
        invariant
            n == t@.len(),
            k <= n,
            last_newline_end <= k,
            forall|j: int| last_newline_end <= j < k ==> #[trigger] t@[j] != '\n',
            last_newline_end > 0 ==> t@[last_newline_end - 1] == '\n',
        decreases n - k,
    {
        if t[k] == '\n' {
            last_newline_end = k + 1;
        }
        k = k + 1;
    }
    let mut p: usize = last_newline_end;
    assert forall|q: int| #[trigger] rev_tag_match(t@, q) implies last_newline_end <= q by {
        if q < last_newline_end {
            assert(t@[last_newline_end - 1] == '\n');
            if q + 8 <= last_newline_end - 1 {
            } else {
                assert(matches_at(t@, q, rev_tag_prefix()));
                assert(t@.subrange(q, q + 8)[last_newline_end - 1 - q] == rev_tag_prefix()[last_newline_end - 1 - q]);
            }
        }
    }
    while p < n
        invariant
            n == t@.len(),
            t@ == dependency_source@,
            prefix@ == rev_tag_prefix(),
            last_newline_end <= p,
            forall|j: int| last_newline_end <= j < n ==> #[trigger] t@[j] != '\n',
            forall|q: int| #[trigger] rev_tag_match(t@, q) ==> p <= q,
        decreases n - p,
    {
        if matches_at_exec(t.as_slice(), p, prefix.as_slice()) {
            assert(rev_tag_match(t@, p as int));
            proof {
                reveal(rev_tag_revision_spec);
                let p2 = choose|p2: int| #[trigger] rev_tag_match(t@, p2) && forall|q: int| #[trigger] rev_tag_match(t@, q) ==> p2 <= q;
                assert(p2 <= p && p <= p2);
            }
            let mut out: Vec<char> = Vec::new();
            push_range(&mut out, t.as_slice(), p + 8, n);
            return Some(string_of(out.as_slice()));
        }
        p = p + 1;
    }
    proof {
        reveal(rev_tag_revision_spec);
    }
    None
}

/// The dependency source that pins revision `rev`.
pub fn rev_tag_source(rev: &str) -> (r: String)
    ensures
        r@ == rev_tag_prefix() + rev@,
{
    let mut v: Vec<char> = vec!['r', 'e', 'v', '-', 't', 'a', 'g', '.'];
    push_str(&mut v, rev);
    string_of(v.as_slice())
}

/// The message of an `npm repo` output that names no repository.
pub open spec fn unrecognized_repo_message(output: Seq<char>) -> Seq<char> {
    "Unrecognized repo URL from the output of npm repo: "@ + output
}

/// The repository of `npm_package`, read from what `npm repo` printed for it.
pub fn get_repo(npm_package: &str, npm_repo_output: &str) -> (r: Result<GitRepo, SynchronizeNpmGitDependenciesWithNixError>)
    ensures
        match repo_of_output(npm_repo_output@) {
            Some((git_type, owner, repo)) => r matches Ok(g) && g.git_type@ == git_type && g.owner@ == owner
                && g.repo@ == repo,
            None => r matches Err(SynchronizeNpmGitDependenciesWithNixError::NpmRepoError(p, m))
                && p@ == npm_package@ && m@ == unrecognized_repo_message(npm_repo_output@),
        },
{
    match parse_npm_repo_output(npm_repo_output) {
        Some(g) => Ok(g),
        None => {
            let mut v: Vec<char> = Vec::new();
            push_str(&mut v, "Unrecognized repo URL from the output of npm repo: ");
            push_str(&mut v, npm_repo_output);
            Err(SynchronizeNpmGitDependenciesWithNixError::NpmRepoError(npm_package.to_owned(), string_of(v.as_slice())))
        },
    }
}

// ---------------------------------------------------------------------------
// One synchronization of a package.json
// ---------------------------------------------------------------------------

pub enum GitSyncErrorModel {
    SerdeJsonError(Seq<char>),
    ParseGitRepositoryError(Seq<char>, Seq<char>),
    RevTagDependencyError(Seq<char>),
    NpmRepoError(Seq<char>, Seq<char>),
}

impl View for SynchronizeNpmGitDependenciesWithNixError {
    type V = GitSyncErrorModel;

    open spec fn view(&self) -> GitSyncErrorModel {
        match self {
            SynchronizeNpmGitDependenciesWithNixError::SerdeJsonError(m) => GitSyncErrorModel::SerdeJsonError(m@),
            SynchronizeNpmGitDependenciesWithNixError::ParseGitRepositoryError(a, b) => GitSyncErrorModel::ParseGitRepositoryError(a@, b@),
            SynchronizeNpmGitDependenciesWithNixError::RevTagDependencyError(a) => GitSyncErrorModel::RevTagDependencyError(a@),
            SynchronizeNpmGitDependenciesWithNixError::NpmRepoError(a, b) => GitSyncErrorModel::NpmRepoError(a@, b@),
        }
    }
}

/// `(package, text)` pairs by their views.
pub open spec fn pairs_model(v: Seq<(String, String)>) -> Seq<(Seq<char>, Seq<char>)> {
    Seq::new(v.len(), |i: int| (v[i].0@, v[i].1@))
}

/// What to do next to synchronize the `rev-tag` dependencies of one
/// `package.json`.
#[derive(Debug)]
pub enum GitSyncAction {
    /// Run `npm repo <package> --no-browser` and hand its output back, as
    /// the answer for this package.
    NpmRepo(String),
    /// Write this text to the file; the `(package, revision)` moves made,
    /// in order.
    Write(String, Vec<(String, String)>),
}

pub enum GitSyncActionModel {
    NpmRepo(Seq<char>),
    Write(Seq<char>, Seq<(Seq<char>, Seq<char>)>),
}

impl View for GitSyncAction {
    type V = GitSyncActionModel;

    open spec fn view(&self) -> GitSyncActionModel {
        match self {
            GitSyncAction::NpmRepo(p) => GitSyncActionModel::NpmRepo(p@),
            GitSyncAction::Write(t, moved) => GitSyncActionModel::Write(t@, pairs_model(moved@)),
        }
    }
}

/// Where a walk over the dependencies stands: the entries so far and the
/// moves made, or the package whose `npm repo` output it needs, or the error
/// that stops it.
pub enum GitWalk {
    Going(Seq<(Seq<char>, JsonModel)>, Seq<(Seq<char>, Seq<char>)>),
    Ask(Seq<char>),
    Failed(GitSyncErrorModel),
}

/// One dependency `entry` after the entries `done` and the moves `moved`: a
/// string source pinned with `rev-tag.` moves to the last revision that the
/// flake lock holds for its repository at another revision, read from the
/// `npm repo` output recorded for the package; any other entry stays.
pub open spec fn git_dependency_step(
    done: Seq<(Seq<char>, JsonModel)>,
    moved: Seq<(Seq<char>, Seq<char>)>,
    entry: (Seq<char>, JsonModel),
    nodes: Seq<LockedRepo>,
    answers: Seq<(String, String)>,
) -> GitWalk {
    let package = entry.0;
    match entry.1 {
        JsonModel::Str(s) => match rev_tag_revision_spec(s) {
            None => GitWalk::Going(done.push(entry), moved),
            Some(revision) => match answer_for(answers, package) {
                None => GitWalk::Ask(package),
                Some(out) => match repo_of_output(out) {
                    None => GitWalk::Failed(GitSyncErrorModel::NpmRepoError(package, unrecognized_repo_message(out))),
                    Some((t, o, r)) => {
                        let revs = locked_revisions(t, o, r, revision, nodes);
                        if revs.len() == 0 {
                            GitWalk::Going(done.push(entry), moved)
                        } else {
                            GitWalk::Going(
                                done.push((package, JsonModel::Str(rev_tag_prefix() + revs.last()))),
                                moved + revs.map_values(|rev: Seq<char>| (package, rev)),
                            )
                        }
                    },
                },
            },
        },
        _ => GitWalk::Going(done.push(entry), moved),
    }
}

/// The walk over the dependencies `deps`, in order.
pub open spec fn git_walk(deps: Seq<(Seq<char>, JsonModel)>, nodes: Seq<LockedRepo>, answers: Seq<(String, String)>) -> GitWalk
    decreases deps.len(),
{
    if deps.len() == 0 {
        GitWalk::Going(Seq::empty(), Seq::empty())
    } else {
        match git_walk(deps.drop_last(), nodes, answers) {
            GitWalk::Going(done, moved) => git_dependency_step(done, moved, deps.last(), nodes, answers),
            stopped => stopped,
        }
    }
}

/// The `dependencies` object of a root value: the root's entries, the index
/// of that key and the dependencies' entries.
pub open spec fn dependencies_of(root: JsonModel) -> Option<(Seq<(Seq<char>, JsonModel)>, int, Seq<(Seq<char>, JsonModel)>)> {
    match root {
        JsonModel::Object(entries) => match key_index(entries, "dependencies"@) {
            Some(d) => match entries[d].1 {
                JsonModel::Object(deps) => Some((entries, d, deps)),
                _ => None,
            },
            None => None,
        },
        _ => None,
    }
}

/// The root with the dependencies at index `d` of its entries replaced.
pub open spec fn with_dependencies(entries: Seq<(Seq<char>, JsonModel)>, d: int, deps: Seq<(Seq<char>, JsonModel)>) -> JsonModel {
    JsonModel::Object(entries.update(d, (entries[d].0, JsonModel::Object(deps))))
}

/// What one synchronization of the `package.json` text `text` does next,
/// given the flake lock's repository nodes and the `npm repo` outputs
/// recorded so far: read as JSON, its `dependencies` are walked in order,
/// and the file is written back pretty-printed, with or without moves.
pub open spec fn git_sync(
    text: Seq<char>,
    nodes: Seq<LockedRepo>,
    answers: Seq<(String, String)>,
) -> Result<GitSyncActionModel, GitSyncErrorModel> {
    match parsed_json(text) {
        Err(m) => Err(GitSyncErrorModel::SerdeJsonError(m)),
        Ok(root) => match dependencies_of(root) {
            Some((entries, d, deps)) => match git_walk(deps, nodes, answers) {
                GitWalk::Going(done, moved) => Ok(GitSyncActionModel::Write(pretty_json(with_dependencies(entries, d, done)), moved)),
                GitWalk::Ask(p) => Ok(GitSyncActionModel::NpmRepo(p)),
                GitWalk::Failed(e) => Err(e),
            },
            None => Ok(GitSyncActionModel::Write(pretty_json(root), Seq::empty())),
        },
    }
}

/// Once the walk stops, it stops there whatever follows.
proof fn lemma_git_walk_stops(deps: Seq<(Seq<char>, JsonModel)>, nodes: Seq<LockedRepo>, answers: Seq<(String, String)>, i: int)
    requires
        0 <= i <= deps.len(),
        !(git_walk(deps.take(i), nodes, answers) is Going),
    ensures
        git_walk(deps, nodes, answers) == git_walk(deps.take(i), nodes, answers),
    decreases deps.len(),
{
    if i < deps.len() {
        assert(deps.drop_last().take(i) =~= deps.take(i));
        lemma_git_walk_stops(deps.drop_last(), nodes, answers, i);
    } else {
        assert(deps.take(i) =~= deps);
    }
}

/// The walk of an exec value, as `git_walk` describes it.
enum GitWalkDone {
    Going(Vec<(String, Json)>, Vec<(String, String)>),
    Ask(String),
    Failed(SynchronizeNpmGitDependenciesWithNixError),
}

spec fn git_walk_done_model(w: GitWalkDone) -> GitWalk {
    match w {
        GitWalkDone::Going(done, moved) => GitWalk::Going(entries_model(done@), pairs_model(moved@)),
        GitWalkDone::Ask(p) => GitWalk::Ask(p@),
        GitWalkDone::Failed(e) => GitWalk::Failed(e@),
    }
}

fn walk_git_dependencies(deps: Vec<(String, Json)>, nodes: &Vec<LockedRepo>, answers: &Vec<(String, String)>) -> (r: GitWalkDone)
    ensures
        git_walk_done_model(r) == git_walk(entries_model(deps@), nodes@, answers@),
{
    let ghost model = entries_model(deps@);
    let ghost n = deps@.len();
    assert(n == deps.len());
    let mut rest = deps;
    let mut done: Vec<(String, Json)> = Vec::new();
    let mut moved: Vec<(String, String)> = Vec::new();
    let mut i: usize = 0;
    assert(model.take(0) =~= Seq::<(Seq<char>, JsonModel)>::empty());
    assert(entries_model(done@) =~= Seq::<(Seq<char>, JsonModel)>::empty());
    assert(pairs_model(moved@) =~= Seq::<(Seq<char>, Seq<char>)>::empty());
    while rest.len() > 0
        invariant
            i + rest@.len() == n,
            n == model.len(),
            model == entries_model(deps@),
            n <= usize::MAX,
            forall|k: int| 0 <= k < rest@.len() ==> (#[trigger] rest@[k]).0@ == model[i + k].0 && rest@[k].1@ == model[i + k].1,
            git_walk(model.take(i as int), nodes@, answers@) == GitWalk::Going(entries_model(done@), pairs_model(moved@)),
        decreases rest.len(),
    {
        let ghost before_done = done@;
        let ghost before_moved = moved@;
        assert(rest@[0].0@ == model[i as int].0 && rest@[0].1@ == model[i as int].1);
        let (package, value) = rest.remove(0);
        assert(model.take(i + 1).drop_last() =~= model.take(i as int));
        assert(model.take(i + 1).last() == model[i as int]);
        let ghost entry = model[i as int];
        match value {
            Json::Str(s) => {
                match rev_tag_revision(s.as_str()) {
                    None => {
                        done.push((package, Json::Str(s)));
                    },
                    Some(revision) => {
                        match find_answer(answers, package.as_str()) {
                            None => {
                                proof {
                                    assert(git_walk(model.take(i + 1), nodes@, answers@) == git_dependency_step(
                                        entries_model(done@), pairs_model(moved@), model[i as int], nodes@, answers@));
                                    assert(git_walk(model.take(i + 1), nodes@, answers@) == GitWalk::Ask(package@));
                                    lemma_git_walk_stops(model, nodes@, answers@, i + 1);
                                }
                                return GitWalkDone::Ask(package);
                            },
                            Some(out) => {
                                match get_repo(package.as_str(), out.as_str()) {
                                    Err(e) => {
                                        proof {
                                            assert(git_walk(model.take(i + 1), nodes@, answers@) == git_dependency_step(
                                                entries_model(done@), pairs_model(moved@), model[i as int], nodes@, answers@));
                                            assert(git_walk(model.take(i + 1), nodes@, answers@) == GitWalk::Failed(e@));
                                            lemma_git_walk_stops(model, nodes@, answers@, i + 1);
                                        }
                                        return GitWalkDone::Failed(e);
                                    },
                                    Ok(repo) => {
                                        let revs = locked_revisions_to_sync(&repo, revision.as_str(), nodes);
                                        let ghost rm = revs@.map_values(|x: String| x@);
                                        assert(rm.len() == revs@.len());
                                        if revs.len() == 0 {
                                            done.push((package, Json::Str(s)));
                                        } else {
                                            let last = rev_tag_source(revs[revs.len() - 1].as_str());
                                            assert(rm.last() == revs@[revs.len() - 1]@);
                                            let mut j: usize = 0;
                                            while j < revs.len()
                                                invariant
                                                    j <= revs.len(),
                                                    rm == revs@.map_values(|x: String| x@),
                                                    pairs_model(moved@) == pairs_model(before_moved)
                                                        + rm.take(j as int).map_values(|rev: Seq<char>| (package@, rev)),
                                                decreases revs.len() - j,
                                            {
                                                let ghost b = moved@;
                                                moved.push((package.clone(), revs[j].clone()));
                                                assert(pairs_model(moved@) =~= pairs_model(b).push((package@, rm[j as int])));
                                                assert(rm.take(j + 1).map_values(|rev: Seq<char>| (package@, rev))
                                                    =~= rm.take(j as int).map_values(|rev: Seq<char>| (package@, rev)).push((package@, rm[j as int])));
                                                j = j + 1;
                                            }
                                            assert(rm.take(revs.len() as int) =~= rm);
                                            done.push((package, Json::Str(last)));
                                        }
                                    },
                                }
                            },
                        }
                    },
                }
            },
            other => {
                done.push((package, other));
            },
        }
        assert(entries_model(done@) =~= entries_model(before_done).push(entries_model(done@).last()));
        i = i + 1;
    }
    assert(model.take(n as int) =~= model);
    GitWalkDone::Going(done, moved)
}

/// The result of a synchronization step by its views.
pub open spec fn git_sync_result(r: Result<GitSyncAction, SynchronizeNpmGitDependenciesWithNixError>) -> Result<GitSyncActionModel, GitSyncErrorModel> {
    match r {
        Ok(a) => Ok(a@),
        Err(e) => Err(e@),
    }
}

/// No moves.
pub(crate) fn no_moves() -> (v: Vec<(String, String)>)
    ensures
        pairs_model(v@) == Seq::<(Seq<char>, Seq<char>)>::empty(),
{
    let v: Vec<(String, String)> = Vec::new();
    assert(pairs_model(v@) =~= Seq::<(Seq<char>, Seq<char>)>::empty());
    v
}

/// The file written back for a value, with the moves made.
fn write_action(root: &Json, moved: Vec<(String, String)>) -> (r: GitSyncAction)
    ensures
        r@ == GitSyncActionModel::Write(pretty_json(root@), pairs_model(moved@)),
{
    match to_pretty_json(root) {
        Ok(text) => GitSyncAction::Write(text, moved),
        Err(_) => {
            proof {
                assert(false);
            }
            GitSyncAction::Write(String::new(), moved)
        },
    }
}

/// What one synchronization of the `rev-tag` dependencies of a
/// `package.json` does next, given its text, the repository nodes of the
/// flake lock and the `npm repo` outputs recorded so far, each with its
/// package: ask for the output of the first package that still needs one,
/// stop at an error, or write the file back.
pub fn next_git_sync_action(
    package_json: &str,
    nodes: &Vec<LockedRepo>,
    npm_repo_outputs: &Vec<(String, String)>,
) -> (r: Result<GitSyncAction, SynchronizeNpmGitDependenciesWithNixError>)
    ensures
        git_sync_result(r) == git_sync(package_json@, nodes@, npm_repo_outputs@),
{
    let root = match parse_json(package_json) {
        Ok(j) => j,
        Err(m) => return Err(SynchronizeNpmGitDependenciesWithNixError::SerdeJsonError(m)),
    };
    let ghost root_model = root@;
    match root {
        Json::Object(mut entries) => {
            proof {
                lemma_object_model(entries);
                reveal_strlit("dependencies");
            }
            let ghost em = entries_model(entries@);
            match find_key(&entries, "dependencies") {
                Some(d) => {
                    proof {
                        lemma_key_index_bounds(em, "dependencies"@);
                    }
                    let (key, deps) = entries.remove(d);
                    assert(em[d as int] == (key@, deps@));
                    match deps {
                        Json::Object(dep_entries) => {
                            proof {
                                lemma_object_model(dep_entries);
                            }
                            assert(dependencies_of(root_model) == Some((em, d as int, entries_model(dep_entries@))));
                            match walk_git_dependencies(dep_entries, nodes, npm_repo_outputs) {
                                GitWalkDone::Going(done, moved) => {
                                    let ghost dm = entries_model(done@);
                                    proof {
                                        lemma_object_model(done);
                                    }
                                    entries.insert(d, (key, Json::Object(done)));
                                    assert(entries_model(entries@) =~= em.update(d as int, (em[d as int].0, JsonModel::Object(dm))));
                                    let root2 = Json::Object(entries);
                                    proof {
                                        lemma_object_model(entries);
                                    }
                                    assert(root2@ == with_dependencies(em, d as int, dm));
                                    Ok(write_action(&root2, moved))
                                },
                                GitWalkDone::Ask(p) => Ok(GitSyncAction::NpmRepo(p)),
                                GitWalkDone::Failed(e) => Err(e),
                            }
                        },
                        other => {
                            assert(!(other@ is Object)) by {
                                match other {
                                    Json::Object(v) => {},
                                    _ => {},
                                }
                            }
                            assert(dependencies_of(root_model) is None);
                            entries.insert(d, (key, other));
                            assert(entries_model(entries@) =~= em);
                            let root2 = Json::Object(entries);
                            proof {
                                lemma_object_model(entries);
                            }
                            assert(root2@ == root_model);
                            Ok(write_action(&root2, no_moves()))
                        },
                    }
                },
                None => {
                    assert(dependencies_of(root_model) is None);
                    let root2 = Json::Object(entries);
                    assert(root2@ == root_model);
                    Ok(write_action(&root2, no_moves()))
                },
            }
        },
        other => {
            assert(!(other@ is Object)) by {
                match other {
                    Json::Object(v) => {},
                    _ => {},
                }
            }
            Ok(write_action(&other, no_moves()))
        },
    }
}

} // verus!
