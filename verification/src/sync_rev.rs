//! Keeping npm dependencies on `<version>-rev.<rev>` versions in step with the
//! revisions that the flake lock pins for the same git repositories.

use vstd::prelude::*;
use crate::text::{matches_at, matches_at_exec, chars_of, string_of, push_range, push_str, contains_seq, contains_exec};
use crate::git_repo::{
    GitRepo, LockedRepo, repo_of_output, locked_revisions, locked_revisions_to_sync, answer_for, find_answer,
};
use crate::sync_git;
use crate::sync_git::{pairs_model, dependencies_of, with_dependencies, no_moves};
use crate::json::{
    Json, JsonModel, json_model, parse_json, parsed_json, parsed_model, key_index, find_key, entries_model, items_model,
    pretty_json, to_pretty_json,
    lemma_object_model, lemma_array_model, lemma_key_index_bounds,
};

verus! {

/// The errors of synchronizing `-rev.` dependencies, as far as the library's
/// rules raise them.
#[derive(Debug, PartialEq, Eq)]
pub enum SynchronizeNpmGitDependenciesWithNixError {
    /// `npm show` printed no JSON; the parser's message.
    SerdeJsonError(String),
    ParseGitRepositoryError(String, String),
    RevDependencyError(String),
    /// The npm package, and what went wrong reading its repository.
    NpmRepoError(String, String),
    /// The npm package, and what went wrong reading its versions.
    NpmShowError(String, String),
}

/// The arguments of the command that synchronizes `-rev.` dependencies.
#[derive(Debug, PartialEq, Eq)]
pub struct Args {
    /// The package manager that is used in this repository.
    pub package_manager: Option<String>,
}

/// `-rev.`
pub open spec fn rev_infix() -> Seq<char> {
    seq!['-', 'r', 'e', 'v', '.']
}

pub open spec fn has_no_newline(t: Seq<char>) -> bool {
    forall|k: int| 0 <= k < t.len() ==> #[trigger] t[k] != '\n'
}

/// The last `-rev.` of `t` is at `q`.
pub open spec fn is_last_infix(t: Seq<char>, q: int) -> bool {
    &&& matches_at(t, q, rev_infix())
    &&& forall|q2: int| #[trigger] matches_at(t, q2, rev_infix()) ==> q2 <= q
}

/// The version and the revision of a `<version>-rev.<revision>` dependency
/// source (`^(.*)-rev\.(.*)$`): the source holds no newline, and the split
/// is at its last `-rev.`.
pub open spec fn rev_dependency_spec(t: Seq<char>) -> Option<(Seq<char>, Seq<char>)> {
    if has_no_newline(t) && exists|q: int| #[trigger] is_last_infix(t, q) {
        let q = choose|q: int| #[trigger] is_last_infix(t, q);
        Some((t.subrange(0, q), t.subrange(q + 5, t.len() as int)))
    } else {
        None
    }
}

/// The version and the revision of a `-rev.` dependency source, if it is one.
pub fn rev_dependency(dependency_source: &str) -> (r: Option<(String, String)>)
    ensures
        match r {
            Some((version, revision)) => rev_dependency_spec(dependency_source@) == Some((version@, revision@)),
            None => rev_dependency_spec(dependency_source@) is None,
        },
{
    let t = chars_of(dependency_source);
    let infix: Vec<char> = vec!['-', 'r', 'e', 'v', '.'];
    assert(infix@ =~= rev_infix());
    let n = t.len();
    let mut k: usize = 0;
    while k < n
        invariant
            n == t@.len(),
            t@ == dependency_source@,
            k <= n,
            forall|j: int| 0 <= j < k ==> #[trigger] t@[j] != '\n',
        decreases n - k,
    {
        if t[k] == '\n' {
            assert(!has_no_newline(t@));
            return None;
        }
        k = k + 1;
    }
    assert(has_no_newline(t@));
    let mut q: usize = n;
    while q > 0
        invariant
            n == t@.len(),
            t@ == dependency_source@,
            has_no_newline(t@),
            q <= n,
            infix@ == rev_infix(),
            forall|q2: int| #[trigger] matches_at(t@, q2, rev_infix()) ==> q2 < q,
        decreases q,
    {
        q = q - 1;
        if matches_at_exec(t.as_slice(), q, infix.as_slice()) {
            proof {
                assert(is_last_infix(t@, q as int));
                let q2 = choose|q2: int| #[trigger] is_last_infix(t@, q2);
                assert(q2 <= q && q <= q2);
            }
            let mut version: Vec<char> = Vec::new();
            push_range(&mut version, t.as_slice(), 0, q);
            let mut revision: Vec<char> = Vec::new();
            push_range(&mut revision, t.as_slice(), q + 5, n);
            return Some((string_of(version.as_slice()), string_of(revision.as_slice())));
        }
    }
    assert forall|q2: int| !#[trigger] is_last_infix(t@, q2) by {}
    None
}

/// The repository of `npm_package`, read from what `npm repo` printed for it.
pub fn get_repo(npm_package: &str, npm_repo_output: &str) -> (r: Result<GitRepo, SynchronizeNpmGitDependenciesWithNixError>)
    ensures
        match repo_of_output(npm_repo_output@) {
            Some((git_type, owner, repo)) => r matches Ok(g) && g.git_type@ == git_type && g.owner@ == owner
                && g.repo@ == repo,
            None => r matches Err(SynchronizeNpmGitDependenciesWithNixError::NpmRepoError(p, m))
                && p@ == npm_package@ && m@ == sync_git::unrecognized_repo_message(npm_repo_output@),
        },
{
    match sync_git::get_repo(npm_package, npm_repo_output) {
        Ok(g) => Ok(g),
        Err(sync_git::SynchronizeNpmGitDependenciesWithNixError::NpmRepoError(p, m)) => Err(
            SynchronizeNpmGitDependenciesWithNixError::NpmRepoError(p, m),
        ),
        Err(_) => {
            proof {
                assert(false);
            }
            Err(SynchronizeNpmGitDependenciesWithNixError::NpmRepoError(npm_package.to_owned(), npm_repo_output.to_owned()))
        },
    }
}

/// What the `versions` field of the JSON printed by `npm show --json` holds.
pub enum NpmVersions {
    /// Not JSON; the parser's message.
    Unparsable(String),
    /// No `versions` array.
    NoVersions,
    /// The versions, `None` where an entry is not a string.
    Versions(Vec<Option<String>>),
}

pub open spec fn versions_model(v: Seq<Option<String>>) -> Seq<Option<Seq<char>>> {
    v.map_values(|o: Option<String>| match o {
        Some(s) => Some(s@),
        None => None,
    })
}

pub enum NpmVersionsModel {
    Unparsable(Seq<char>),
    NoVersions,
    Versions(Seq<Option<Seq<char>>>),
}

impl View for NpmVersions {
    type V = NpmVersionsModel;

    open spec fn view(&self) -> NpmVersionsModel {
        match self {
            NpmVersions::Unparsable(m) => NpmVersionsModel::Unparsable(m@),
            NpmVersions::NoVersions => NpmVersionsModel::NoVersions,
            NpmVersions::Versions(v) => NpmVersionsModel::Versions(versions_model(v@)),
        }
    }
}

/// The text of a JSON string, `None` for any other value.
pub open spec fn string_or_none(j: JsonModel) -> Option<Seq<char>> {
    match j {
        JsonModel::Str(s) => Some(s),
        _ => None,
    }
}

/// What the JSON printed by `npm show --json` says of the versions: the
/// parser's message, or the entries of the `versions` array of the root
/// object, each a string or `None`; no such array is `NoVersions`.
pub open spec fn versions_of(parsed: Result<JsonModel, Seq<char>>) -> NpmVersionsModel {
    match parsed {
        Err(m) => NpmVersionsModel::Unparsable(m),
        Ok(JsonModel::Object(entries)) => match key_index(entries, "versions"@) {
            Some(i) => match entries[i].1 {
                JsonModel::Array(items) => NpmVersionsModel::Versions(items.map_values(|j: JsonModel| string_or_none(j))),
                _ => NpmVersionsModel::NoVersions,
            },
            None => NpmVersionsModel::NoVersions,
        },
        Ok(_) => NpmVersionsModel::NoVersions,
    }
}

/// What the parsed output of `npm show --json` says of the versions.
pub fn npm_versions(parsed: Result<Json, String>) -> (r: NpmVersions)
    ensures
        r@ == versions_of(parsed_model(parsed)),
{
    match parsed {
        Err(m) => NpmVersions::Unparsable(m),
        Ok(Json::Object(entries)) => {
            proof {
                lemma_object_model(entries);
                reveal_strlit("versions");
            }
            match find_key(&entries, "versions") {
                Some(i) => {
                    proof {
                        lemma_key_index_bounds(entries_model(entries@), "versions"@);
                    }
                    match &entries[i].1 {
                        Json::Array(items) => {
                            proof {
                                lemma_array_model(*items);
                            }
                            let ghost m = items_model(items@);
                            let mut out: Vec<Option<String>> = Vec::new();
                            let mut k: usize = 0;
                            while k < items.len()
                                invariant
                                    k <= items.len(),
                                    m == items_model(items@),
                                    versions_model(out@) == m.take(k as int).map_values(|j: JsonModel| string_or_none(j)),
                                decreases items.len() - k,
                            {
                                assert(m[k as int] == json_model(items@[k as int]));
                                let e: Option<String> = match &items[k] {
                                    Json::Str(s) => Some(s.clone()),
                                    _ => None,
                                };
                                assert(versions_model(seq![e])[0] == string_or_none(m[k as int]));
                                let ghost before = out@;
                                out.push(e);
                                assert(out@ == before.push(e));
                                assert(versions_model(out@) =~= versions_model(before).push(string_or_none(m[k as int])));
                                assert(m.take(k + 1).map_values(|j: JsonModel| string_or_none(j))
                                    =~= m.take(k as int).map_values(|j: JsonModel| string_or_none(j)).push(string_or_none(m[k as int])));
                                assert(versions_model(out@) =~= m.take(k + 1).map_values(|j: JsonModel| string_or_none(j)));
                                k = k + 1;
                            }
                            assert(m.take(items.len() as int) =~= m);
                            NpmVersions::Versions(out)
                        },
                        _ => NpmVersions::NoVersions,
                    }
                },
                None => NpmVersions::NoVersions,
            }
        },
        Ok(_) => NpmVersions::NoVersions,
    }
}

/// `i` is the first version that holds `rev`.
pub open spec fn is_first_version_with(versions: Seq<Option<Seq<char>>>, i: int, rev: Seq<char>) -> bool {
    &&& 0 <= i < versions.len()
    &&& versions[i] matches Some(v) && contains_seq(v, rev)
    &&& forall|j: int| 0 <= j < i ==> !(#[trigger] versions[j] matches Some(v) && contains_seq(v, rev))
}

/// What a version lookup returns for what `npm show` says of the versions:
/// the first version that holds the revision, or the error that says why
/// there is none.
pub open spec fn chose_version(
    npm_package: Seq<char>,
    rev: Seq<char>,
    versions: NpmVersionsModel,
    r: Result<String, SynchronizeNpmGitDependenciesWithNixError>,
) -> bool {
    match versions {
        NpmVersionsModel::Unparsable(message) => r matches Err(SynchronizeNpmGitDependenciesWithNixError::SerdeJsonError(m))
            && m@ == message,
        NpmVersionsModel::NoVersions => r matches Err(SynchronizeNpmGitDependenciesWithNixError::NpmShowError(p, m))
            && p@ == npm_package && m@ == "No versions returned for npm show"@,
        NpmVersionsModel::Versions(versions) => if exists|i: int| is_first_version_with(versions, i, rev) {
            exists|i: int| is_first_version_with(versions, i, rev) && (r matches Ok(v) && Some(v@) == versions[i])
        } else {
            r matches Err(SynchronizeNpmGitDependenciesWithNixError::NpmShowError(p, m)) && p@ == npm_package
                && m@ == "No version found for the revision "@ + rev
        },
    }
}

/// The version of `npm_package` that holds the revision `rev`, among what
/// `npm show` says of its versions.
pub fn version_among(npm_package: &str, rev: &str, versions: NpmVersions) -> (r: Result<String, SynchronizeNpmGitDependenciesWithNixError>)
    ensures
        chose_version(npm_package@, rev@, versions@, r),
{
    match versions {
        NpmVersions::Unparsable(message) => Err(SynchronizeNpmGitDependenciesWithNixError::SerdeJsonError(message)),
        NpmVersions::NoVersions => Err(SynchronizeNpmGitDependenciesWithNixError::NpmShowError(
            npm_package.to_owned(),
            "No versions returned for npm show".to_string(),
        )),
        NpmVersions::Versions(list) => {
            let ghost model = versions_model(list@);
            let mut i: usize = 0;
            while i < list.len()
                invariant
                    i <= list.len(),
                    versions@ == NpmVersionsModel::Versions(model),
                    model == versions_model(list@),
                    forall|j: int| 0 <= j < i ==> !(#[trigger] model[j] matches Some(v) && contains_seq(v, rev@)),
                decreases list.len() - i,
            {
                match &list[i] {
                    Some(v) => {
                        assert(model[i as int] == Some(v@));
                        if contains_exec(v.as_str(), rev) {
                            assert(is_first_version_with(model, i as int, rev@));
                            let found = v.clone();
                            assert(Some(found@) == model[i as int]);
                            return Ok(found);
                        }
                    },
                    None => {
                        assert(model[i as int] is None);
                    },
                }
                i = i + 1;
            }
            assert(!exists|i: int| is_first_version_with(model, i, rev@));
            let mut m: Vec<char> = Vec::new();
            push_str(&mut m, "No version found for the revision ");
            push_str(&mut m, rev);
            Err(SynchronizeNpmGitDependenciesWithNixError::NpmShowError(npm_package.to_owned(), string_of(m.as_slice())))
        },
    }
}

/// The version of `npm_package` that holds the revision `rev`, read from the
/// output of `npm show <npm_package> --json`.
pub fn version_for_revision(npm_package: &str, rev: &str, npm_show_output: &str) -> (r: Result<String, SynchronizeNpmGitDependenciesWithNixError>)
    ensures
        chose_version(npm_package@, rev@, versions_of(parsed_json(npm_show_output@)), r),
{
    version_among(npm_package, rev, npm_versions(parse_json(npm_show_output)))
}

// ---------------------------------------------------------------------------
// One synchronization of a package.json
// ---------------------------------------------------------------------------

pub enum RevSyncErrorModel {
    SerdeJsonError(Seq<char>),
    ParseGitRepositoryError(Seq<char>, Seq<char>),
    RevDependencyError(Seq<char>),
    NpmRepoError(Seq<char>, Seq<char>),
    NpmShowError(Seq<char>, Seq<char>),
}

impl View for SynchronizeNpmGitDependenciesWithNixError {
    type V = RevSyncErrorModel;

    open spec fn view(&self) -> RevSyncErrorModel {
        match self {
            SynchronizeNpmGitDependenciesWithNixError::SerdeJsonError(m) => RevSyncErrorModel::SerdeJsonError(m@),
            SynchronizeNpmGitDependenciesWithNixError::ParseGitRepositoryError(a, b) => RevSyncErrorModel::ParseGitRepositoryError(a@, b@),
            SynchronizeNpmGitDependenciesWithNixError::RevDependencyError(a) => RevSyncErrorModel::RevDependencyError(a@),
            SynchronizeNpmGitDependenciesWithNixError::NpmRepoError(a, b) => RevSyncErrorModel::NpmRepoError(a@, b@),
            SynchronizeNpmGitDependenciesWithNixError::NpmShowError(a, b) => RevSyncErrorModel::NpmShowError(a@, b@),
        }
    }
}

/// The version that holds `rev` among what `npm show` says of the versions
/// of `npm_package`, or the error that says why there is none.
pub open spec fn version_lookup(npm_package: Seq<char>, rev: Seq<char>, versions: NpmVersionsModel) -> Result<Seq<char>, RevSyncErrorModel> {
    match versions {
        NpmVersionsModel::Unparsable(m) => Err(RevSyncErrorModel::SerdeJsonError(m)),
        NpmVersionsModel::NoVersions => Err(RevSyncErrorModel::NpmShowError(npm_package, "No versions returned for npm show"@)),
        NpmVersionsModel::Versions(vs) => if exists|i: int| is_first_version_with(vs, i, rev) {
            let i = choose|i: int| is_first_version_with(vs, i, rev);
            Ok(vs[i]->Some_0)
        } else {
            Err(RevSyncErrorModel::NpmShowError(npm_package, "No version found for the revision "@ + rev))
        },
    }
}

proof fn lemma_version_lookup(npm_package: Seq<char>, rev: Seq<char>, versions: NpmVersionsModel, r: Result<String, SynchronizeNpmGitDependenciesWithNixError>)
    requires
        chose_version(npm_package, rev, versions, r),
    ensures
        match r {
            Ok(v) => version_lookup(npm_package, rev, versions) == Ok::<Seq<char>, RevSyncErrorModel>(v@),
            Err(e) => version_lookup(npm_package, rev, versions) == Err::<Seq<char>, RevSyncErrorModel>(e@),
        },
{
    if let NpmVersionsModel::Versions(vs) = versions {
        if exists|i: int| is_first_version_with(vs, i, rev) {
            let i = choose|i: int| is_first_version_with(vs, i, rev);
            let j = choose|j: int| is_first_version_with(vs, j, rev) && (r matches Ok(v) && Some(v@) == vs[j]);
            if i < j {
                assert(vs[i] matches Some(v) && contains_seq(v, rev));
            } else if j < i {
                assert(vs[j] matches Some(v) && contains_seq(v, rev));
            }
        }
    }
}

/// The versions chosen for the revisions `revs` in turn, or the first error.
pub open spec fn versions_for(npm_package: Seq<char>, revs: Seq<Seq<char>>, versions: NpmVersionsModel) -> Result<Seq<Seq<char>>, RevSyncErrorModel>
    decreases revs.len(),
{
    if revs.len() == 0 {
        Ok(Seq::empty())
    } else {
        match versions_for(npm_package, revs.drop_last(), versions) {
            Err(e) => Err(e),
            Ok(vs) => match version_lookup(npm_package, revs.last(), versions) {
                Ok(v) => Ok(vs.push(v)),
                Err(e) => Err(e),
            },
        }
    }
}

/// What to do next to synchronize the `-rev.` dependencies of one
/// `package.json`.
#[derive(Debug)]
pub enum RevSyncAction {
    /// Run `npm repo <package> --no-browser` and hand its output back, as
    /// the answer for this package.
    NpmRepo(String),
    /// Run `npm show <package> --json` and hand its output back, as the
    /// answer for this package.
    NpmShow(String),
    /// Write this text to the file; the `(package, version)` moves made, in
    /// order.
    Write(String, Vec<(String, String)>),
    /// Nothing moved: leave the file as it is.
    Unchanged,
}

pub enum RevSyncActionModel {
    NpmRepo(Seq<char>),
    NpmShow(Seq<char>),
    Write(Seq<char>, Seq<(Seq<char>, Seq<char>)>),
    Unchanged,
}

impl View for RevSyncAction {
    type V = RevSyncActionModel;

    open spec fn view(&self) -> RevSyncActionModel {
        match self {
            RevSyncAction::NpmRepo(p) => RevSyncActionModel::NpmRepo(p@),
            RevSyncAction::NpmShow(p) => RevSyncActionModel::NpmShow(p@),
            RevSyncAction::Write(t, moved) => RevSyncActionModel::Write(t@, pairs_model(moved@)),
            RevSyncAction::Unchanged => RevSyncActionModel::Unchanged,
        }
    }
}

/// Where a walk over the dependencies stands: the entries so far and the
/// moves made, or the package whose `npm repo` or `npm show` output it
/// needs, or the error that stops it.
pub enum RevWalk {
    Going(Seq<(Seq<char>, JsonModel)>, Seq<(Seq<char>, Seq<char>)>),
    AskRepo(Seq<char>),
    AskShow(Seq<char>),
    Failed(RevSyncErrorModel),
}

/// One dependency `entry` after the entries `done` and the moves `moved`: a
/// `<version>-rev.<revision>` string source moves, for each revision that
/// the flake lock holds for its repository at another revision, to the
/// version that `npm show` lists for it, and ends at the last; any other
/// entry stays.
pub open spec fn rev_dependency_step(
    done: Seq<(Seq<char>, JsonModel)>,
    moved: Seq<(Seq<char>, Seq<char>)>,
    entry: (Seq<char>, JsonModel),
    nodes: Seq<LockedRepo>,
    repo_answers: Seq<(String, String)>,
    show_answers: Seq<(String, String)>,
) -> RevWalk {
    let package = entry.0;
    match entry.1 {
        JsonModel::Str(s) => match rev_dependency_spec(s) {
            None => RevWalk::Going(done.push(entry), moved),
            Some((_, revision)) => match answer_for(repo_answers, package) {
                None => RevWalk::AskRepo(package),
                Some(out) => match repo_of_output(out) {
                    None => RevWalk::Failed(RevSyncErrorModel::NpmRepoError(package, sync_git::unrecognized_repo_message(out))),
                    Some((t, o, r)) => {
                        let revs = locked_revisions(t, o, r, revision, nodes);
                        if revs.len() == 0 {
                            RevWalk::Going(done.push(entry), moved)
                        } else {
                            match answer_for(show_answers, package) {
                                None => RevWalk::AskShow(package),
                                Some(show) => match versions_for(package, revs, versions_of(parsed_json(show))) {
                                    Err(e) => RevWalk::Failed(e),
                                    Ok(vs) => RevWalk::Going(
                                        done.push((package, JsonModel::Str(vs.last()))),
                                        moved + vs.map_values(|v: Seq<char>| (package, v)),
                                    ),
                                },
                            }
                        }
                    },
                },
            },
        },
        _ => RevWalk::Going(done.push(entry), moved),
    }
}

/// The walk over the dependencies `deps`, in order.
pub open spec fn rev_walk(
    deps: Seq<(Seq<char>, JsonModel)>,
    nodes: Seq<LockedRepo>,
    repo_answers: Seq<(String, String)>,
    show_answers: Seq<(String, String)>,
) -> RevWalk
    decreases deps.len(),
{
    if deps.len() == 0 {
        RevWalk::Going(Seq::empty(), Seq::empty())
    } else {
        match rev_walk(deps.drop_last(), nodes, repo_answers, show_answers) {
            RevWalk::Going(done, moved) => rev_dependency_step(done, moved, deps.last(), nodes, repo_answers, show_answers),
            stopped => stopped,
        }
    }
}

/// What one synchronization of the `package.json` text `text` does next,
/// given the flake lock's repository nodes and the `npm repo` and `npm show`
/// outputs recorded so far: read as JSON, its `dependencies` are walked in
/// order, and the file is written back pretty-printed where something moved.
pub open spec fn rev_sync(
    text: Seq<char>,
    nodes: Seq<LockedRepo>,
    repo_answers: Seq<(String, String)>,
    show_answers: Seq<(String, String)>,
) -> Result<RevSyncActionModel, RevSyncErrorModel> {
    match parsed_json(text) {
        Err(m) => Err(RevSyncErrorModel::SerdeJsonError(m)),
        Ok(root) => match dependencies_of(root) {
            Some((entries, d, deps)) => match rev_walk(deps, nodes, repo_answers, show_answers) {
                RevWalk::Going(done, moved) => if moved.len() > 0 {
                    Ok(RevSyncActionModel::Write(pretty_json(with_dependencies(entries, d, done)), moved))
                } else {
                    Ok(RevSyncActionModel::Unchanged)
                },
                RevWalk::AskRepo(p) => Ok(RevSyncActionModel::NpmRepo(p)),
                RevWalk::AskShow(p) => Ok(RevSyncActionModel::NpmShow(p)),
                RevWalk::Failed(e) => Err(e),
            },
            None => Ok(RevSyncActionModel::Unchanged),
        },
    }
}

/// Once the walk stops, it stops there whatever follows.
proof fn lemma_rev_walk_stops(
    deps: Seq<(Seq<char>, JsonModel)>,
    nodes: Seq<LockedRepo>,
    repo_answers: Seq<(String, String)>,
    show_answers: Seq<(String, String)>,
    i: int,
)
    requires
        0 <= i <= deps.len(),
        !(rev_walk(deps.take(i), nodes, repo_answers, show_answers) is Going),
    ensures
        rev_walk(deps, nodes, repo_answers, show_answers) == rev_walk(deps.take(i), nodes, repo_answers, show_answers),
    decreases deps.len(),
{
    if i < deps.len() {
        assert(deps.drop_last().take(i) =~= deps.take(i));
        lemma_rev_walk_stops(deps.drop_last(), nodes, repo_answers, show_answers, i);
    } else {
        assert(deps.take(i) =~= deps);
    }
}

/// The versions chosen for each revision in turn, read from the `npm show`
/// output `show`.
fn versions_for_revisions(npm_package: &str, revs: &Vec<String>, show: &str) -> (r: Result<Vec<String>, SynchronizeNpmGitDependenciesWithNixError>)
    ensures
        match r {
            Ok(vs) => versions_for(npm_package@, revs@.map_values(|x: String| x@), versions_of(parsed_json(show@)))
                == Ok::<Seq<Seq<char>>, RevSyncErrorModel>(vs@.map_values(|x: String| x@)),
            Err(e) => versions_for(npm_package@, revs@.map_values(|x: String| x@), versions_of(parsed_json(show@)))
                == Err::<Seq<Seq<char>>, RevSyncErrorModel>(e@),
        },
{
    let ghost rm = revs@.map_values(|x: String| x@);
    let ghost versions = versions_of(parsed_json(show@));
    let mut out: Vec<String> = Vec::new();
    let mut j: usize = 0;
    assert(rm.take(0) =~= Seq::<Seq<char>>::empty());
    assert(out@.map_values(|x: String| x@) =~= Seq::<Seq<char>>::empty());
    while j < revs.len()
        invariant
            j <= revs.len(),
            rm == revs@.map_values(|x: String| x@),
            versions == versions_of(parsed_json(show@)),
            versions_for(npm_package@, rm.take(j as int), versions) == Ok::<Seq<Seq<char>>, RevSyncErrorModel>(out@.map_values(|x: String| x@)),
        decreases revs.len() - j,
    {
        assert(rm.take(j + 1).drop_last() =~= rm.take(j as int));
        assert(rm.take(j + 1).last() == revs@[j as int]@);
        let r = version_for_revision(npm_package, revs[j].as_str(), show);
        proof {
            lemma_version_lookup(npm_package@, revs@[j as int]@, versions, r);
        }
        match r {
            Ok(v) => {
                let ghost b = out@;
                out.push(v);
                assert(out@.map_values(|x: String| x@) =~= b.map_values(|x: String| x@).push(out@.last()@));
            },
            Err(e) => {
                proof {
                    lemma_versions_for_stops(npm_package@, rm, versions, j as int + 1);
                    assert(rm.take(revs.len() as int) =~= rm);
                }
                return Err(e);
            },
        }
        j = j + 1;
    }
    assert(rm.take(revs.len() as int) =~= rm);
    Ok(out)
}

proof fn lemma_versions_for_stops(npm_package: Seq<char>, revs: Seq<Seq<char>>, versions: NpmVersionsModel, i: int)
    requires
        0 <= i <= revs.len(),
        versions_for(npm_package, revs.take(i), versions) is Err,
    ensures
        versions_for(npm_package, revs, versions) == versions_for(npm_package, revs.take(i), versions),
    decreases revs.len(),
{
    if i < revs.len() {
        assert(revs.drop_last().take(i) =~= revs.take(i));
        lemma_versions_for_stops(npm_package, revs.drop_last(), versions, i);
    } else {
        assert(revs.take(i) =~= revs);
    }
}

/// The walk of an exec value, as `rev_walk` describes it.
enum RevWalkDone {
    Going(Vec<(String, Json)>, Vec<(String, String)>),
    AskRepo(String),
    AskShow(String),
    Failed(SynchronizeNpmGitDependenciesWithNixError),
}

spec fn rev_walk_done_model(w: RevWalkDone) -> RevWalk {
    match w {
        RevWalkDone::Going(done, moved) => RevWalk::Going(entries_model(done@), pairs_model(moved@)),
        RevWalkDone::AskRepo(p) => RevWalk::AskRepo(p@),
        RevWalkDone::AskShow(p) => RevWalk::AskShow(p@),
        RevWalkDone::Failed(e) => RevWalk::Failed(e@),
    }
}

fn walk_rev_dependencies(
    deps: Vec<(String, Json)>,
    nodes: &Vec<LockedRepo>,
    repo_answers: &Vec<(String, String)>,
    show_answers: &Vec<(String, String)>,
) -> (r: RevWalkDone)
    ensures
        rev_walk_done_model(r) == rev_walk(entries_model(deps@), nodes@, repo_answers@, show_answers@),
{
    let ghost model = entries_model(deps@);
    let ghost n = deps@.len();
    assert(n == deps.len());
    let mut rest = deps;
    let mut done: Vec<(String, Json)> = Vec::new();
    let mut moved: Vec<(String, String)> = Vec::new();
    let mut i: usize = 0;
    assert(model.take(0) =~= Seq::<(Seq<char>, JsonModel)>::empty());
    assert(entries_model(done@) =~= Seq::<(Seq<char>, JsonModel)>::empty());
    assert(pairs_model(moved@) =~= Seq::<(Seq<char>, Seq<char>)>::empty());
    while rest.len() > 0
        invariant
            i + rest@.len() == n,
            n == model.len(),
            model == entries_model(deps@),
            n <= usize::MAX,
            forall|k: int| 0 <= k < rest@.len() ==> (#[trigger] rest@[k]).0@ == model[i + k].0 && rest@[k].1@ == model[i + k].1,
            rev_walk(model.take(i as int), nodes@, repo_answers@, show_answers@) == RevWalk::Going(entries_model(done@), pairs_model(moved@)),
        decreases rest.len(),
    {
        let ghost before_done = done@;
        let ghost before_moved = moved@;
        assert(rest@[0].0@ == model[i as int].0 && rest@[0].1@ == model[i as int].1);
        let (package, value) = rest.remove(0);
        assert(model.take(i + 1).drop_last() =~= model.take(i as int));
        assert(model.take(i + 1).last() == model[i as int]);
        let ghost step = rev_dependency_step(entries_model(done@), pairs_model(moved@), model[i as int], nodes@, repo_answers@, show_answers@);
        assert(rev_walk(model.take(i + 1), nodes@, repo_answers@, show_answers@) == step);
        match value {
            Json::Str(s) => {
                match rev_dependency(s.as_str()) {
                    None => {
                        done.push((package, Json::Str(s)));
                    },
                    Some((_version, revision)) => {
                        match find_answer(repo_answers, package.as_str()) {
                            None => {
                                proof {
                                    assert(step == RevWalk::AskRepo(package@));
                                    lemma_rev_walk_stops(model, nodes@, repo_answers@, show_answers@, i + 1);
                                }
                                return RevWalkDone::AskRepo(package);
                            },
                            Some(out) => {
                                match get_repo(package.as_str(), out.as_str()) {
                                    Err(e) => {
                                        proof {
                                            assert(step == RevWalk::Failed(e@));
                                            lemma_rev_walk_stops(model, nodes@, repo_answers@, show_answers@, i + 1);
                                        }
                                        return RevWalkDone::Failed(e);
                                    },
                                    Ok(repo) => {
                                        let revs = locked_revisions_to_sync(&repo, revision.as_str(), nodes);
                                        if revs.len() == 0 {
                                            done.push((package, Json::Str(s)));
                                        } else {
                                            match find_answer(show_answers, package.as_str()) {
                                                None => {
                                                    proof {
                                                        assert(step == RevWalk::AskShow(package@));
                                                        lemma_rev_walk_stops(model, nodes@, repo_answers@, show_answers@, i + 1);
                                                    }
                                                    return RevWalkDone::AskShow(package);
                                                },
                                                Some(show) => {
                                                    match versions_for_revisions(package.as_str(), &revs, show.as_str()) {
                                                        Err(e) => {
                                                            proof {
                                                                assert(step == RevWalk::Failed(e@));
                                                                lemma_rev_walk_stops(model, nodes@, repo_answers@, show_answers@, i + 1);
                                                            }
                                                            return RevWalkDone::Failed(e);
                                                        },
                                                        Ok(vs) => {
                                                            let ghost vm = vs@.map_values(|x: String| x@);
                                                            proof {
                                                                lemma_versions_for_len(package@, revs@.map_values(|x: String| x@), versions_of(parsed_json(show@)));
                                                            }
                                                            assert(vm.len() == vs@.len());
                                                            assert(vs.len() > 0);
                                                            let mut j: usize = 0;
                                                            while j < vs.len()
                                                                invariant
                                                                    j <= vs.len(),
                                                                    vm == vs@.map_values(|x: String| x@),
                                                                    pairs_model(moved@) == pairs_model(before_moved)
                                                                        + vm.take(j as int).map_values(|v: Seq<char>| (package@, v)),
                                                                decreases vs.len() - j,
                                                            {
                                                                let ghost b = moved@;
                                                                moved.push((package.clone(), vs[j].clone()));
                                                                assert(pairs_model(moved@) =~= pairs_model(b).push((package@, vm[j as int])));
                                                                assert(vm.take(j + 1).map_values(|v: Seq<char>| (package@, v))
                                                                    =~= vm.take(j as int).map_values(|v: Seq<char>| (package@, v)).push((package@, vm[j as int])));
                                                                j = j + 1;
                                                            }
                                                            assert(vm.take(vs.len() as int) =~= vm);
                                                            let last = vs[vs.len() - 1].clone();
                                                            assert(last@ == vm.last());
                                                            done.push((package, Json::Str(last)));
                                                        },
                                                    }
                                                },
                                            }
                                        }
                                    },
                                }
                            },
                        }
                    },
                }
            },
            other => {
                done.push((package, other));
            },
        }
        assert(entries_model(done@) =~= entries_model(before_done).push(entries_model(done@).last()));
        i = i + 1;
    }
    assert(model.take(n as int) =~= model);
    RevWalkDone::Going(done, moved)
}

proof fn lemma_versions_for_len(npm_package: Seq<char>, revs: Seq<Seq<char>>, versions: NpmVersionsModel)
    ensures
        versions_for(npm_package, revs, versions) matches Ok(vs) ==> vs.len() == revs.len(),
    decreases revs.len(),
{
    if revs.len() > 0 {
        lemma_versions_for_len(npm_package, revs.drop_last(), versions);
    }
}

/// The result of a synchronization step by its views.
pub open spec fn rev_sync_result(r: Result<RevSyncAction, SynchronizeNpmGitDependenciesWithNixError>) -> Result<RevSyncActionModel, RevSyncErrorModel> {
    match r {
        Ok(a) => Ok(a@),
        Err(e) => Err(e@),
    }
}

/// What one synchronization of the `-rev.` dependencies of a `package.json`
/// does next, given its text, the repository nodes of the flake lock and
/// the `npm repo` and `npm show` outputs recorded so far, each with its
/// package: ask for an output that a dependency still needs, stop at an
/// error, write the file back where something moved, or leave it.
pub fn next_rev_sync_action(
    package_json: &str,
    nodes: &Vec<LockedRepo>,
    npm_repo_outputs: &Vec<(String, String)>,
    npm_show_outputs: &Vec<(String, String)>,
) -> (r: Result<RevSyncAction, SynchronizeNpmGitDependenciesWithNixError>)
    ensures
        rev_sync_result(r) == rev_sync(package_json@, nodes@, npm_repo_outputs@, npm_show_outputs@),
{
    let root = match parse_json(package_json) {
        Ok(j) => j,
        Err(m) => return Err(SynchronizeNpmGitDependenciesWithNixError::SerdeJsonError(m)),
    };
    let ghost root_model = root@;
    match root {
        Json::Object(mut entries) => {
            proof {
                lemma_object_model(entries);
                reveal_strlit("dependencies");
            }
            let ghost em = entries_model(entries@);
            match find_key(&entries, "dependencies") {
                Some(d) => {
                    proof {
                        lemma_key_index_bounds(em, "dependencies"@);
                    }
                    let (key, deps) = entries.remove(d);
                    assert(em[d as int] == (key@, deps@));
                    match deps {
                        Json::Object(dep_entries) => {
                            proof {
                                lemma_object_model(dep_entries);
                            }
                            assert(dependencies_of(root_model) == Some((em, d as int, entries_model(dep_entries@))));
                            match walk_rev_dependencies(dep_entries, nodes, npm_repo_outputs, npm_show_outputs) {
                                RevWalkDone::Going(done, moved) => {
                                    if moved.len() == 0 {
                                        return Ok(RevSyncAction::Unchanged);
                                    }
                                    let ghost dm = entries_model(done@);
                                    proof {
                                        lemma_object_model(done);
                                    }
                                    entries.insert(d, (key, Json::Object(done)));
                                    assert(entries_model(entries@) =~= em.update(d as int, (em[d as int].0, JsonModel::Object(dm))));
                                    let root2 = Json::Object(entries);
                                    proof {
                                        lemma_object_model(entries);
                                    }
                                    assert(root2@ == with_dependencies(em, d as int, dm));
                                    match to_pretty_json(&root2) {
                                        Ok(text) => Ok(RevSyncAction::Write(text, moved)),
                                        Err(_) => {
                                            proof {
                                                assert(false);
                                            }
                                            Ok(RevSyncAction::Unchanged)
                                        },
                                    }
                                },
                                RevWalkDone::AskRepo(p) => Ok(RevSyncAction::NpmRepo(p)),
                                RevWalkDone::AskShow(p) => Ok(RevSyncAction::NpmShow(p)),
                                RevWalkDone::Failed(e) => Err(e),
                            }
                        },
                        other => {
                            assert(!(other@ is Object)) by {
                                match other {
                                    Json::Object(v) => {},
                                    _ => {},
                                }
                            }
                            assert(dependencies_of(root_model) is None);
                            Ok(RevSyncAction::Unchanged)
                        },
                    }
                },
                None => {
                    assert(dependencies_of(root_model) is None);
                    Ok(RevSyncAction::Unchanged)
                },
            }
        },
        other => {
            assert(!(other@ is Object)) by {
                match other {
                    Json::Object(v) => {},
                    _ => {},
                }
            }
            Ok(RevSyncAction::Unchanged)
        },
    }
}

} // verus!
