//! Properties of the scaffolding edits that hold across inputs.

use vstd::prelude::*;
use crate::text::{matches_at, contains_seq, ends_with_seq};
use crate::context::{
    with_context, context_added_to_file, has_context_block, with_context_element, is_context_split,
    context_wrapped, indentation, indent_lines, close_tag, lemma_context_split_unique,
};
use crate::paths::{is_within_folder, parent_folder, is_last_slash};
use crate::dna::{nixified_dnas, manifest_text_name, dnas_of_manifest, ManifestNameModel, NixifiedDnaModel, DnaSearchFailure};
use crate::npm::is_default_package;
use crate::nix::{
    added_zomes_to_dna_nix_file, inserted_at, is_closest_marker, several_markers, zome_attributes, zomes_marker,
};
use crate::git_repo::{GitRepo, LockedRepo, revisions_to_sync, locked_revisions, locks};
use crate::sync_git::{rev_tag_prefix, rev_tag_revision_spec, rev_tag_match};
use crate::sync_rev::{
    rev_infix, rev_dependency_spec, has_no_newline, is_last_infix, RevWalk, RevSyncActionModel, rev_walk, rev_sync,
    rev_dependency_step, versions_for, version_lookup, versions_of,
};
use crate::sync_git::{
    GitWalk, GitSyncActionModel, git_walk, git_sync, git_dependency_step, dependencies_of, with_dependencies,
};
use crate::json::{JsonModel, parsed_json, key_index};
use crate::git_repo::{answer_for, repo_of_output};
use crate::prompts::{TneshZomeAnswers, TneshZomeStep, is_next_step};

verus! {

/// Adding a context element changes no file outside the folder of the
/// chosen `package.json`.
pub proof fn law_files_outside_the_package_are_unchanged(
    path: Seq<char>,
    contents: Seq<char>,
    package_json_path: Seq<char>,
    role: Seq<char>,
    element: Seq<char>,
    import: Seq<char>,
)
    requires
        !is_within_folder(path, parent_folder(package_json_path)),
    ensures
        context_added_to_file(path, contents, package_json_path, role, element, import) == contents,
{
}

/// A file without an `<app-client-context ...>...</app-client-context>`
/// block is left as it is.
pub proof fn law_files_without_context_block_are_unchanged(
    path: Seq<char>,
    contents: Seq<char>,
    package_json_path: Seq<char>,
    role: Seq<char>,
    element: Seq<char>,
    import: Seq<char>,
)
    requires
        !has_context_block(contents),
    ensures
        context_added_to_file(path, contents, package_json_path, role, element, import) == contents,
{
}

/// The parts of a concatenation.
proof fn lemma_three_parts(a: Seq<char>, m: Seq<char>, c: Seq<char>)
    ensures
        ({
            let w = a + m + c;
            &&& w.len() == a.len() + m.len() + c.len()
            &&& w.subrange(0, a.len() as int) == a
            &&& w.subrange(w.len() - c.len(), w.len() as int) == c
            &&& w.subrange(a.len() as int, w.len() - c.len()) == m
        }),
{
    let w = a + m + c;
    assert(w.subrange(0, a.len() as int) =~= a);
    assert(w.subrange(w.len() - c.len(), w.len() as int) =~= c);
    assert(w.subrange(a.len() as int, w.len() - c.len()) =~= m);
}

/// Wrapping the context block keeps everything up to the end of its opening
/// tag, and everything from its closing tag on; between them stand the new
/// element and, inside it, the former children of the block, each line
/// indented two more spaces.
#[verifier::rlimit(40)]
pub proof fn law_context_block_is_wrapped_in_place(t: Seq<char>, role: Seq<char>, element: Seq<char>, b: int, g: int, e: int)
    requires
        is_context_split(t, b, g, e),
    ensures
        ({
            let w = with_context_element(t, role, element);
            let tail = t.len() - e;
            &&& w.len() >= g + 1 + tail
            &&& w.subrange(0, g + 1) == t.subrange(0, g + 1)
            &&& w.subrange(w.len() - tail, w.len() as int) == t.subrange(e, t.len() as int)
            &&& w.subrange(g + 1, w.len() - tail) == seq!['\n'] + indentation(t) + seq![' ', ' ', '<'] + element
                + seq![' ', 'r', 'o', 'l', 'e', '=', '"'] + role + seq!['"', '>'] + indent_lines(t.subrange(g + 1, e))
                + seq!['<', '/'] + element + seq!['>', '\n'] + indentation(t)
        }),
{
    let (b2, g2, e2) = choose|b2: int, g2: int, e2: int| is_context_split(t, b2, g2, e2);
    lemma_context_split_unique(t, b, g, e, b2, g2, e2);
    let w = with_context_element(t, role, element);
    let ind = indentation(t);
    assert(w == context_wrapped(t, g, e, ind, role, element));
    let a = t.subrange(0, g + 1);
    let c = t.subrange(e, t.len() as int);
    let mid = seq!['\n'] + ind + seq![' ', ' ', '<'] + element + seq![' ', 'r', 'o', 'l', 'e', '=', '"']
        + role + seq!['"', '>'] + indent_lines(t.subrange(g + 1, e)) + seq!['<', '/'] + element + seq!['>', '\n']
        + ind;
    assert(t.subrange(e, e + 21) =~= close_tag());
    assert(close_tag() + t.subrange(e + 21, t.len() as int) =~= c);
    assert(w =~= a + mid + c);
    lemma_three_parts(a, mid, c);
}

/// When a nix file has several `zomes = {`, adding zomes only inserts the
/// zome lines right after the one closest to the DNA's manifest reference:
/// taking them out again gives back the file.
pub proof fn law_zomes_are_only_inserted(
    nix_path: Seq<char>,
    contents: Seq<char>,
    reference_index: int,
    module_name: Seq<char>,
    integrity: Option<Seq<char>>,
    coordinator: Option<Seq<char>>,
    edited: String,
)
    requires
        integrity is Some || coordinator is Some,
        several_markers(contents),
        added_zomes_to_dna_nix_file(nix_path, contents, reference_index, module_name, integrity, coordinator, Ok(edited)),
    ensures
        exists|p: int| {
            let add = zome_attributes(module_name, integrity, coordinator);
            &&& #[trigger] is_closest_marker(contents, reference_index, p)
            &&& edited@.subrange(0, p + 9) == contents.subrange(0, p + 9)
            &&& edited@.subrange(p + 9, p + 9 + add.len()) == add
            &&& edited@.subrange(0, p + 9) + edited@.subrange(p + 9 + add.len(), edited@.len() as int) == contents
        },
{
    let add = zome_attributes(module_name, integrity, coordinator);
    let (q0, q1) = choose|q0: int, q1: int| q0 != q1 && #[trigger] matches_at(contents, q0, zomes_marker()) && #[trigger] matches_at(contents, q1, zomes_marker());
    assert(!forall|q: int| !#[trigger] matches_at(contents, q, zomes_marker()));
    let p = choose|p: int| #[trigger] is_closest_marker(contents, reference_index, p)
        && (Ok::<String, crate::error::ScaffoldRemoteZomeError>(edited) matches Ok(s) && s@ == inserted_at(contents, p + 9, add));
    assert(matches_at(contents, p, zomes_marker()));
    let s = edited@;
    assert(s == inserted_at(contents, p + 9, add));
    assert(s.subrange(0, p + 9) =~= contents.subrange(0, p + 9));
    assert(s.subrange(p + 9, p + 9 + add.len()) =~= add);
    assert(s.subrange(0, p + 9) + s.subrange(p + 9 + add.len(), s.len() as int) =~= contents);
}

/// Where every node of the repository pins `revision`, there is no revision
/// to move to.
proof fn lemma_stays(t: Seq<char>, o: Seq<char>, r: Seq<char>, revision: Seq<char>, nodes: Seq<LockedRepo>)
    requires
        forall|i: int| 0 <= i < nodes.len() && locks(t, o, r, #[trigger] nodes[i]) ==> nodes[i].rev@ == revision,
    ensures
        locked_revisions(t, o, r, revision, nodes).len() == 0,
    decreases nodes.len(),
{
    if nodes.len() > 0 {
        let d = nodes.drop_last();
        assert forall|i: int| 0 <= i < d.len() && locks(t, o, r, #[trigger] d[i]) implies d[i].rev@ == revision by {
            assert(d[i] == nodes[i]);
        }
        lemma_stays(t, o, r, revision, d);
        assert(nodes.last() == nodes[nodes.len() - 1]);
    }
}

/// A dependency that already pins the revision that the flake lock holds
/// for its repository is not moved.
pub proof fn law_synchronized_dependencies_stay(repo: GitRepo, revision: Seq<char>, nodes: Seq<LockedRepo>)
    requires
        forall|i: int| 0 <= i < nodes.len() && (#[trigger] nodes[i]).node_type@ == repo.git_type@
            && nodes[i].owner@ == repo.owner@ && nodes[i].repo@ == repo.repo@ ==> nodes[i].rev@ == revision,
    ensures
        revisions_to_sync(repo, revision, nodes).len() == 0,
{
    lemma_stays(repo.git_type@, repo.owner@, repo.repo@, revision, nodes);
}

/// The revision read back from the `rev-tag` source written for a revision
/// is that revision (a revision holds no newline).
pub proof fn law_rev_tag_round_trip(rev: Seq<char>)
    requires
        forall|k: int| 0 <= k < rev.len() ==> #[trigger] rev[k] != '\n',
    ensures
        rev_tag_revision_spec(rev_tag_prefix() + rev) == Some(rev),
{
    reveal(rev_tag_revision_spec);
    let t = rev_tag_prefix() + rev;
    lemma_rev_tag_at_start(rev);
    let p = choose|p: int| #[trigger] rev_tag_match(t, p) && forall|q: int| #[trigger] rev_tag_match(t, q) ==> p <= q;
    assert(p <= 0);
    assert(t.subrange(8, t.len() as int) =~= rev);
}

proof fn lemma_rev_tag_at_start(rev: Seq<char>)
    requires
        forall|k: int| 0 <= k < rev.len() ==> #[trigger] rev[k] != '\n',
    ensures
        rev_tag_match(rev_tag_prefix() + rev, 0),
{
    let t = rev_tag_prefix() + rev;
    assert(t.subrange(0, 8) =~= rev_tag_prefix());
    assert forall|k: int| 8 <= k < t.len() implies #[trigger] t[k] != '\n' by {
        assert(t[k] == rev[k - 8]);
    }
}

/// `node` is a locked node of the repository `repo`.
pub open spec fn locks_repo(repo: GitRepo, node: LockedRepo) -> bool {
    locks(repo.git_type@, repo.owner@, repo.repo@, node)
}

/// The nodes of the repository `r` of `o` on `t` all pin one revision, which
/// holds no newline.
pub open spec fn locked_at_one_revision(t: Seq<char>, o: Seq<char>, r: Seq<char>, nodes: Seq<LockedRepo>) -> bool {
    &&& forall|i: int, j: int| 0 <= i < nodes.len() && 0 <= j < nodes.len() && locks(t, o, r, #[trigger] nodes[i])
        && locks(t, o, r, #[trigger] nodes[j]) ==> nodes[i].rev@ == nodes[j].rev@
    &&& forall|i: int| 0 <= i < nodes.len() && locks(t, o, r, #[trigger] nodes[i]) ==> has_no_newline(nodes[i].rev@)
}

/// Where every node of the repository pins `l`, every revision to move to
/// is `l`.
proof fn lemma_revisions_to_sync_are(t: Seq<char>, o: Seq<char>, r: Seq<char>, revision: Seq<char>, nodes: Seq<LockedRepo>, l: Seq<char>)
    requires
        forall|i: int| 0 <= i < nodes.len() && locks(t, o, r, #[trigger] nodes[i]) ==> nodes[i].rev@ == l,
    ensures
        forall|k: int| 0 <= k < locked_revisions(t, o, r, revision, nodes).len()
            ==> #[trigger] locked_revisions(t, o, r, revision, nodes)[k] == l,
    decreases nodes.len(),
{
    if nodes.len() > 0 {
        let d = nodes.drop_last();
        assert forall|i: int| 0 <= i < d.len() && locks(t, o, r, #[trigger] d[i]) implies d[i].rev@ == l by {
            assert(d[i] == nodes[i]);
        }
        lemma_revisions_to_sync_are(t, o, r, revision, d, l);
        assert(nodes.last() == nodes[nodes.len() - 1]);
        let earlier = locked_revisions(t, o, r, revision, d);
        let revs = locked_revisions(t, o, r, revision, nodes);
        assert forall|k: int| 0 <= k < revs.len() implies #[trigger] revs[k] == l by {
            if k < earlier.len() {
                assert(revs[k] == earlier[k]);
            }
        }
    }
}

/// A node of the repository at another revision leaves a revision to move
/// to.
proof fn lemma_revisions_to_sync_nonempty(t: Seq<char>, o: Seq<char>, r: Seq<char>, revision: Seq<char>, nodes: Seq<LockedRepo>, i0: int)
    requires
        0 <= i0 < nodes.len(),
        locks(t, o, r, nodes[i0]),
        nodes[i0].rev@ != revision,
    ensures
        locked_revisions(t, o, r, revision, nodes).len() > 0,
    decreases nodes.len(),
{
    if i0 < nodes.len() - 1 {
        let d = nodes.drop_last();
        assert(d[i0] == nodes[i0]);
        lemma_revisions_to_sync_nonempty(t, o, r, revision, d, i0);
    } else {
        assert(nodes.last() == nodes[i0]);
    }
}

/// The nodes of the repository all pin one revision, and none holds a
/// newline: then a dependency pinned at `revision` ends, after one
/// synchronization, at a revision that leaves nothing to move to: where
/// something moves, the revisions to move to are all that one revision.
proof fn lemma_synchronized_revision(t: Seq<char>, o: Seq<char>, r: Seq<char>, revision: Seq<char>, nodes: Seq<LockedRepo>)
    requires
        forall|i: int, j: int| 0 <= i < nodes.len() && 0 <= j < nodes.len() && locks(t, o, r, #[trigger] nodes[i])
            && locks(t, o, r, #[trigger] nodes[j]) ==> nodes[i].rev@ == nodes[j].rev@,
        forall|i: int| 0 <= i < nodes.len() && locks(t, o, r, #[trigger] nodes[i]) ==> has_no_newline(nodes[i].rev@),
    ensures
        locked_revisions(t, o, r, revision, nodes).len() > 0 ==> {
            let last = locked_revisions(t, o, r, revision, nodes).last();
            &&& has_no_newline(last)
            &&& locked_revisions(t, o, r, last, nodes).len() == 0
            &&& exists|i: int| 0 <= i < nodes.len() && #[trigger] nodes[i].rev@ == last
        },
{
    let revs = locked_revisions(t, o, r, revision, nodes);
    if revs.len() > 0 {
        if forall|i: int| 0 <= i < nodes.len() ==> !locks(t, o, r, #[trigger] nodes[i]) {
            lemma_stays(t, o, r, revision, nodes);
        }
        let i0 = choose|i: int| 0 <= i < nodes.len() && locks(t, o, r, #[trigger] nodes[i]);
        let l = nodes[i0].rev@;
        assert forall|i: int| 0 <= i < nodes.len() && locks(t, o, r, #[trigger] nodes[i]) implies nodes[i].rev@ == l by {
            assert(locks(t, o, r, nodes[i0]));
        }
        lemma_revisions_to_sync_are(t, o, r, revision, nodes, l);
        assert(revs.last() == revs[revs.len() - 1]);
        lemma_stays(t, o, r, l, nodes);
        assert(nodes[i0].rev@ == revs.last());
    }
}

/// A `rev-tag` dependency synchronized once is not moved by a second
/// synchronization: where the nodes of its repository in the flake lock all
/// pin one revision, holding no newline, the source written (or kept, when
/// nothing was to move) reads back as a revision that leaves nothing to move
/// to.
pub proof fn law_rev_tag_synchronization_is_idempotent(
    repo: GitRepo,
    nodes: Seq<LockedRepo>,
    source: Seq<char>,
    revision: Seq<char>,
)
    requires
        rev_tag_revision_spec(source) == Some(revision),
        forall|i: int, j: int| 0 <= i < nodes.len() && 0 <= j < nodes.len() && locks_repo(repo, #[trigger] nodes[i])
            && locks_repo(repo, #[trigger] nodes[j]) ==> nodes[i].rev@ == nodes[j].rev@,
        forall|i: int| 0 <= i < nodes.len() && locks_repo(repo, #[trigger] nodes[i]) ==> has_no_newline(nodes[i].rev@),
    ensures
        ({
            let revs = revisions_to_sync(repo, revision, nodes);
            let synchronized = if revs.len() == 0 { source } else { rev_tag_prefix() + revs.last() };
            rev_tag_revision_spec(synchronized) matches Some(again) && revisions_to_sync(repo, again, nodes).len() == 0
        }),
{
    lemma_synchronized_revision(repo.git_type@, repo.owner@, repo.repo@, revision, nodes);
    let revs = revisions_to_sync(repo, revision, nodes);
    if revs.len() > 0 {
        law_rev_tag_round_trip(revs.last());
    }
}

/// The version and revision read back from a version that ends with
/// `-rev.` and a revision holding no `-rev.`: what stands before, and that
/// revision.
pub proof fn law_rev_version_round_trip(version: Seq<char>, rev: Seq<char>)
    requires
        has_no_newline(version),
        ends_with_seq(version, rev_infix() + rev),
        !contains_seq(rev, rev_infix()),
    ensures
        rev_dependency_spec(version) == Some((version.subrange(0, version.len() - rev.len() - 5), rev)),
{
    let q = version.len() - rev.len() - 5;
    let tail = rev_infix() + rev;
    assert(version.subrange(q, version.len() as int) == tail);
    assert(version.subrange(q, q + 5) =~= rev_infix()) by {
        assert forall|k: int| 0 <= k < 5 implies version.subrange(q, q + 5)[k] == rev_infix()[k] by {
            assert(version[q + k] == tail[k]);
        }
    }
    assert(matches_at(version, q, rev_infix()));
    assert forall|q2: int| #[trigger] matches_at(version, q2, rev_infix()) implies q2 <= q by {
        if q2 > q {
            assert(version.subrange(q2, q2 + 5)[0] == '-');
            assert(version[q2] == '-');
            if q2 < q + 5 {
                assert(version[q2] == tail[q2 - q]);
            } else {
                let j = q2 - q - 5;
                assert(rev.subrange(j, j + 5) =~= rev_infix()) by {
                    assert forall|k: int| 0 <= k < 5 implies rev.subrange(j, j + 5)[k] == rev_infix()[k] by {
                        assert(version.subrange(q2, q2 + 5)[k] == rev_infix()[k]);
                        assert(version[q2 + k] == tail[q2 + k - q]);
                    }
                }
                assert(matches_at(rev, j, rev_infix()));
            }
        }
    }
    assert(is_last_infix(version, q));
    let q3 = choose|q3: int| #[trigger] is_last_infix(version, q3);
    assert(q3 <= q && q <= q3);
    assert(version.subrange(q + 5, version.len() as int) =~= rev) by {
        assert forall|k: int| 0 <= k < rev.len() implies version.subrange(q + 5, version.len() as int)[k] == rev[k] by {
            assert(version[q + 5 + k] == tail[5 + k]);
        }
    }
}

/// A `-rev.` dependency synchronized once is not moved by a second
/// synchronization: where the nodes of its repository in the flake lock all
/// pin one revision, holding no newline, and the version picked for the
/// revision to move to holds no newline and ends with `-rev.` and that
/// revision, which holds no `-rev.`, the version written (or kept, when
/// nothing was to move) reads back as a revision that leaves nothing to move
/// to.
pub proof fn law_rev_synchronization_is_idempotent(
    repo: GitRepo,
    nodes: Seq<LockedRepo>,
    source: Seq<char>,
    version: Seq<char>,
    revision: Seq<char>,
    synchronized: Seq<char>,
)
    requires
        rev_dependency_spec(source) == Some((version, revision)),
        forall|i: int, j: int| 0 <= i < nodes.len() && 0 <= j < nodes.len() && locks_repo(repo, #[trigger] nodes[i])
            && locks_repo(repo, #[trigger] nodes[j]) ==> nodes[i].rev@ == nodes[j].rev@,
        forall|i: int| 0 <= i < nodes.len() && locks_repo(repo, #[trigger] nodes[i]) ==> has_no_newline(nodes[i].rev@),
        revisions_to_sync(repo, revision, nodes).len() == 0 ==> synchronized == source,
        revisions_to_sync(repo, revision, nodes).len() > 0 ==> {
            let rev = revisions_to_sync(repo, revision, nodes).last();
            &&& has_no_newline(synchronized)
            &&& ends_with_seq(synchronized, rev_infix() + rev)
            &&& !contains_seq(rev, rev_infix())
        },
    ensures
        rev_dependency_spec(synchronized) matches Some((_, again)) && revisions_to_sync(repo, again, nodes).len() == 0,
{
    lemma_synchronized_revision(repo.git_type@, repo.owner@, repo.repo@, revision, nodes);
    let revs = revisions_to_sync(repo, revision, nodes);
    if revs.len() > 0 {
        law_rev_version_round_trip(synchronized, revs.last());
    }
}

/// Two object entry sequences with the same keys find a key at the same
/// index.
proof fn lemma_key_index_same_keys(a: Seq<(Seq<char>, JsonModel)>, b: Seq<(Seq<char>, JsonModel)>, key: Seq<char>)
    requires
        a.len() == b.len(),
        forall|i: int| 0 <= i < a.len() ==> (#[trigger] a[i]).0 == b[i].0,
    ensures
        key_index(a, key) == key_index(b, key),
    decreases a.len(),
{
    if a.len() > 0 {
        assert forall|i: int| 0 <= i < a.drop_last().len() implies (#[trigger] a.drop_last()[i]).0 == b.drop_last()[i].0 by {
            assert(a.drop_last()[i] == a[i]);
            assert(b.drop_last()[i] == b[i]);
        }
        lemma_key_index_same_keys(a.drop_last(), b.drop_last(), key);
        assert(a.last().0 == b.last().0);
    }
}

/// The `dependencies` found again in a root whose dependencies were
/// replaced, and replacing them once more by the same gives the same root.
proof fn lemma_dependencies_again(entries: Seq<(Seq<char>, JsonModel)>, d: int, deps: Seq<(Seq<char>, JsonModel)>, done: Seq<(Seq<char>, JsonModel)>)
    requires
        dependencies_of(JsonModel::Object(entries)) == Some((entries, d, deps)),
    ensures
        ({
            let w = with_dependencies(entries, d, done);
            let e2 = entries.update(d, (entries[d].0, JsonModel::Object(done)));
            &&& w == JsonModel::Object(e2)
            &&& dependencies_of(w) == Some((e2, d, done))
            &&& with_dependencies(e2, d, done) == w
        }),
{
    let e2 = entries.update(d, (entries[d].0, JsonModel::Object(done)));
    crate::json::lemma_key_index_bounds(entries, "dependencies"@);
    lemma_key_index_same_keys(e2, entries, "dependencies"@);
    assert(e2.update(d, (e2[d].0, JsonModel::Object(done))) =~= e2);
}

/// Every repository that an `npm repo` output recorded for a package names
/// is locked at one revision, holding no newline.
pub open spec fn recorded_repos_locked_once(answers: Seq<(String, String)>, nodes: Seq<LockedRepo>) -> bool {
    forall|p: Seq<char>| #![trigger answer_for(answers, p)]
        answer_for(answers, p) is Some && repo_of_output(answer_for(answers, p)->Some_0) is Some ==> {
            let (t, o, r) = repo_of_output(answer_for(answers, p)->Some_0)->Some_0;
            locked_at_one_revision(t, o, r, nodes)
        }
}

/// After one walk, walking the entries it wrote moves nothing and writes
/// them again.
proof fn lemma_git_walk_fixpoint(deps: Seq<(Seq<char>, JsonModel)>, nodes: Seq<LockedRepo>, answers: Seq<(String, String)>)
    requires
        recorded_repos_locked_once(answers, nodes),
        git_walk(deps, nodes, answers) is Going,
    ensures
        git_walk(deps, nodes, answers) matches GitWalk::Going(done, _)
            && git_walk(done, nodes, answers) == GitWalk::Going(done, Seq::empty()),
    decreases deps.len(),
{
    if deps.len() > 0 {
        let prev = deps.drop_last();
        lemma_git_walk_fixpoint(prev, nodes, answers);
        let done_prev = git_walk(prev, nodes, answers)->Going_0;
        let moved_prev = git_walk(prev, nodes, answers)->Going_1;
        let entry = deps.last();
        let package = entry.0;
        let done = git_walk(deps, nodes, answers)->Going_0;
        assert(done.drop_last() =~= done_prev);
        let x = done.last();
        assert(git_walk(done, nodes, answers) == git_dependency_step(done_prev, Seq::empty(), x, nodes, answers));
        if let JsonModel::Str(s) = entry.1 {
            if let Some(revision) = rev_tag_revision_spec(s) {
                let out = answer_for(answers, package)->Some_0;
                let (t, o, r) = repo_of_output(out)->Some_0;
                let revs = locked_revisions(t, o, r, revision, nodes);
                if revs.len() > 0 {
                    assert(locked_at_one_revision(t, o, r, nodes));
                    lemma_synchronized_revision(t, o, r, revision, nodes);
                    law_rev_tag_round_trip(revs.last());
                }
            }
        }
    }
}

/// The value that one synchronization of the `rev-tag` dependencies of
/// `text` writes back.
pub open spec fn git_written_value(text: Seq<char>, nodes: Seq<LockedRepo>, answers: Seq<(String, String)>) -> JsonModel {
    match parsed_json(text) {
        Ok(root) => match dependencies_of(root) {
            Some((entries, d, deps)) => match git_walk(deps, nodes, answers) {
                GitWalk::Going(done, _) => with_dependencies(entries, d, done),
                _ => root,
            },
            None => root,
        },
        Err(_) => JsonModel::Null,
    }
}

/// Synchronizing the `rev-tag` dependencies of a `package.json` a second
/// time, with the same flake lock and `npm repo` outputs, moves nothing and
/// writes the file back byte for byte as the first time: where every
/// repository that the outputs name is locked at one revision holding no
/// newline, and the text written the first time reads back as the value it
/// was written from.
pub proof fn law_git_sync_is_idempotent(
    text: Seq<char>,
    nodes: Seq<LockedRepo>,
    answers: Seq<(String, String)>,
    written: Seq<char>,
    moved: Seq<(Seq<char>, Seq<char>)>,
)
    requires
        git_sync(text, nodes, answers) == Ok::<GitSyncActionModel, crate::sync_git::GitSyncErrorModel>(GitSyncActionModel::Write(written, moved)),
        parsed_json(written) == Ok::<JsonModel, Seq<char>>(git_written_value(text, nodes, answers)),
        recorded_repos_locked_once(answers, nodes),
    ensures
        git_sync(written, nodes, answers) == Ok::<GitSyncActionModel, crate::sync_git::GitSyncErrorModel>(
            GitSyncActionModel::Write(written, Seq::empty()),
        ),
{
    let root = parsed_json(text)->Ok_0;
    if let Some((entries, d, deps)) = dependencies_of(root) {
        lemma_git_walk_fixpoint(deps, nodes, answers);
        let done = git_walk(deps, nodes, answers)->Going_0;
        assert(root == JsonModel::Object(entries));
        lemma_dependencies_again(entries, d, deps, done);
    }
}

/// Every version that an `npm show` output recorded for a package gives
/// for a revision holds no newline and ends with `-rev.` and that revision.
pub open spec fn recorded_versions_end_with_their_revision(show_answers: Seq<(String, String)>) -> bool {
    forall|p: Seq<char>, rev: Seq<char>| #![trigger answer_for(show_answers, p), version_lookup(p, rev, versions_of(parsed_json(answer_for(show_answers, p)->Some_0)))]
        answer_for(show_answers, p) is Some
            && version_lookup(p, rev, versions_of(parsed_json(answer_for(show_answers, p)->Some_0))) is Ok ==> {
            let v = version_lookup(p, rev, versions_of(parsed_json(answer_for(show_answers, p)->Some_0)))->Ok_0;
            has_no_newline(v) && ends_with_seq(v, rev_infix() + rev)
        }
}

/// No locked revision holds `-rev.`.
pub open spec fn revisions_without_rev_infix(nodes: Seq<LockedRepo>) -> bool {
    forall|i: int| 0 <= i < nodes.len() ==> !contains_seq(#[trigger] nodes[i].rev@, rev_infix())
}

/// After one walk, walking the entries it wrote moves nothing and writes
/// them again.
proof fn lemma_rev_walk_fixpoint(
    deps: Seq<(Seq<char>, JsonModel)>,
    nodes: Seq<LockedRepo>,
    repo_answers: Seq<(String, String)>,
    show_answers: Seq<(String, String)>,
)
    requires
        recorded_repos_locked_once(repo_answers, nodes),
        recorded_versions_end_with_their_revision(show_answers),
        revisions_without_rev_infix(nodes),
        rev_walk(deps, nodes, repo_answers, show_answers) is Going,
    ensures
        rev_walk(deps, nodes, repo_answers, show_answers) matches RevWalk::Going(done, _)
            && rev_walk(done, nodes, repo_answers, show_answers) == RevWalk::Going(done, Seq::empty()),
    decreases deps.len(),
{
    if deps.len() > 0 {
        let prev = deps.drop_last();
        lemma_rev_walk_fixpoint(prev, nodes, repo_answers, show_answers);
        let done_prev = rev_walk(prev, nodes, repo_answers, show_answers)->Going_0;
        let entry = deps.last();
        let package = entry.0;
        let done = rev_walk(deps, nodes, repo_answers, show_answers)->Going_0;
        assert(done.drop_last() =~= done_prev);
        let x = done.last();
        assert(rev_walk(done, nodes, repo_answers, show_answers) == rev_dependency_step(
            done_prev, Seq::empty(), x, nodes, repo_answers, show_answers));
        if let JsonModel::Str(s) = entry.1 {
            if let Some((_, revision)) = rev_dependency_spec(s) {
                let out = answer_for(repo_answers, package)->Some_0;
                let (t, o, r) = repo_of_output(out)->Some_0;
                let revs = locked_revisions(t, o, r, revision, nodes);
                if revs.len() > 0 {
                    assert(locked_at_one_revision(t, o, r, nodes));
                    lemma_synchronized_revision(t, o, r, revision, nodes);
                    let l = revs.last();
                    let show = answer_for(show_answers, package)->Some_0;
                    let versions = versions_of(parsed_json(show));
                    let vs = versions_for(package, revs, versions)->Ok_0;
                    assert(vs.last() == version_lookup(package, l, versions)->Ok_0);
                    let v = vs.last();
                    assert(has_no_newline(v) && ends_with_seq(v, rev_infix() + l));
                    let i = choose|i: int| 0 <= i < nodes.len() && #[trigger] nodes[i].rev@ == l;
                    assert(!contains_seq(nodes[i].rev@, rev_infix()));
                    law_rev_version_round_trip(v, l);
                }
            }
        }
    }
}

/// The value that one synchronization of the `-rev.` dependencies of
/// `text` writes back, where something moves.
pub open spec fn rev_written_value(
    text: Seq<char>,
    nodes: Seq<LockedRepo>,
    repo_answers: Seq<(String, String)>,
    show_answers: Seq<(String, String)>,
) -> JsonModel {
    match parsed_json(text) {
        Ok(root) => match dependencies_of(root) {
            Some((entries, d, deps)) => match rev_walk(deps, nodes, repo_answers, show_answers) {
                RevWalk::Going(done, _) => with_dependencies(entries, d, done),
                _ => root,
            },
            None => root,
        },
        Err(_) => JsonModel::Null,
    }
}

/// Synchronizing the `-rev.` dependencies of a `package.json` a second
/// time, with the same flake lock and `npm` outputs, leaves the file
/// unchanged: where every repository that the `npm repo` outputs name is
/// locked at one revision holding no newline and no `-rev.`, every version
/// that the `npm show` outputs give for a revision holds no newline and ends
/// with `-rev.` and that revision, and the text written the first time reads
/// back as the value it was written from. (Where the first time left the
/// file unchanged, the second reads the same text and leaves it too.)
pub proof fn law_rev_sync_is_idempotent(
    text: Seq<char>,
    nodes: Seq<LockedRepo>,
    repo_answers: Seq<(String, String)>,
    show_answers: Seq<(String, String)>,
    written: Seq<char>,
    moved: Seq<(Seq<char>, Seq<char>)>,
)
    requires
        rev_sync(text, nodes, repo_answers, show_answers) == Ok::<RevSyncActionModel, crate::sync_rev::RevSyncErrorModel>(
            RevSyncActionModel::Write(written, moved),
        ),
        parsed_json(written) == Ok::<JsonModel, Seq<char>>(rev_written_value(text, nodes, repo_answers, show_answers)),
        recorded_repos_locked_once(repo_answers, nodes),
        recorded_versions_end_with_their_revision(show_answers),
        revisions_without_rev_infix(nodes),
    ensures
        rev_sync(written, nodes, repo_answers, show_answers) == Ok::<RevSyncActionModel, crate::sync_rev::RevSyncErrorModel>(
            RevSyncActionModel::Unchanged,
        ),
{
    let root = parsed_json(text)->Ok_0;
    let (entries, d, deps) = dependencies_of(root)->Some_0;
    lemma_rev_walk_fixpoint(deps, nodes, repo_answers, show_answers);
    let done = rev_walk(deps, nodes, repo_answers, show_answers)->Going_0;
    assert(root == JsonModel::Object(entries));
    lemma_dependencies_again(entries, d, deps, done);
}

/// The folder of a `package.json` below a folder `f` is `f`.
proof fn lemma_package_json_folder(f: Seq<char>)
    ensures
        parent_folder(f + "/package.json"@) == f,
{
    reveal_strlit("/package.json");
    let q = f + "/package.json"@;
    let k0 = f.len() as int;
    assert(q[k0] == '/');
    assert forall|j: int| k0 < j < q.len() implies q[j] != '/' by {
        assert(q[j] == "/package.json"@[j - k0]);
    }
    assert(is_last_slash(q, k0));
    let k = choose|k: int| is_last_slash(q, k);
    if k < k0 {
        assert(q[k0] != '/');
    } else if k > k0 {
        assert(q[k] == "/package.json"@[k - k0]);
    }
    assert(q.subrange(0, k0) =~= f);
}

/// Every file of the package whose `package.json` is at `f/package.json`,
/// at any depth below `f`, gets the context element.
pub proof fn law_files_of_the_package_get_the_context(
    f: Seq<char>,
    rest: Seq<char>,
    contents: Seq<char>,
    role: Seq<char>,
    element: Seq<char>,
    import: Seq<char>,
)
    requires
        f.len() > 0,
    ensures
        context_added_to_file(f + seq!['/'] + rest, contents, f + "/package.json"@, role, element, import)
            == with_context(contents, role, element, import),
{
    lemma_package_json_folder(f);
    let path = f + seq!['/'] + rest;
    assert(path.subrange(0, f.len() as int) =~= f);
    assert(path[f.len() as int] == '/');
    assert(is_within_folder(path, f));
}

/// With the `package.json` at the root of the project, every file gets the
/// context element.
pub proof fn law_files_of_the_root_package_get_the_context(
    path: Seq<char>,
    contents: Seq<char>,
    role: Seq<char>,
    element: Seq<char>,
    import: Seq<char>,
)
    ensures
        context_added_to_file(path, contents, "package.json"@, role, element, import)
            == with_context(contents, role, element, import),
{
    reveal_strlit("package.json");
    let q = "package.json"@;
    assert forall|k: int| !is_last_slash(q, k) by {
        if 0 <= k < q.len() {
            assert(q[k] != '/');
        }
    }
    assert(parent_folder(q) =~= Seq::<char>::empty());
}

/// The versions picked for each revision in turn, when each lookup succeeds:
/// as many as the revisions, the last for the last revision.
proof fn lemma_versions_for_all_found(npm_package: Seq<char>, revs: Seq<Seq<char>>, versions: crate::sync_rev::NpmVersionsModel)
    requires
        forall|k: int| 0 <= k < revs.len() ==> (#[trigger] version_lookup(npm_package, revs[k], versions)) is Ok,
    ensures
        versions_for(npm_package, revs, versions) matches Ok(vs) && vs.len() == revs.len()
            && (revs.len() > 0 ==> vs.last() == version_lookup(npm_package, revs.last(), versions)->Ok_0),
    decreases revs.len(),
{
    if revs.len() > 0 {
        let d = revs.drop_last();
        assert forall|k: int| 0 <= k < d.len() implies (#[trigger] version_lookup(npm_package, d[k], versions)) is Ok by {
            assert(d[k] == revs[k]);
        }
        lemma_versions_for_all_found(npm_package, d, versions);
        assert(revs.last() == revs[revs.len() - 1]);
        assert(version_lookup(npm_package, revs[revs.len() - 1], versions) is Ok);
    }
}

/// A `<version>-rev.<revision>` dependency whose repository the flake lock
/// pins at other revisions moves to the version that `npm show` lists for
/// the last of them, whatever its version part, and the moves are recorded,
/// one per revision, ending with that version.
pub proof fn law_rev_dependency_moves_to_the_listed_version(
    deps: Seq<(Seq<char>, JsonModel)>,
    nodes: Seq<LockedRepo>,
    repo_answers: Seq<(String, String)>,
    show_answers: Seq<(String, String)>,
    done: Seq<(Seq<char>, JsonModel)>,
    moved: Seq<(Seq<char>, Seq<char>)>,
    package: Seq<char>,
    source: Seq<char>,
    version: Seq<char>,
    revision: Seq<char>,
    out: Seq<char>,
    t: Seq<char>,
    o: Seq<char>,
    r: Seq<char>,
    show: Seq<char>,
)
    requires
        rev_walk(deps, nodes, repo_answers, show_answers) == RevWalk::Going(done, moved),
        rev_dependency_spec(source) == Some((version, revision)),
        answer_for(repo_answers, package) == Some(out),
        repo_of_output(out) == Some((t, o, r)),
        locked_revisions(t, o, r, revision, nodes).len() > 0,
        answer_for(show_answers, package) == Some(show),
        forall|k: int| 0 <= k < locked_revisions(t, o, r, revision, nodes).len() ==> (#[trigger] version_lookup(
            package, locked_revisions(t, o, r, revision, nodes)[k], versions_of(parsed_json(show)))) is Ok,
    ensures
        ({
            let revs = locked_revisions(t, o, r, revision, nodes);
            let v = version_lookup(package, revs.last(), versions_of(parsed_json(show)))->Ok_0;
            rev_walk(deps.push((package, JsonModel::Str(source))), nodes, repo_answers, show_answers) matches RevWalk::Going(done2, moved2)
                && done2 == done.push((package, JsonModel::Str(v)))
                && moved2.len() == moved.len() + revs.len()
                && moved2.last() == (package, v)
        }),
{
    let revs = locked_revisions(t, o, r, revision, nodes);
    let versions = versions_of(parsed_json(show));
    lemma_versions_for_all_found(package, revs, versions);
    let all = deps.push((package, JsonModel::Str(source)));
    assert(all.drop_last() =~= deps);
    let vs = versions_for(package, revs, versions)->Ok_0;
    let added = vs.map_values(|v: Seq<char>| (package, v));
    assert((moved + added).last() == added[added.len() - 1]);
}

/// The output used for a key is one recorded for that key, the first of
/// them; there is one exactly when some answer has that key.
pub proof fn law_answers_are_those_of_their_key(answers: Seq<(String, String)>, key: Seq<char>)
    ensures
        answer_for(answers, key) is Some <==> exists|i: int| 0 <= i < answers.len() && (#[trigger] answers[i]).0@ == key,
        answer_for(answers, key) matches Some(o) ==> exists|i: int| {
            &&& 0 <= i < answers.len()
            &&& (#[trigger] answers[i]).0@ == key
            &&& answers[i].1@ == o
            &&& forall|j: int| 0 <= j < i ==> answers[j].0@ != key
        },
    decreases answers.len(),
{
    if answers.len() > 0 {
        let d = answers.drop_last();
        law_answers_are_those_of_their_key(d, key);
        let n = answers.len() - 1;
        assert(answers.last() == answers[n]);
        assert forall|i: int| 0 <= i < d.len() implies d[i] == answers[i] by {}
        if answer_for(d, key) is Some {
            let i = choose|i: int| {
                &&& 0 <= i < d.len()
                &&& (#[trigger] d[i]).0@ == key
                &&& d[i].1@ == answer_for(d, key)->Some_0
                &&& forall|j: int| 0 <= j < i ==> d[j].0@ != key
            };
            assert(answers[i] == d[i]);
        } else if answers[n].0@ == key {
            assert forall|j: int| 0 <= j < n implies answers[j].0@ != key by {
                assert(d[j] == answers[j]);
            }
        } else {
            assert forall|i: int| 0 <= i < answers.len() implies (#[trigger] answers[i]).0@ != key by {
                if i < n {
                    assert(d[i] == answers[i]);
                }
            }
        }
    }
}

/// A manifest with a name adds the DNAs that the nix files build from it
/// after those found for the manifests before it.
pub proof fn law_each_named_manifest_adds_its_dnas(
    manifests: Seq<(String, String)>,
    manifest: (String, String),
    nix_files: Seq<(String, String)>,
    found: Seq<NixifiedDnaModel>,
    name: Seq<char>,
)
    requires
        nixified_dnas(manifests, nix_files) == Ok::<Seq<NixifiedDnaModel>, DnaSearchFailure>(found),
        manifest_text_name(manifest.1@) == ManifestNameModel::Name(name),
    ensures
        nixified_dnas(manifests.push(manifest), nix_files) == Ok::<Seq<NixifiedDnaModel>, DnaSearchFailure>(
            found + dnas_of_manifest(name, manifest.0@, manifest.1@, nix_files),
        ),
{
    assert(manifests.push(manifest).drop_last() =~= manifests);
}

/// A search that succeeds read a name in every manifest, and loses none of
/// the DNAs that the nix files build from any of them.
pub proof fn law_found_dnas_include_those_of_every_manifest(
    manifests: Seq<(String, String)>,
    nix_files: Seq<(String, String)>,
    found: Seq<NixifiedDnaModel>,
)
    requires
        nixified_dnas(manifests, nix_files) == Ok::<Seq<NixifiedDnaModel>, DnaSearchFailure>(found),
    ensures
        forall|j: int| 0 <= j < manifests.len() ==> (#[trigger] manifest_text_name(manifests[j].1@)) is Name,
        forall|j: int, k: int| #![trigger dnas_of_manifest(manifest_text_name(manifests[j].1@)->Name_0, manifests[j].0@, manifests[j].1@, nix_files)[k]]
            0 <= j < manifests.len() && 0 <= k < dnas_of_manifest(
                manifest_text_name(manifests[j].1@)->Name_0, manifests[j].0@, manifests[j].1@, nix_files).len()
            ==> found.contains(dnas_of_manifest(manifest_text_name(manifests[j].1@)->Name_0, manifests[j].0@, manifests[j].1@, nix_files)[k]),
    decreases manifests.len(),
{
    if manifests.len() > 0 {
        let d = manifests.drop_last();
        let last = manifests.last();
        let earlier = nixified_dnas(d, nix_files)->Ok_0;
        law_found_dnas_include_those_of_every_manifest(d, nix_files, earlier);
        let n = manifests.len() - 1;
        assert(last == manifests[n]);
        let added = dnas_of_manifest(manifest_text_name(last.1@)->Name_0, last.0@, last.1@, nix_files);
        assert(found == earlier + added);
        assert forall|j: int| 0 <= j < manifests.len() implies (#[trigger] manifest_text_name(manifests[j].1@)) is Name by {
            if j < n {
                assert(d[j] == manifests[j]);
            }
        }
        assert forall|j: int, k: int| #![trigger dnas_of_manifest(manifest_text_name(manifests[j].1@)->Name_0, manifests[j].0@, manifests[j].1@, nix_files)[k]]
            0 <= j < manifests.len() && 0 <= k < dnas_of_manifest(
                manifest_text_name(manifests[j].1@)->Name_0, manifests[j].0@, manifests[j].1@, nix_files).len()
            implies found.contains(dnas_of_manifest(manifest_text_name(manifests[j].1@)->Name_0, manifests[j].0@, manifests[j].1@, nix_files)[k]) by {
            if j < n {
                assert(d[j] == manifests[j]);
                let x = dnas_of_manifest(manifest_text_name(d[j].1@)->Name_0, d[j].0@, d[j].1@, nix_files)[k];
                assert(earlier.contains(x));
                let i = choose|i: int| 0 <= i < earlier.len() && earlier[i] == x;
                assert(found[i] == x);
            } else {
                assert(found[earlier.len() + k] == added[k]);
            }
        }
    }
}

/// The package offered by default is the first whose name neither ends
/// with `-dev` nor holds `test` anywhere.
pub proof fn law_default_package_is_the_first_that_is_neither_dev_nor_test(names: Seq<String>, i: int)
    ensures
        is_default_package(names, i) <==> {
            &&& 0 <= i < names.len()
            &&& !ends_with_seq(names[i]@, "-dev"@)
            &&& forall|k: int| !matches_at(names[i]@, k, "test"@)
            &&& forall|j: int| 0 <= j < i ==> ends_with_seq(#[trigger] names[j]@, "-dev"@)
                || exists|k: int| matches_at(names[j]@, k, "test"@)
        },
{
}

/// How many questions a TNESH zome scaffolding can still ask.
pub open spec fn questions_left(a: TneshZomeAnswers) -> nat {
    (if a.zome_name is None { 1nat } else { 0nat }) + (if a.npm_organization is None { 1nat } else { 0nat })
        + (if a.github_organization is None { 1nat } else { 0nat }) + if a.cachix_cache is Some {
        0nat
    } else {
        match a.setup_cachix {
            None => 2nat,
            Some(true) => 1nat,
            Some(false) => 0nat,
        }
    }
}

/// The answers once the user answered question `s` with `text`, or with
/// `yes` to the yes-or-no question.
pub open spec fn answered(a: TneshZomeAnswers, s: TneshZomeStep, text: String, yes: bool) -> TneshZomeAnswers {
    match s {
        TneshZomeStep::AskZomeName { .. } => TneshZomeAnswers { zome_name: Some(text), ..a },
        TneshZomeStep::AskNpmOrganization { .. } => TneshZomeAnswers { npm_organization: Some(text), ..a },
        TneshZomeStep::AskGithubOrganization { .. } => TneshZomeAnswers { github_organization: Some(text), ..a },
        TneshZomeStep::AskSetupCachix { .. } => TneshZomeAnswers { setup_cachix: Some(yes), ..a },
        TneshZomeStep::AskCachixCache { .. } => TneshZomeAnswers { cachix_cache: Some(text), ..a },
        TneshZomeStep::Done(_) => a,
    }
}

/// Scaffolding a TNESH zome asks each question at most once: answering the
/// question asked leaves fewer questions, and with none left the data is
/// ready.
pub proof fn law_tnesh_questions_end(a: TneshZomeAnswers, s: TneshZomeStep, text: String, yes: bool)
    requires
        is_next_step(a, s),
    ensures
        !(s is Done) ==> questions_left(answered(a, s, text, yes)) < questions_left(a),
        questions_left(a) == 0 ==> s is Done,
{
}

} // verus!
