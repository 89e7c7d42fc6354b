//! NPM side of adding a remote zome: the source of the UI package dependency
//! and the choice of the NPM package that gets it.

use vstd::prelude::*;
use crate::text::{chars_of, string_of, push_str, contains_seq, ends_with_seq, contains_exec, ends_with_exec, opt_view};
use crate::error::NpmScaffoldingError;

verus! {

/// The dependency source of a remote zome's UI package:
/// `<url>#<branch>&path:<path>`.
pub open spec fn npm_dependency_source_spec(url: Seq<char>, branch: Option<Seq<char>>, path: Seq<char>) -> Seq<char> {
    url + match branch {
        Some(b) => seq!['#'] + b,
        None => Seq::empty(),
    } + "&path:"@ + path
}

pub fn npm_dependency_source(
    remote_zome_git_url: &str,
    remote_zome_git_branch: &Option<String>,
    remote_npm_package_path: &str,
) -> (r: String)
    ensures
        r@ == npm_dependency_source_spec(
            remote_zome_git_url@,
            opt_view(*remote_zome_git_branch),
            remote_npm_package_path@,
        ),
{
    let mut v: Vec<char> = Vec::new();
    push_str(&mut v, remote_zome_git_url);
    let ghost mid: Seq<char> = Seq::empty();
    match remote_zome_git_branch {
        Some(b) => {
            v.push('#');
            push_str(&mut v, b.as_str());
            proof { mid = seq!['#'] + b@; }
        },
        None => {},
    }
    assert(v@ =~= remote_zome_git_url@ + mid);
    push_str(&mut v, "&path:");
    push_str(&mut v, remote_npm_package_path);
    string_of(v.as_slice())
}

/// A package that the user is offered by default: not a `-dev` package and
/// not a test package.
pub open spec fn is_default_candidate(name: Seq<char>) -> bool {
    !ends_with_seq(name, "-dev"@) && !contains_seq(name, "test"@)
}

/// `i` is the first package that is offered by default.
pub open spec fn is_default_package(names: Seq<String>, i: int) -> bool {
    &&& 0 <= i < names.len()
    &&& is_default_candidate(names[i]@)
    &&& forall|j: int| 0 <= j < i ==> !is_default_candidate(#[trigger] names[j]@)
}

pub open spec fn has_default_package(names: Seq<String>) -> bool {
    exists|i: int| 0 <= i < names.len() && is_default_candidate(#[trigger] names[i]@)
}

pub fn is_default_candidate_exec(name: &str) -> (b: bool)
    ensures
        b == is_default_candidate(name@),
{
    !(ends_with_exec(name, "-dev") || contains_exec(name, "test"))
}

/// Whether some package is offered by default.
pub fn has_default_package_exec(names: &Vec<String>) -> (b: bool)
    ensures
        b == has_default_package(names@),
{
    let mut i: usize = 0;
    while i < names.len()
        invariant
            i <= names.len(),
            forall|j: int| 0 <= j < i ==> !is_default_candidate(#[trigger] names@[j]@),
        decreases names.len() - i,
    {
        if is_default_candidate_exec(names[i].as_str()) {
            return true;
        }
        i = i + 1;
    }
    false
}

/// The question and the default answer with which the user picks the NPM
/// package that gets a dependency.
pub struct NpmPackageQuestion {
    pub prompt: String,
    pub default: usize,
}

pub open spec fn npm_package_prompt(dependency: Seq<char>) -> Seq<char> {
    "Multiple NPM packages were found in this project. Choose one to which to add the "@ + dependency
        + " dependency:"@
}

/// The question with which the user picks, among the packages named
/// `npm_packages`, the one that gets `npm_dependency_package_name`; the
/// first package that is neither a `-dev` nor a test package is the
/// default. There must be one.
pub fn select_npm_package(npm_dependency_package_name: &str, npm_packages: &Vec<String>) -> (q: NpmPackageQuestion)
    requires
        has_default_package(npm_packages@),
    ensures
        q.prompt@ == npm_package_prompt(npm_dependency_package_name@),
        is_default_package(npm_packages@, q.default as int),
{
    let mut i: usize = 0;
    while i < npm_packages.len() && !is_default_candidate_exec(npm_packages[i].as_str())
        invariant
            i <= npm_packages.len(),
            has_default_package(npm_packages@),
            forall|j: int| 0 <= j < i ==> !is_default_candidate(#[trigger] npm_packages@[j]@),
        decreases npm_packages.len() - i,
    {
        i = i + 1;
    }
    proof {
        if i == npm_packages.len() {
            let k = choose|k: int| 0 <= k < npm_packages@.len() && is_default_candidate(#[trigger] npm_packages@[k]@);
            assert(!is_default_candidate(npm_packages@[k]@));
        }
    }
    let mut v: Vec<char> = Vec::new();
    push_str(&mut v, "Multiple NPM packages were found in this project. Choose one to which to add the ");
    push_str(&mut v, npm_dependency_package_name);
    push_str(&mut v, " dependency:");
    NpmPackageQuestion { prompt: string_of(v.as_slice()), default: i }
}

/// Which `package.json` of the project gets the dependency.
pub enum NpmPackageChoice {
    /// The one at this index of the list.
    Chosen(usize),
    /// The user picks one.
    Ask(NpmPackageQuestion),
}

/// `i` is the first string of `s` equal to `x`.
pub open spec fn is_first_equal(s: Seq<String>, i: int, x: Seq<char>) -> bool {
    &&& 0 <= i < s.len()
    &&& s[i]@ == x
    &&& forall|j: int| 0 <= j < i ==> #[trigger] s[j]@ != x
}

/// The default UI package of a project.
pub open spec fn ui_package_json() -> Seq<char> {
    "ui/package.json"@
}

/// The packages of `paths` (their `package.json` paths, in the order of the
/// project's tree) and `names` need a question to the user.
pub open spec fn needs_question(paths: Seq<String>, target: Option<String>) -> bool {
    paths.len() > 1 && target is None && !exists|i: int| #[trigger] is_first_equal(paths, i, ui_package_json())
}

/// `r` is the choice of the `package.json` that gets `dependency`: none is
/// an error; a single one is taken; among several, the first one named as
/// asked is taken (none so named is an error), else `ui/package.json`, else
/// the user is asked.
pub open spec fn chose_npm_package(
    paths: Seq<String>,
    names: Seq<String>,
    dependency: Seq<char>,
    target: Option<String>,
    r: Result<NpmPackageChoice, NpmScaffoldingError>,
) -> bool {
    if paths.len() == 0 {
        r matches Err(NpmScaffoldingError::NoNpmPackagesFoundError)
    } else if paths.len() == 1 {
        r matches Ok(NpmPackageChoice::Chosen(i)) && i == 0
    } else {
        match target {
            Some(t) => if exists|i: int| is_first_equal(names, i, t@) {
                r matches Ok(NpmPackageChoice::Chosen(i)) && is_first_equal(names, i as int, t@)
            } else {
                r matches Err(NpmScaffoldingError::NpmPackageNotFoundError(n)) && n@ == t@
            },
            None => if exists|i: int| is_first_equal(paths, i, ui_package_json()) {
                r matches Ok(NpmPackageChoice::Chosen(i)) && is_first_equal(paths, i as int, ui_package_json())
            } else {
                r matches Ok(NpmPackageChoice::Ask(q)) && q.prompt@ == npm_package_prompt(dependency)
                    && is_default_package(names, q.default as int)
            },
        }
    }
}

/// The first string of `s` equal to `x`.
fn position_of(s: &Vec<String>, x: &str) -> (r: Option<usize>)
    ensures
        match r {
            Some(i) => is_first_equal(s@, i as int, x@),
            None => forall|i: int| !is_first_equal(s@, i, x@),
        },
{
    let mut i: usize = 0;
    while i < s.len()
        invariant
            i <= s.len(),
            forall|j: int| 0 <= j < i ==> #[trigger] s@[j]@ != x@,
        decreases s.len() - i,
    {
        if s[i].as_str().unicode_len() == x.unicode_len() && equal_str(s[i].as_str(), x) {
            return Some(i);
        }
        i = i + 1;
    }
    None
}

fn equal_str(a: &str, b: &str) -> (r: bool)
    ensures
        r == (a@ == b@),
{
    let x = chars_of(a);
    let y = chars_of(b);
    if x.len() != y.len() {
        return false;
    }
    let mut k: usize = 0;
    while k < x.len()
        invariant
            x@ == a@,
            y@ == b@,
            x.len() == y.len(),
            k <= x.len(),
            forall|j: int| 0 <= j < k ==> x@[j] == y@[j],
        decreases x.len() - k,
    {
        if x[k] != y[k] {
            return false;
        }
        k = k + 1;
    }
    assert(x@ =~= y@);
    true
}

/// Chooses the `package.json` that gets `dependency`, among the
/// `package.json` files of the project (their paths in the order of the
/// project's tree, and, when there are several, their package names), given
/// the package the user asked for, if any.
pub fn choose_npm_package(
    package_json_paths: &Vec<String>,
    package_names: &Vec<String>,
    dependency: &str,
    package_to_add_the_dependency_to: &Option<String>,
) -> (r: Result<NpmPackageChoice, NpmScaffoldingError>)
    requires
        package_json_paths.len() > 1 ==> package_names.len() == package_json_paths.len(),
        needs_question(package_json_paths@, *package_to_add_the_dependency_to) ==> has_default_package(package_names@),
    ensures
        chose_npm_package(package_json_paths@, package_names@, dependency@, *package_to_add_the_dependency_to, r),
{
    if package_json_paths.len() == 0 {
        return Err(NpmScaffoldingError::NoNpmPackagesFoundError);
    }
    if package_json_paths.len() == 1 {
        return Ok(NpmPackageChoice::Chosen(0));
    }
    match package_to_add_the_dependency_to {
        Some(target) => match position_of(package_names, target.as_str()) {
            Some(i) => Ok(NpmPackageChoice::Chosen(i)),
            None => Err(NpmScaffoldingError::NpmPackageNotFoundError(target.clone())),
        },
        None => {
            let ui = "ui/package.json";
            proof { reveal_strlit("ui/package.json"); }
            assert(ui@ == ui_package_json());
            match position_of(package_json_paths, ui) {
                Some(i) => Ok(NpmPackageChoice::Chosen(i)),
                None => {
                    assert(needs_question(package_json_paths@, *package_to_add_the_dependency_to));
                    Ok(NpmPackageChoice::Ask(select_npm_package(dependency, package_names)))
                },
            }
        },
    }
}

} // verus!
