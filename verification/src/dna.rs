//! The nixified DNAs of a project: DNA manifests that a nix file of the
//! project builds through its `dnaManifest = ./...;` attribute, and the
//! choice of the DNA that a remote zome goes into.

use vstd::prelude::*;
use crate::text::{matches_at, matches_at_exec, chars_of, string_of, push_range, push_str, opt_view};
use crate::nix::{byte_offset, utf8_width};
use crate::paths::{parent_folder, parent_folder_exec};
use crate::error::{ScaffoldRemoteZomeError, NpmScaffoldingError};
use crate::yaml::{
    Yaml, YamlModel, yaml_model, parse_yaml, parsed_yaml, parsed_yaml_model, mapping_model, string_key_index,
    find_string_key, lemma_mapping_model, lemma_string_key_index_bounds,
};

verus! {

// ---------------------------------------------------------------------------
// `dnaManifest = (?<dnaManifestPath>./[^;]*);`
// ---------------------------------------------------------------------------

/// `dnaManifest = `
pub open spec fn manifest_attribute() -> Seq<char> {
    seq!['d', 'n', 'a', 'M', 'a', 'n', 'i', 'f', 'e', 's', 't', ' ', '=', ' ']
}

/// `dnaManifest = ` at `p`, a character other than a newline, a `/`, then
/// no `;` up to the `;` at `s`.
pub open spec fn dna_ref_match(t: Seq<char>, p: int, s: int) -> bool {
    &&& matches_at(t, p, manifest_attribute())
    &&& p + 16 <= s < t.len()
    &&& t[p + 14] != '\n'
    &&& t[p + 15] == '/'
    &&& t[s] == ';'
    &&& forall|k: int| p + 16 <= k < s ==> #[trigger] t[k] != ';'
}

/// The leftmost such match.
pub open spec fn is_dna_ref(t: Seq<char>, p: int, s: int) -> bool {
    &&& dna_ref_match(t, p, s)
    &&& forall|p2: int, s2: int| #[trigger] dna_ref_match(t, p2, s2) ==> p <= p2
}

pub proof fn lemma_dna_ref_unique(t: Seq<char>, p: int, s: int, p2: int, s2: int)
    requires
        is_dna_ref(t, p, s),
        is_dna_ref(t, p2, s2),
    ensures
        p == p2 && s == s2,
{
    assert(p <= p2 && p2 <= p);
    if s < s2 {
        assert(t[s] != ';');
    } else if s2 < s {
        assert(t[s2] != ';');
    }
}

/// The manifest path that a nix file names, and the byte offset at which it
/// starts.
pub open spec fn dna_manifest_reference(t: Seq<char>) -> Option<(Seq<char>, int)> {
    if exists|p: int, s: int| is_dna_ref(t, p, s) {
        let (p, s) = choose|p: int, s: int| is_dna_ref(t, p, s);
        Some((t.subrange(p + 14, s), byte_offset(t, p + 14)))
    } else {
        None
    }
}

/// The UTF-8 length of `t` fits in a `usize`, as it does for any string in
/// memory.
pub open spec fn fits_in_memory(t: Seq<char>) -> bool {
    byte_offset(t, t.len() as int) <= usize::MAX
}

proof fn lemma_byte_offset_monotone(t: Seq<char>, i: int, j: int)
    requires
        0 <= i <= j,
    ensures
        byte_offset(t, i) <= byte_offset(t, j),
    decreases j - i,
{
    if i < j {
        lemma_byte_offset_monotone(t, i, j - 1);
    }
}

/// The byte offset of the character at `i`.
fn byte_offset_exec(t: &[char], i: usize) -> (r: usize)
    requires
        i <= t.len(),
        fits_in_memory(t@),
    ensures
        r == byte_offset(t@, i as int),
{
    let mut off: usize = 0;
    let mut k: usize = 0;
    while k < i
        invariant
            k <= i <= t.len(),
            fits_in_memory(t@),
            off == byte_offset(t@, k as int),
        decreases i - k,
    {
        proof {
            lemma_byte_offset_monotone(t@, k + 1, t@.len() as int);
        }
        let u = t[k] as u32;
        let w: usize = if u < 0x80 { 1 } else if u < 0x800 { 2 } else if u < 0x10000 { 3 } else { 4 };
        assert(w == utf8_width(t@[k as int]));
        off = off + w;
        k = k + 1;
    }
    off
}

/// Finds the manifest path that a nix file names, with the byte offset at
/// which it starts.
pub fn find_dna_manifest_reference(contents: &str) -> (r: Option<(String, usize)>)
    requires
        fits_in_memory(contents@),
    ensures
        match r {
            Some((path, index)) => dna_manifest_reference(contents@) == Some((path@, index as int)),
            None => dna_manifest_reference(contents@) is None,
        },
{
    let t = chars_of(contents);
    let attr: Vec<char> = vec!['d', 'n', 'a', 'M', 'a', 'n', 'i', 'f', 'e', 's', 't', ' ', '=', ' '];
    assert(attr@ =~= manifest_attribute());
    let n = t.len();
    let mut p: usize = 0;
    while p < n
        invariant
            n == t@.len(),
            t@ == contents@,
            fits_in_memory(contents@),
            attr@ == manifest_attribute(),
            forall|p2: int, s2: int| #[trigger] dna_ref_match(t@, p2, s2) ==> p <= p2,
        decreases n - p,
    {
        if matches_at_exec(t.as_slice(), p, attr.as_slice()) && n - p >= 16 && t[p + 14] != '\n' && t[p + 15] == '/' {
            let mut s: usize = p + 16;
            while s < n && t[s] != ';'
                invariant
                    n == t@.len(),
                    p + 16 <= s <= n,
                    forall|k: int| p + 16 <= k < s ==> #[trigger] t@[k] != ';',
                decreases n - s,
            {
                s = s + 1;
            }
            if s < n {
                assert(is_dna_ref(t@, p as int, s as int));
                proof {
                    let (p2, s2) = choose|p2: int, s2: int| is_dna_ref(t@, p2, s2);
                    lemma_dna_ref_unique(t@, p as int, s as int, p2, s2);
                }
                let mut out: Vec<char> = Vec::new();
                push_range(&mut out, t.as_slice(), p + 14, s);
                let index = byte_offset_exec(t.as_slice(), p + 14);
                return Some((string_of(out.as_slice()), index));
            }
            assert forall|p2: int, s2: int| #[trigger] dna_ref_match(t@, p2, s2) implies p + 1 <= p2 by {
                if p2 == p {
                    assert(t@[s2] == ';');
                }
            }
        } else {
            assert forall|p2: int, s2: int| #[trigger] dna_ref_match(t@, p2, s2) implies p + 1 <= p2 by {
                if p2 == p {
                    assert(p2 + 16 <= s2);
                }
            }
        }
        p = p + 1;
    }
    assert(!exists|p: int, s: int| is_dna_ref(t@, p, s));
    None
}

// ---------------------------------------------------------------------------
// The name of a DNA manifest, and the path cleaner
// ---------------------------------------------------------------------------

/// What the root of a DNA manifest says of its name.
pub enum ManifestName {
    /// Not YAML; the parser's message.
    Unparsable(String),
    /// The root is not a mapping.
    NotAMapping,
    /// The root mapping has no string under `name`.
    NoName,
    Name(String),
}

pub enum ManifestNameModel {
    Unparsable(Seq<char>),
    NotAMapping,
    NoName,
    Name(Seq<char>),
}

impl View for ManifestName {
    type V = ManifestNameModel;

    open spec fn view(&self) -> ManifestNameModel {
        match self {
            ManifestName::Unparsable(m) => ManifestNameModel::Unparsable(m@),
            ManifestName::NotAMapping => ManifestNameModel::NotAMapping,
            ManifestName::NoName => ManifestNameModel::NoName,
            ManifestName::Name(n) => ManifestNameModel::Name(n@),
        }
    }
}

/// What the root of a parsed DNA manifest says of its name: the parser's
/// message, a root that is not a mapping, no string under the key `name`,
/// or that string.
pub open spec fn manifest_name_of(parsed: Result<YamlModel, Seq<char>>) -> ManifestNameModel {
    match parsed {
        Err(m) => ManifestNameModel::Unparsable(m),
        Ok(YamlModel::Mapping(entries)) => match string_key_index(entries, "name"@) {
            Some(i) => match entries[i].1 {
                YamlModel::Str(n) => ManifestNameModel::Name(n),
                _ => ManifestNameModel::NoName,
            },
            None => ManifestNameModel::NoName,
        },
        Ok(_) => ManifestNameModel::NotAMapping,
    }
}

/// What a parsed DNA manifest says of its name.
pub fn manifest_name(parsed: Result<Yaml, String>) -> (r: ManifestName)
    ensures
        r@ == manifest_name_of(parsed_yaml_model(parsed)),
{
    match parsed {
        Err(m) => ManifestName::Unparsable(m),
        Ok(Yaml::Mapping(entries)) => {
            proof {
                lemma_mapping_model(entries);
                reveal_strlit("name");
            }
            match find_string_key(&entries, "name") {
                Some(i) => {
                    proof {
                        lemma_string_key_index_bounds(mapping_model(entries@), "name"@);
                    }
                    assert(mapping_model(entries@)[i as int].1 == yaml_model(entries@[i as int].1));
                    match &entries[i].1 {
                        Yaml::Str(n) => ManifestName::Name(n.clone()),
                        _ => ManifestName::NoName,
                    }
                },
                None => ManifestName::NoName,
            }
        },
        Ok(_) => ManifestName::NotAMapping,
    }
}

/// What the root of the DNA manifest `text` says of its name.
pub open spec fn manifest_text_name(text: Seq<char>) -> ManifestNameModel {
    manifest_name_of(parsed_yaml(text))
}

/// A name for what `path_clean::clean` makes of a path: the lexically
/// cleaned path, with `.`, `..` and repeated `/` resolved.
pub uninterp spec fn cleaned_path(path: Seq<char>) -> Seq<char>;

/// Calls `path_clean::clean` on a path and turns the result back into a
/// string.
///
/// Trusted: the result is the named `cleaned_path` of the argument.
#[verifier::external_body]
fn clean_path(path: &str) -> (r: String)
    ensures
        r@ == cleaned_path(path@),
{
    path_clean::clean(path).to_string_lossy().into_owned()
}

// ---------------------------------------------------------------------------
// Nixified DNAs
// ---------------------------------------------------------------------------

/// `rel` resolved against `folder`, as `PathBuf::join` does: an absolute
/// `rel` stands alone, a relative one goes after a `/`.
pub open spec fn joined_path(folder: Seq<char>, rel: Seq<char>) -> Seq<char> {
    if rel.len() > 0 && rel[0] == '/' {
        rel
    } else if folder.len() == 0 {
        rel
    } else {
        folder + seq!['/'] + rel
    }
}

pub fn joined_path_exec(folder: &str, rel: &str) -> (r: String)
    ensures
        r@ == joined_path(folder@, rel@),
{
    let rc = chars_of(rel);
    let fc = chars_of(folder);
    if rc.len() > 0 && rc[0] == '/' {
        rel.to_owned()
    } else if fc.len() == 0 {
        rel.to_owned()
    } else {
        let mut v: Vec<char> = Vec::new();
        push_str(&mut v, folder);
        v.push('/');
        push_str(&mut v, rel);
        assert(v@ =~= folder@ + seq!['/'] + rel@);
        string_of(v.as_slice())
    }
}

/// A DNA manifest that a nix file builds.
#[derive(Debug)]
pub struct NixifiedDna {
    pub name: String,
    /// Path and contents of the nix file.
    pub dna_nix: (String, String),
    /// Path and contents of the DNA manifest.
    pub dna_manifest: (String, String),
    /// Byte offset of the manifest path in the nix file.
    pub dna_manifest_reference_index: usize,
}

pub struct NixifiedDnaModel {
    pub name: Seq<char>,
    pub nix_path: Seq<char>,
    pub nix_contents: Seq<char>,
    pub manifest_path: Seq<char>,
    pub manifest_contents: Seq<char>,
    pub reference_index: int,
}

impl View for NixifiedDna {
    type V = NixifiedDnaModel;

    open spec fn view(&self) -> NixifiedDnaModel {
        NixifiedDnaModel {
            name: self.name@,
            nix_path: self.dna_nix.0@,
            nix_contents: self.dna_nix.1@,
            manifest_path: self.dna_manifest.0@,
            manifest_contents: self.dna_manifest.1@,
            reference_index: self.dna_manifest_reference_index as int,
        }
    }
}

impl NixifiedDna {
    pub fn copied(&self) -> (r: NixifiedDna)
        ensures
            r@ == self@,
    {
        NixifiedDna {
            name: self.name.clone(),
            dna_nix: (self.dna_nix.0.clone(), self.dna_nix.1.clone()),
            dna_manifest: (self.dna_manifest.0.clone(), self.dna_manifest.1.clone()),
            dna_manifest_reference_index: self.dna_manifest_reference_index,
        }
    }
}

/// The DNAs that the nix files build from the manifest `(path, contents)`
/// named `name`: those whose `dnaManifest` path, resolved against the folder
/// of the nix file and cleaned, is the manifest's path.
pub open spec fn dnas_of_manifest(
    name: Seq<char>,
    manifest_path: Seq<char>,
    manifest_contents: Seq<char>,
    nix_files: Seq<(String, String)>,
) -> Seq<NixifiedDnaModel>
    decreases nix_files.len(),
{
    if nix_files.len() == 0 {
        Seq::empty()
    } else {
        let last = nix_files.last();
        let earlier = dnas_of_manifest(name, manifest_path, manifest_contents, nix_files.drop_last());
        match dna_manifest_reference(last.1@) {
            Some((rel, index)) => if cleaned_path(joined_path(parent_folder(last.0@), rel)) == manifest_path {
                earlier.push(
                    NixifiedDnaModel {
                        name,
                        nix_path: last.0@,
                        nix_contents: last.1@,
                        manifest_path,
                        manifest_contents,
                        reference_index: index,
                    },
                )
            } else {
                earlier
            },
            None => earlier,
        }
    }
}

/// Why the search for nixified DNAs failed, at which manifest.
pub enum DnaSearchFailure {
    /// The manifest's path and the parser's message.
    Unparsable(Seq<char>, Seq<char>),
    NotAMapping(Seq<char>),
    NoName(Seq<char>),
}

/// The nixified DNAs of a project, manifest by manifest, then nix file by nix
/// file; the first manifest that is not YAML, whose root is not a mapping or
/// that has no name fails the search.
pub open spec fn nixified_dnas(
    manifests: Seq<(String, String)>,
    nix_files: Seq<(String, String)>,
) -> Result<Seq<NixifiedDnaModel>, DnaSearchFailure>
    decreases manifests.len(),
{
    if manifests.len() == 0 {
        Ok(Seq::empty())
    } else {
        let last = manifests.last();
        match nixified_dnas(manifests.drop_last(), nix_files) {
            Err(f) => Err(f),
            Ok(earlier) => match manifest_text_name(last.1@) {
                ManifestNameModel::Unparsable(message) => Err(DnaSearchFailure::Unparsable(last.0@, message)),
                ManifestNameModel::NotAMapping => Err(DnaSearchFailure::NotAMapping(last.0@)),
                ManifestNameModel::NoName => Err(DnaSearchFailure::NoName(last.0@)),
                ManifestNameModel::Name(name) => Ok(
                    earlier + dnas_of_manifest(name, last.0@, last.1@, nix_files),
                ),
            },
        }
    }
}

/// The error that reports a failed search.
pub open spec fn reports_failure(e: ScaffoldRemoteZomeError, f: DnaSearchFailure) -> bool {
    match f {
        DnaSearchFailure::Unparsable(_, message) => e matches ScaffoldRemoteZomeError::SerdeYamlError(m) && m@ == message,
        DnaSearchFailure::NotAMapping(path) => e matches ScaffoldRemoteZomeError::MalformedDnaManifest(p, m)
            && p@ == path && m@ == "root level object is not a mapping"@,
        DnaSearchFailure::NoName(path) => e matches ScaffoldRemoteZomeError::MalformedDnaManifest(p, m)
            && p@ == path && m@ == "manifest does not have a name"@,
    }
}

pub open spec fn all_fit_in_memory(files: Seq<(String, String)>) -> bool {
    forall|i: int| 0 <= i < files.len() ==> fits_in_memory(#[trigger] files[i].1@)
}

pub open spec fn models_of(dnas: Seq<NixifiedDna>) -> Seq<NixifiedDnaModel> {
    dnas.map_values(|d: NixifiedDna| d@)
}

/// The DNA that the nix file `(path, contents)` builds from the manifest
/// named `name`, if the manifest path that the nix file names, resolved and
/// cleaned into `referenced_path`, is the manifest's path;
/// `reference_index` is the byte offset of that path in the nix file.
pub fn nixified_dna_from(
    name: &String,
    manifest: &(String, String),
    nix_file: &(String, String),
    referenced_path: &String,
    reference_index: usize,
) -> (r: Option<NixifiedDna>)
    ensures
        referenced_path@ == manifest.0@ ==> (r matches Some(d) && d@ == (NixifiedDnaModel {
            name: name@,
            nix_path: nix_file.0@,
            nix_contents: nix_file.1@,
            manifest_path: manifest.0@,
            manifest_contents: manifest.1@,
            reference_index: reference_index as int,
        })),
        referenced_path@ != manifest.0@ ==> r is None,
{
    if *referenced_path == manifest.0 {
        Some(NixifiedDna {
            name: name.clone(),
            dna_nix: (nix_file.0.clone(), nix_file.1.clone()),
            dna_manifest: (manifest.0.clone(), manifest.1.clone()),
            dna_manifest_reference_index: reference_index,
        })
    } else {
        None
    }
}

/// Appends the DNAs that the nix files build from one manifest.
fn push_dnas_of_manifest(
    out: &mut Vec<NixifiedDna>,
    name: &String,
    manifest: &(String, String),
    nix_files: &Vec<(String, String)>,
)
    requires
        all_fit_in_memory(nix_files@),
    ensures
        models_of(final(out)@) == models_of(old(out)@) + dnas_of_manifest(name@, manifest.0@, manifest.1@, nix_files@),
{
    let mut j: usize = 0;
    while j < nix_files.len()
        invariant
            j <= nix_files.len(),
            all_fit_in_memory(nix_files@),
            models_of(out@) == models_of(old(out)@) + dnas_of_manifest(name@, manifest.0@, manifest.1@, nix_files@.take(j as int)),
        decreases nix_files.len() - j,
    {
        let ghost before = out@;
        let nix = &nix_files[j];
        assert(nix_files@.take(j + 1).drop_last() =~= nix_files@.take(j as int));
        assert(fits_in_memory(nix_files@[j as int].1@));
        match find_dna_manifest_reference(nix.1.as_str()) {
            Some((rel, index)) => {
                let folder = parent_folder_exec(nix.0.as_str());
                let joined = joined_path_exec(folder.as_str(), rel.as_str());
                let full = clean_path(joined.as_str());
                match nixified_dna_from(name, manifest, nix, &full, index) {
                    Some(dna) => {
                        out.push(dna);
                        assert(models_of(out@) =~= models_of(before).push(out@.last()@));
                    },
                    None => {
                        assert(out@ == before);
                    },
                }
            },
            None => {},
        }
        j = j + 1;
    }
    assert(nix_files@.take(nix_files@.len() as int) =~= nix_files@);
}

/// The DNAs that the nix files build from one manifest, given what its root
/// says of its name: a manifest that is not YAML, whose root is not a
/// mapping or that has no name is an error.
pub fn manifest_dnas(
    manifest: &(String, String),
    name: ManifestName,
    nix_files: &Vec<(String, String)>,
) -> (r: Result<Vec<NixifiedDna>, ScaffoldRemoteZomeError>)
    requires
        all_fit_in_memory(nix_files@),
    ensures
        match name@ {
            ManifestNameModel::Unparsable(message) => r matches Err(e) && reports_failure(e, DnaSearchFailure::Unparsable(manifest.0@, message)),
            ManifestNameModel::NotAMapping => r matches Err(e) && reports_failure(e, DnaSearchFailure::NotAMapping(manifest.0@)),
            ManifestNameModel::NoName => r matches Err(e) && reports_failure(e, DnaSearchFailure::NoName(manifest.0@)),
            ManifestNameModel::Name(n) => r matches Ok(found) && models_of(found@) == dnas_of_manifest(n, manifest.0@, manifest.1@, nix_files@),
        },
{
    match name {
        ManifestName::Unparsable(message) => Err(ScaffoldRemoteZomeError::SerdeYamlError(message)),
        ManifestName::NotAMapping => Err(ScaffoldRemoteZomeError::MalformedDnaManifest(
            manifest.0.clone(),
            "root level object is not a mapping".to_string(),
        )),
        ManifestName::NoName => Err(ScaffoldRemoteZomeError::MalformedDnaManifest(
            manifest.0.clone(),
            "manifest does not have a name".to_string(),
        )),
        ManifestName::Name(n) => {
            let mut out: Vec<NixifiedDna> = Vec::new();
            assert(models_of(out@) =~= Seq::<NixifiedDnaModel>::empty());
            push_dnas_of_manifest(&mut out, &n, manifest, nix_files);
            assert(models_of(out@) =~= dnas_of_manifest(n@, manifest.0@, manifest.1@, nix_files@));
            Ok(out)
        },
    }
}

/// Finds the nixified DNAs of a project, from its `dna.yaml` files and its
/// `.nix` files, each a `(path, contents)` pair in the order of the project's
/// file tree.
pub fn find_nixified_dnas(
    dna_manifests: &Vec<(String, String)>,
    nix_files: &Vec<(String, String)>,
) -> (r: Result<Vec<NixifiedDna>, ScaffoldRemoteZomeError>)
    requires
        all_fit_in_memory(nix_files@),
    ensures
        match (r, nixified_dnas(dna_manifests@, nix_files@)) {
            (Ok(found), Ok(expected)) => models_of(found@) == expected,
            (Err(e), Err(f)) => reports_failure(e, f),
            _ => false,
        },
{
    let mut out: Vec<NixifiedDna> = Vec::new();
    let mut i: usize = 0;
    assert(dna_manifests@.take(0).len() == 0);
    assert(models_of(out@) =~= Seq::<NixifiedDnaModel>::empty());
    while i < dna_manifests.len()
        invariant
            i <= dna_manifests.len(),
            all_fit_in_memory(nix_files@),
            nixified_dnas(dna_manifests@.take(i as int), nix_files@) == Ok::<Seq<NixifiedDnaModel>, DnaSearchFailure>(models_of(out@)),
        decreases dna_manifests.len() - i,
    {
        let manifest = &dna_manifests[i];
        assert(dna_manifests@.take(i + 1).drop_last() =~= dna_manifests@.take(i as int));
        let name = manifest_name(parse_yaml(manifest.1.as_str()));
        match manifest_dnas(manifest, name, nix_files) {
            Ok(mut found) => {
                let ghost before = out@;
                out.append(&mut found);
                assert(models_of(out@) =~= models_of(before) + dnas_of_manifest(
                    manifest_text_name(manifest.1@)->Name_0, manifest.0@, manifest.1@, nix_files@));
            },
            Err(e) => {
                proof { lemma_failure_persists(dna_manifests@, nix_files@, i as int + 1); }
                return Err(e);
            },
        }
        i = i + 1;
    }
    assert(dna_manifests@.take(dna_manifests@.len() as int) =~= dna_manifests@);
    Ok(out)
}

/// Once the search fails at a manifest, it fails there whatever follows.
proof fn lemma_failure_persists(manifests: Seq<(String, String)>, nix_files: Seq<(String, String)>, i: int)
    requires
        0 <= i <= manifests.len(),
        nixified_dnas(manifests.take(i), nix_files) is Err,
    ensures
        nixified_dnas(manifests, nix_files) == nixified_dnas(manifests.take(i), nix_files),
    decreases manifests.len() - i,
{
    if i < manifests.len() {
        assert(manifests.take(i + 1).drop_last() =~= manifests.take(i));
        lemma_failure_persists(manifests, nix_files, i + 1);
    } else {
        assert(manifests.take(i) =~= manifests);
    }
}

// ---------------------------------------------------------------------------
// Choosing the DNA
// ---------------------------------------------------------------------------

/// Which DNA the zome goes into.
pub enum DnaChoice {
    Chosen(NixifiedDna),
    /// Several DNAs and none named: the user picks one of `dnas`, asked with
    /// `prompt`, the first one offered as the default.
    Ask { prompt: String, dnas: Vec<NixifiedDna> },
}

/// The question that lets the user pick a DNA.
pub open spec fn dna_prompt(module_name: Seq<char>) -> Seq<char> {
    "Multiple DNAs were found in this repository, choose one to scaffold the "@ + module_name
        + " zome into:"@
}

/// `i` is the first DNA named `name`.
pub open spec fn is_first_named(dnas: Seq<NixifiedDnaModel>, i: int, name: Seq<char>) -> bool {
    &&& 0 <= i < dnas.len()
    &&& dnas[i].name == name
    &&& forall|j: int| 0 <= j < i ==> #[trigger] dnas[j].name != name
}

/// `r` is the choice among `dnas` for a zome of `module_name`, given the
/// DNA the user asked for, if any: none found is an error; a single DNA is
/// taken unless another one was asked for; among several, the first one of
/// the asked name is taken (the lookup fails with the NPM package error), or
/// the user is asked.
pub open spec fn chose_dna(
    dnas: Seq<NixifiedDnaModel>,
    module_name: Seq<char>,
    local: Option<Seq<char>>,
    r: Result<DnaChoice, ScaffoldRemoteZomeError>,
) -> bool {
    if dnas.len() == 0 {
        r matches Err(ScaffoldRemoteZomeError::NoDnasFoundError)
    } else if dnas.len() == 1 {
        match local {
            Some(l) if dnas[0].name != l => r matches Err(ScaffoldRemoteZomeError::NoDnasFoundError),
            _ => r matches Ok(DnaChoice::Chosen(d)) && d@ == dnas[0],
        }
    } else {
        match local {
            Some(l) => if exists|i: int| is_first_named(dnas, i, l) {
                exists|i: int| is_first_named(dnas, i, l) && (r matches Ok(DnaChoice::Chosen(d)) && d@ == dnas[i])
            } else {
                r matches Err(ScaffoldRemoteZomeError::NpmScaffoldingUtilsError(
                    NpmScaffoldingError::NpmPackageNotFoundError(n),
                )) && n@ == l
            },
            None => r matches Ok(DnaChoice::Ask { prompt, dnas: offered }) && prompt@ == dna_prompt(
                module_name,
            ) && models_of(offered@) == dnas,
        }
    }
}

fn dna_prompt_exec(module_name: &str) -> (r: String)
    ensures
        r@ == dna_prompt(module_name@),
{
    let mut v: Vec<char> = Vec::new();
    push_str(&mut v, "Multiple DNAs were found in this repository, choose one to scaffold the ");
    push_str(&mut v, module_name);
    push_str(&mut v, " zome into:");
    string_of(v.as_slice())
}

/// Chooses the DNA that a zome of `module_name` goes into, among `dnas`,
/// given the DNA the user asked for, if any.
pub fn choose_dna(
    dnas: Vec<NixifiedDna>,
    module_name: &str,
    local_dna_to_add_the_zome_to: Option<String>,
) -> (r: Result<DnaChoice, ScaffoldRemoteZomeError>)
    ensures
        chose_dna(models_of(dnas@), module_name@, opt_view(local_dna_to_add_the_zome_to), r),
{
    let ghost models = models_of(dnas@);
    assert forall|j: int| 0 <= j < dnas@.len() implies #[trigger] models[j] == dnas@[j]@ by {}
    if dnas.len() == 0 {
        return Err(ScaffoldRemoteZomeError::NoDnasFoundError);
    }
    if dnas.len() == 1 {
        match &local_dna_to_add_the_zome_to {
            Some(local) => {
                if dnas[0].name != *local {
                    return Err(ScaffoldRemoteZomeError::NoDnasFoundError);
                }
            },
            None => {},
        }
        return Ok(DnaChoice::Chosen(dnas[0].copied()));
    }
    match local_dna_to_add_the_zome_to {
        Some(local) => {
            let mut i: usize = 0;
            while i < dnas.len()
                invariant
                    i <= dnas.len(),
                    models == models_of(dnas@),
                    models.len() == dnas@.len(),
                    dnas.len() > 1,
                    opt_view(local_dna_to_add_the_zome_to) == Some(local@),
                    forall|j: int| 0 <= j < dnas@.len() ==> #[trigger] models[j] == dnas@[j]@,
                    forall|j: int| 0 <= j < i ==> #[trigger] models[j].name != local@,
                decreases dnas.len() - i,
            {
                if dnas[i].name == local {
                    assert(models[i as int] == dnas@[i as int]@);
                    assert(is_first_named(models, i as int, local@));
                    let chosen = dnas[i].copied();
                    let r = Ok(DnaChoice::Chosen(chosen));
                    assert(is_first_named(models, i as int, local@) && (r matches Ok(DnaChoice::Chosen(d)) && d@ == models[i as int]));
                    return r;
                }
                assert(models[i as int] == dnas@[i as int]@);
                i = i + 1;
            }
            assert forall|i: int| !is_first_named(models, i, local@) by {}
            Err(ScaffoldRemoteZomeError::NpmScaffoldingUtilsError(NpmScaffoldingError::NpmPackageNotFoundError(local)))
        },
        None => {
            let prompt = dna_prompt_exec(module_name);
            Ok(DnaChoice::Ask { prompt, dnas })
        },
    }
}

/// Finds the nixified DNAs of a project and chooses the one that a zome of
/// `module_name` goes into.
pub fn get_or_choose_dna(
    dna_manifests: &Vec<(String, String)>,
    nix_files: &Vec<(String, String)>,
    module_name: &str,
    local_dna_to_add_the_zome_to: Option<String>,
) -> (r: Result<DnaChoice, ScaffoldRemoteZomeError>)
    requires
        all_fit_in_memory(nix_files@),
    ensures
        match nixified_dnas(dna_manifests@, nix_files@) {
            Err(f) => r matches Err(e) && reports_failure(e, f),
            Ok(dnas) => chose_dna(dnas, module_name@, opt_view(local_dna_to_add_the_zome_to), r),
        },
{
    let dnas = find_nixified_dnas(dna_manifests, nix_files)?;
    choose_dna(dnas, module_name, local_dna_to_add_the_zome_to)
}

} // verus!
