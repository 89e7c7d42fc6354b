//! Nix side of adding a remote zome: the flake input URL, the zomes added to
//! the `zomes = {` attribute set of a DNA's nix file, and the `dnaManifest = `
//! reference that ties a nix file to a DNA manifest.

use vstd::prelude::*;
use crate::text::{matches_at, matches_at_exec, chars_of, string_of, push_range, push_str, opt_view};
use crate::error::ScaffoldRemoteZomeError;

verus! {

// ---------------------------------------------------------------------------
// Flake input
// ---------------------------------------------------------------------------

/// The flake input URL of a remote zome: the git URL, then `/<branch>`.
pub open spec fn nix_git_url_spec(url: Seq<char>, branch: Option<Seq<char>>) -> Seq<char> {
    match branch {
        Some(b) => url + seq!['/'] + b,
        None => url,
    }
}

pub fn nix_git_url(remote_zome_git_url: &str, remote_zome_git_branch: &Option<String>) -> (r: String)
    ensures
        r@ == nix_git_url_spec(
            remote_zome_git_url@,
            opt_view(*remote_zome_git_branch),
        ),
{
    let mut v: Vec<char> = Vec::new();
    push_str(&mut v, remote_zome_git_url);
    match remote_zome_git_branch {
        Some(b) => {
            v.push('/');
            push_str(&mut v, b.as_str());
            assert(v@ =~= remote_zome_git_url@ + seq!['/'] + b@);
        },
        None => {
            assert(v@ =~= remote_zome_git_url@);
        },
    }
    string_of(v.as_slice())
}

// ---------------------------------------------------------------------------
// The zome attributes
// ---------------------------------------------------------------------------

/// `\n          <zome> = inputs'.<module>.packages.<zome>;`
pub open spec fn zome_attribute(module_name: Seq<char>, zome: Seq<char>) -> Seq<char> {
    seq!['\n', ' ', ' ', ' ', ' ', ' ', ' ', ' ', ' ', ' ', ' '] + zome
        + seq![' ', '=', ' ', 'i', 'n', 'p', 'u', 't', 's', '\'', '.'] + module_name
        + seq!['.', 'p', 'a', 'c', 'k', 'a', 'g', 'e', 's', '.'] + zome + seq![';']
}

pub open spec fn optional_zome_attribute(module_name: Seq<char>, zome: Option<Seq<char>>) -> Seq<char> {
    match zome {
        Some(z) => zome_attribute(module_name, z),
        None => Seq::empty(),
    }
}

/// The lines that add the integrity zome, then the coordinator zome, to a
/// `zomes = {` attribute set.
pub open spec fn zome_attributes(
    module_name: Seq<char>,
    integrity: Option<Seq<char>>,
    coordinator: Option<Seq<char>>,
) -> Seq<char> {
    optional_zome_attribute(module_name, integrity) + optional_zome_attribute(module_name, coordinator)
}

fn push_zome_attribute(out: &mut Vec<char>, module_name: &str, zome: &str)
    ensures
        final(out)@ == old(out)@ + zome_attribute(module_name@, zome@),
{
    let ghost start = out@;
    push_str(out, "\n          ");
    push_str(out, zome);
    push_str(out, " = inputs'.");
    push_str(out, module_name);
    push_str(out, ".packages.");
    push_str(out, zome);
    out.push(';');
    proof {
        reveal_strlit("\n          ");
        reveal_strlit(" = inputs'.");
        reveal_strlit(".packages.");
    }
    assert(out@ =~= start + zome_attribute(module_name@, zome@));
}

/// The text that goes after `zomes = {` for the given zomes.
pub fn zome_attributes_exec(
    module_name: &str,
    integrity_zome_name: &Option<String>,
    coordinator_zome_name: &Option<String>,
) -> (r: String)
    ensures
        r@ == zome_attributes(module_name@, opt_view(*integrity_zome_name), opt_view(*coordinator_zome_name)),
{
    let mut out: Vec<char> = Vec::new();
    match integrity_zome_name {
        Some(z) => push_zome_attribute(&mut out, module_name, z.as_str()),
        None => {},
    }
    assert(out@ =~= optional_zome_attribute(module_name@, opt_view(*integrity_zome_name)));
    match coordinator_zome_name {
        Some(z) => push_zome_attribute(&mut out, module_name, z.as_str()),
        None => {},
    }
    assert(out@ =~= zome_attributes(module_name@, opt_view(*integrity_zome_name), opt_view(*coordinator_zome_name)));
    string_of(out.as_slice())
}

// ---------------------------------------------------------------------------
// Byte offsets
// ---------------------------------------------------------------------------

/// How many bytes UTF-8 takes for `c`.
pub open spec fn utf8_width(c: char) -> int {
    if (c as u32) < 0x80 {
        1
    } else if (c as u32) < 0x800 {
        2
    } else if (c as u32) < 0x10000 {
        3
    } else {
        4
    }
}

/// The byte offset, in UTF-8, of the character at position `i` of `t`.
pub open spec fn byte_offset(t: Seq<char>, i: int) -> int
    decreases i,
{
    if i <= 0 {
        0
    } else {
        byte_offset(t, i - 1) + utf8_width(t[i - 1])
    }
}

fn utf8_width_exec(c: char) -> (w: u128)
    ensures
        w == utf8_width(c),
{
    let u = c as u32;
    if u < 0x80 {
        1
    } else if u < 0x800 {
        2
    } else if u < 0x10000 {
        3
    } else {
        4
    }
}

proof fn lemma_byte_offset_bounds(t: Seq<char>, i: int)
    requires
        0 <= i,
    ensures
        i <= byte_offset(t, i) <= 4 * i,
    decreases i,
{
    if i > 0 {
        lemma_byte_offset_bounds(t, i - 1);
    }
}

// ---------------------------------------------------------------------------
// `zomes = {`
// ---------------------------------------------------------------------------

/// `zomes = {`
pub open spec fn zomes_marker() -> Seq<char> {
    seq!['z', 'o', 'm', 'e', 's', ' ', '=', ' ', '{']
}

pub open spec fn distance(a: int, b: int) -> int {
    if a >= b {
        a - b
    } else {
        b - a
    }
}

/// The marker at `p` is the one whose byte offset is closest to `reference`,
/// the first of them on a tie.
pub open spec fn is_closest_marker(t: Seq<char>, reference: int, p: int) -> bool {
    &&& matches_at(t, p, zomes_marker())
    &&& forall|q: int| #[trigger] matches_at(t, q, zomes_marker()) && q < p ==> distance(reference, byte_offset(t, q)) > distance(reference, byte_offset(t, p))
    &&& forall|q: int| #[trigger] matches_at(t, q, zomes_marker()) && p < q ==> distance(reference, byte_offset(t, q)) >= distance(reference, byte_offset(t, p))
}

/// `s` inserted into `t` at position `k`.
pub open spec fn inserted_at(t: Seq<char>, k: int, s: Seq<char>) -> Seq<char> {
    t.subrange(0, k) + s + t.subrange(k, t.len() as int)
}

/// A name for what `Regex::new(r"zomes = \{")` then `Regex::replace(text,
/// replacement)` return: `text` with its first `zomes = {` replaced by
/// `replacement`, where the regex crate expands `$` references.
pub uninterp spec fn zomes_marker_replaced(text: Seq<char>, replacement: Seq<char>) -> Seq<char>;

/// Calls `regex::Regex::new(r"zomes = \{")` and `Regex::replace`.
///
/// Trusted: `Regex::new` fails only on a pattern that is not valid regex
/// syntax or that exceeds the compiled size limit, as the regex crate
/// documents it; this pattern is a fixed, valid nine-character literal, so
/// the result is `Ok`. Its text is the named `zomes_marker_replaced`; as the
/// regex crate documents `replace`, a replacement with no `$` replaces the
/// leftmost match (here the first `zomes = {`) verbatim.
#[verifier::external_body]
fn replace_first_zomes_marker(text: &str, replacement: &str) -> (r: Result<String, String>)
    ensures
        r is Ok,
        r matches Ok(s) ==> s@ == zomes_marker_replaced(text@, replacement@),
        r matches Ok(s) ==> (!replacement@.contains('$') ==> forall|p: int|
            #[trigger] matches_at(text@, p, zomes_marker()) && (forall|q: int|
                q < p ==> !matches_at(text@, q, zomes_marker())) ==> s@ == text@.subrange(0, p)
                + replacement@ + text@.subrange(p + 9, text@.len() as int)),
{
    match regex::Regex::new(r"zomes = \{") {
        Ok(re) => Ok(re.replace(text, replacement).to_string()),
        Err(e) => Err(e.to_string()),
    }
}

/// The outcome of adding zome attributes to a DNA's nix file.
pub enum DnaNixEdit {
    /// The file has no `zomes = {`.
    NoZomesProperty,
    /// The edited file.
    Edited(String),
}

/// The markers of a text: none, the first one and whether there is a second,
/// and the closest one to `reference`.
struct MarkerScan {
    first: Option<usize>,
    several: bool,
    closest: usize,
}

fn scan_markers(t: &[char], reference: usize) -> (r: MarkerScan)
    ensures
        match r.first {
            None => forall|q: int| !#[trigger] matches_at(t@, q, zomes_marker()),
            Some(f) => {
                &&& matches_at(t@, f as int, zomes_marker())
                &&& forall|q: int| q < f ==> !#[trigger] matches_at(t@, q, zomes_marker())
                &&& r.several <==> exists|q: int| q != f && #[trigger] matches_at(t@, q, zomes_marker())
                &&& is_closest_marker(t@, reference as int, r.closest as int)
            },
        },
{
    let marker: Vec<char> = vec!['z', 'o', 'm', 'e', 's', ' ', '=', ' ', '{'];
    assert(marker@ =~= zomes_marker());
    let mut first: Option<usize> = None;
    let mut second: Option<usize> = None;
    let mut closest: usize = 0;
    let mut closest_distance: u128 = 0;
    let mut off: u128 = 0;
    let mut i: usize = 0;
    while i < t.len()
        invariant
            i <= t.len(),
            marker@ == zomes_marker(),
            off == byte_offset(t@, i as int),
            off <= 4 * i,
            first is None ==> forall|q: int| q < i ==> !#[trigger] matches_at(t@, q, zomes_marker()),
            first is Some ==> first->0 < i,
            first is Some ==> matches_at(t@, first->0 as int, zomes_marker()),
            first is Some ==> forall|q: int| q < first->0 ==> !#[trigger] matches_at(t@, q, zomes_marker()),
            first is None ==> second is None,
            first is Some && second is Some ==> second->0 != first->0 && second->0 < i && matches_at(t@, second->0 as int, zomes_marker()),
            first is Some && second is None ==> forall|q: int| q != first->0 && q < i ==> !#[trigger] matches_at(t@, q, zomes_marker()),
            first is Some ==> closest < i,
            first is Some ==> matches_at(t@, closest as int, zomes_marker()),
            first is Some ==> closest_distance == distance(reference as int, byte_offset(t@, closest as int)),
            first is Some ==> forall|q: int| #[trigger] matches_at(t@, q, zomes_marker()) && q < closest ==> distance(reference as int, byte_offset(t@, q)) > closest_distance,
            first is Some ==> forall|q: int| #[trigger] matches_at(t@, q, zomes_marker()) && closest < q < i ==> distance(reference as int, byte_offset(t@, q)) >= closest_distance,
        decreases t.len() - i,
    {
        let r = reference as u128;
        let d: u128 = if r >= off { r - off } else { off - r };
        let found = matches_at_exec(t, i, marker.as_slice());
        assert(found == matches_at(t@, i as int, zomes_marker()));
        assert(d == distance(reference as int, byte_offset(t@, i as int)));
        if found {
            match first {
                None => {
                    first = Some(i);
                    closest = i;
                    closest_distance = d;
                },
                Some(f) => {
                    if second.is_none() {
                        second = Some(i);
                    }
                    if d < closest_distance {
                        closest = i;
                        closest_distance = d;
                    }
                },
            }
        }
        let w = utf8_width_exec(t[i]);
        proof {
            lemma_byte_offset_bounds(t@, i as int);
        }
        off = off + w;
        i = i + 1;
        assert(off == byte_offset(t@, i as int));
    }
    match first {
        Some(f) => {
            assert forall|q: int| #[trigger] matches_at(t@, q, zomes_marker()) implies q < i by {
                assert(q + 9 <= t@.len());
            }
        },
        None => {
            assert forall|q: int| !#[trigger] matches_at(t@, q, zomes_marker()) by {
                if matches_at(t@, q, zomes_marker()) {
                    assert(q + 9 <= t@.len());
                }
            }
        },
    }
    let several = second.is_some();
    MarkerScan { first, several, closest }
}

/// `zomes = {` occurs once in `t`, at `p`.
pub open spec fn single_marker(t: Seq<char>, p: int) -> bool {
    &&& matches_at(t, p, zomes_marker())
    &&& forall|q: int| q != p ==> !#[trigger] matches_at(t, q, zomes_marker())
}

/// `zomes = {` occurs more than once in `t`.
pub open spec fn several_markers(t: Seq<char>) -> bool {
    exists|p: int, q: int| p != q && #[trigger] matches_at(t, p, zomes_marker()) && #[trigger] matches_at(t, q, zomes_marker())
}

/// There is at most one closest marker.
pub proof fn lemma_closest_marker_unique(t: Seq<char>, reference: int, p: int, p2: int)
    requires
        is_closest_marker(t, reference, p),
        is_closest_marker(t, reference, p2),
    ensures
        p == p2,
{
    if p < p2 {
        assert(matches_at(t, p, zomes_marker()));
    } else if p2 < p {
        assert(matches_at(t, p2, zomes_marker()));
    }
}

/// Adds `string_to_add` after the `zomes = {` of a DNA's nix file: after the
/// only one, through the regex replacement, or, when there are several,
/// after the one closest to the byte offset `dna_manifest_reference_index`
/// of the `dnaManifest = ` reference of the DNA.
pub fn add_zomes_to_dna_nix(contents: &str, dna_manifest_reference_index: usize, string_to_add: &str) -> (r: DnaNixEdit)
    ensures
        r is NoZomesProperty <==> forall|q: int| !#[trigger] matches_at(contents@, q, zomes_marker()),
        forall|p: int| #[trigger] single_marker(contents@, p) ==> {
            &&& r matches DnaNixEdit::Edited(s) && s@ == zomes_marker_replaced(contents@, zomes_marker() + string_to_add@)
            &&& r matches DnaNixEdit::Edited(s) && (!string_to_add@.contains('$') ==> s@ == inserted_at(contents@, p + 9, string_to_add@))
        },
        several_markers(contents@) ==> exists|p: int| {
            &&& #[trigger] is_closest_marker(contents@, dna_manifest_reference_index as int, p)
            &&& r matches DnaNixEdit::Edited(s) && s@ == inserted_at(contents@, p + 9, string_to_add@)
        },
{
    let t = chars_of(contents);
    let scan = scan_markers(t.as_slice(), dna_manifest_reference_index);
    match scan.first {
        None => DnaNixEdit::NoZomesProperty,
        Some(f) => {
            if !scan.several {
                assert(single_marker(contents@, f as int));
                assert forall|p: int| #[trigger] single_marker(contents@, p) implies p == f by {}
                assert(!several_markers(contents@));
                let mut rep: Vec<char> = vec!['z', 'o', 'm', 'e', 's', ' ', '=', ' ', '{'];
                assert(rep@ =~= zomes_marker());
                push_str(&mut rep, string_to_add);
                let replacement = string_of(rep.as_slice());
                proof {
                    if !string_to_add@.contains('$') {
                        assert forall|i: int| 0 <= i < replacement@.len() implies replacement@[i] != '$' by {
                            if i >= 9 {
                                assert(replacement@[i] == string_to_add@[i - 9]);
                            }
                        }
                    }
                }
                match replace_first_zomes_marker(contents, replacement.as_str()) {
                    Ok(s) => {
                        proof {
                            if !string_to_add@.contains('$') {
                                assert(!replacement@.contains('$'));
                                assert(contents@.subrange(0, f + 9) =~= contents@.subrange(0, f as int) + zomes_marker());
                                assert(s@ =~= inserted_at(contents@, f + 9, string_to_add@));
                            }
                        }
                        DnaNixEdit::Edited(s)
                    },
                    Err(_) => {
                        proof {
                            assert(false);
                        }
                        DnaNixEdit::NoZomesProperty
                    },
                }
            } else {
                let c = scan.closest;
                let n = t.len();
                assert(c + 9 <= n);
                let mut out: Vec<char> = Vec::new();
                push_range(&mut out, t.as_slice(), 0, c + 9);
                push_str(&mut out, string_to_add);
                push_range(&mut out, t.as_slice(), c + 9, n);
                assert(out@ =~= inserted_at(contents@, c + 9, string_to_add@));
                proof {
                    let q = choose|q: int| q != f && #[trigger] matches_at(contents@, q, zomes_marker());
                    assert(several_markers(contents@));
                    assert forall|p: int| !#[trigger] single_marker(contents@, p) by {
                        if single_marker(contents@, p) {
                            if p == f {
                                assert(!matches_at(contents@, q, zomes_marker()));
                            } else {
                                assert(!matches_at(contents@, f as int, zomes_marker()));
                            }
                        }
                    }
                }
                DnaNixEdit::Edited(string_of(out.as_slice()))
            }
        },
    }
}

/// The edited nix file of a DNA once the integrity and coordinator zomes of
/// `module_name` were added to it; `r` is what `add_zomes_to_dna_nix_file`
/// returns for it.
pub open spec fn added_zomes_to_dna_nix_file(
    nix_path: Seq<char>,
    contents: Seq<char>,
    reference_index: int,
    module_name: Seq<char>,
    integrity: Option<Seq<char>>,
    coordinator: Option<Seq<char>>,
    r: Result<String, ScaffoldRemoteZomeError>,
) -> bool {
    let add = zome_attributes(module_name, integrity, coordinator);
    if integrity is None && coordinator is None {
        r matches Err(ScaffoldRemoteZomeError::NoZomesSpecifiedError)
    } else if forall|q: int| !#[trigger] matches_at(contents, q, zomes_marker()) {
        r matches Err(ScaffoldRemoteZomeError::ZomesPropertyNotFoundError(p)) && p@ == nix_path
    } else if several_markers(contents) {
        exists|p: int| #[trigger] is_closest_marker(contents, reference_index, p)
            && (r matches Ok(s) && s@ == inserted_at(contents, p + 9, add))
    } else {
        &&& r matches Ok(s) && s@ == zomes_marker_replaced(contents, zomes_marker() + add)
        &&& r matches Ok(s) && (!add.contains('$') ==> forall|p: int| #[trigger] single_marker(contents, p)
            ==> s@ == inserted_at(contents, p + 9, add))
    }
}

/// Adds the integrity and coordinator zomes of `module_name`, as packages of
/// the flake input of that name, to the `zomes = {` of the nix file at
/// `nix_path` whose contents are `contents` and whose `dnaManifest` path
/// starts at byte `dna_manifest_reference_index`.
pub fn add_zomes_to_dna_nix_file(
    nix_path: &str,
    contents: &str,
    dna_manifest_reference_index: usize,
    module_name: &str,
    integrity_zome_name: &Option<String>,
    coordinator_zome_name: &Option<String>,
) -> (r: Result<String, ScaffoldRemoteZomeError>)
    ensures
        added_zomes_to_dna_nix_file(
            nix_path@,
            contents@,
            dna_manifest_reference_index as int,
            module_name@,
            opt_view(*integrity_zome_name),
            opt_view(*coordinator_zome_name),
            r,
        ),
{
    if integrity_zome_name.is_none() && coordinator_zome_name.is_none() {
        return Err(ScaffoldRemoteZomeError::NoZomesSpecifiedError);
    }
    let add = zome_attributes_exec(module_name, integrity_zome_name, coordinator_zome_name);
    proof {
        if exists|q: int| matches_at(contents@, q, zomes_marker()) {
            if !several_markers(contents@) {
                let p = choose|q: int| matches_at(contents@, q, zomes_marker());
                assert forall|q: int| q != p implies !#[trigger] matches_at(contents@, q, zomes_marker()) by {
                    if matches_at(contents@, q, zomes_marker()) {
                        assert(several_markers(contents@));
                    }
                }
                assert(single_marker(contents@, p));
            }
        }
    }
    match add_zomes_to_dna_nix(contents, dna_manifest_reference_index, add.as_str()) {
        DnaNixEdit::NoZomesProperty => Err(ScaffoldRemoteZomeError::ZomesPropertyNotFoundError(nix_path.to_owned())),
        DnaNixEdit::Edited(s) => Ok(s),
    }
}

} // verus!
