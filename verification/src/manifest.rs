//! The zomes of a DNA manifest, and the entries that a remote zome adds to
//! them.

use vstd::prelude::*;

verus! {

/// Where the code of a zome comes from.
#[derive(Debug, PartialEq, Eq)]
pub enum ZomeLocation {
    Bundled(String),
    Path(String),
    Url(String),
}

/// A zome entry of a DNA manifest.
#[derive(Debug, PartialEq, Eq)]
pub struct ZomeManifest {
    pub name: String,
    pub hash: Option<String>,
    pub location: ZomeLocation,
    /// The names of the zomes it depends on.
    pub dependencies: Option<Vec<String>>,
    pub dylib: Option<String>,
}

/// The integrity and coordinator zomes of a DNA manifest.
#[derive(Debug, PartialEq, Eq)]
pub struct DnaManifestZomes {
    pub integrity: Vec<ZomeManifest>,
    pub coordinator: Vec<ZomeManifest>,
}

/// The location of a zome that the nix flake builds.
pub open spec fn nix_package_location() -> Seq<char> {
    "<NIX_PACKAGE>"@
}

/// `z` is the entry of a zome named `name` that the nix flake builds, with
/// the given dependencies and nothing else set.
pub open spec fn is_nix_package_zome(z: ZomeManifest, name: Seq<char>, dependencies: Option<Seq<Seq<char>>>) -> bool {
    &&& z.name@ == name
    &&& z.hash is None
    &&& z.location matches ZomeLocation::Bundled(l) && l@ == nix_package_location()
    &&& match (z.dependencies, dependencies) {
        (None, None) => true,
        (Some(d), Some(e)) => d@.len() == e.len() && forall|i: int| 0 <= i < e.len() ==> #[trigger] d@[i]@ == e[i],
        _ => false,
    }
    &&& z.dylib is None
}

fn nix_package_zome(name: &String, dependencies: Option<Vec<String>>) -> (z: ZomeManifest)
    ensures
        is_nix_package_zome(
            z,
            name@,
            match dependencies {
                Some(d) => Some(d@.map_values(|s: String| s@)),
                None => None,
            },
        ),
{
    let location = "<NIX_PACKAGE>".to_string();
    ZomeManifest {
        name: name.clone(),
        hash: None,
        location: ZomeLocation::Bundled(location),
        dependencies,
        dylib: None,
    }
}

/// Adds the integrity zome, if any, to the integrity zomes, and the
/// coordinator zome, if any, to the coordinator zomes, both as nix packages;
/// the coordinator depends on the integrity zome when there is one.
pub fn add_zomes_to_manifest(
    manifest: &mut DnaManifestZomes,
    integrity_zome_name: &Option<String>,
    coordinator_zome_name: &Option<String>,
)
    ensures
        match integrity_zome_name {
            Some(n) => final(manifest).integrity@.len() == old(manifest).integrity@.len() + 1
                && final(manifest).integrity@.drop_last() == old(manifest).integrity@
                && is_nix_package_zome(final(manifest).integrity@.last(), n@, None),
            None => final(manifest).integrity@ == old(manifest).integrity@,
        },
        match coordinator_zome_name {
            Some(c) => final(manifest).coordinator@.len() == old(manifest).coordinator@.len() + 1
                && final(manifest).coordinator@.drop_last() == old(manifest).coordinator@
                && is_nix_package_zome(
                    final(manifest).coordinator@.last(),
                    c@,
                    match integrity_zome_name {
                        Some(n) => Some(seq![n@]),
                        None => None,
                    },
                ),
            None => final(manifest).coordinator@ == old(manifest).coordinator@,
        },
{
    match integrity_zome_name {
        Some(n) => {
            let z = nix_package_zome(n, None);
            manifest.integrity.push(z);
            assert(manifest.integrity@.drop_last() =~= old(manifest).integrity@);
        },
        None => {},
    }
    match coordinator_zome_name {
        Some(c) => {
            let dependencies = match integrity_zome_name {
                Some(n) => {
                    let mut d: Vec<String> = Vec::new();
                    d.push(n.clone());
                    assert(d@.map_values(|s: String| s@) =~= seq![n@]);
                    Some(d)
                },
                None => None,
            };
            let z = nix_package_zome(c, dependencies);
            manifest.coordinator.push(z);
            assert(manifest.coordinator@.drop_last() =~= old(manifest).coordinator@);
        },
        None => {},
    }
}

} // verus!
