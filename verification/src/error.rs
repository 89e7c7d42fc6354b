//! The errors of adding a remote zome to a project.

use vstd::prelude::*;

verus! {

/// The errors about the NPM packages of a project.
#[derive(Debug, PartialEq, Eq)]
pub enum NpmScaffoldingError {
    /// The project has no `package.json`.
    NoNpmPackagesFoundError,
    /// No NPM package of the project has the given name.
    NpmPackageNotFoundError(String),
}

/// The errors of scaffolding a remote zome into a project, as far as the
/// library's own rules raise them; the errors of the file system, of the
/// terminal and of the other scaffolding tools are the application's.
#[derive(Debug, PartialEq, Eq)]
pub enum ScaffoldRemoteZomeError {
    NpmScaffoldingUtilsError(NpmScaffoldingError),
    /// A regex could not be built; the message of the regex crate.
    RegexError(String),
    /// No nixified DNA was found, or not the requested one.
    NoDnasFoundError,
    /// Only one of the context element and its import was given.
    ContextElementOrImportError,
    DnaNotFoundError(String),
    /// The nix file at this path has no `zomes = {`.
    ZomesPropertyNotFoundError(String),
    /// Neither an integrity nor a coordinator zome was given.
    NoZomesSpecifiedError,
    /// A DNA manifest is not YAML; the message of the YAML parser.
    SerdeYamlError(String),
    /// The DNA manifest at this path lacks what the message says.
    MalformedDnaManifest(String, String),
}

} // verus!
