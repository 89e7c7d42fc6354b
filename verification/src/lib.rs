//! Verified core of the TNESH scaffolding tools: the text edits that add a
//! remote zome to a hApp, the choices between DNAs and NPM packages, and the
//! rules that keep npm git dependencies in step with a flake lock.

pub mod text;


pub mod paths;
pub mod context;
pub mod nix;
pub mod error;
pub mod dna;
pub mod manifest;
pub mod npm;
pub mod git_repo;
pub mod sync_git;
pub mod sync_rev;
pub mod prompts;
pub mod laws;
pub mod json;
pub mod yaml;
