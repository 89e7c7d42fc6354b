//! What the command line tools ask and tell the user, as far as it follows
//! from their arguments.

use vstd::prelude::*;
use crate::text::{string_of, push_str, opt_view};
use crate::error::ScaffoldRemoteZomeError;

verus! {

/// The step that adds the zomes to the chosen `dna.nix`, in words.
pub open spec fn zomes_prompt_spec(integrity: Option<Seq<char>>, coordinator: Option<Seq<char>>) -> Option<Seq<char>> {
    match (integrity, coordinator) {
        (Some(i), Some(c)) => Some("Add the \""@ + i + "\" integrity zome and the \""@ + c
            + "\" coordinator zome to the dna.nix that you select."@),
        (Some(i), None) => Some("Add the \""@ + i + "\" integrity zome to the dna.nix that you select."@),
        (None, Some(c)) => Some("Add the \""@ + c + "\" coordinator zome to the dna.nix that you select."@),
        (None, None) => None,
    }
}

/// Says which zomes will be added to the chosen `dna.nix`; there must be at
/// least one.
pub fn zomes_prompt(
    integrity_zome_name: &Option<String>,
    coordinator_zome_name: &Option<String>,
) -> (r: Result<String, ScaffoldRemoteZomeError>)
    ensures
        match zomes_prompt_spec(opt_view(*integrity_zome_name), opt_view(*coordinator_zome_name)) {
            Some(p) => r matches Ok(s) && s@ == p,
            None => r matches Err(ScaffoldRemoteZomeError::NoZomesSpecifiedError),
        },
{
    let mut v: Vec<char> = Vec::new();
    match (integrity_zome_name, coordinator_zome_name) {
        (Some(i), Some(c)) => {
            push_str(&mut v, "Add the \"");
            push_str(&mut v, i.as_str());
            push_str(&mut v, "\" integrity zome and the \"");
            push_str(&mut v, c.as_str());
            push_str(&mut v, "\" coordinator zome to the dna.nix that you select.");
        },
        (Some(i), None) => {
            push_str(&mut v, "Add the \"");
            push_str(&mut v, i.as_str());
            push_str(&mut v, "\" integrity zome to the dna.nix that you select.");
        },
        (None, Some(c)) => {
            push_str(&mut v, "Add the \"");
            push_str(&mut v, c.as_str());
            push_str(&mut v, "\" coordinator zome to the dna.nix that you select.");
        },
        (None, None) => {
            return Err(ScaffoldRemoteZomeError::NoZomesSpecifiedError);
        },
    }
    Ok(string_of(v.as_slice()))
}

/// The step that sets up the context element, in words, or nothing.
pub open spec fn context_prompt_spec(context_element: Option<Seq<char>>, remote_npm_package_name: Seq<char>) -> Seq<char> {
    match context_element {
        Some(ce) => "- Set up the \"<"@ + ce
            + ">\" element in your top level app component so that you can directly import the UI elements you need from the "@
            + remote_npm_package_name + " package.\n"@,
        None => Seq::empty(),
    }
}

pub fn context_prompt(context_element: &Option<String>, remote_npm_package_name: &str) -> (r: String)
    ensures
        r@ == context_prompt_spec(opt_view(*context_element), remote_npm_package_name@),
{
    let mut v: Vec<char> = Vec::new();
    match context_element {
        Some(ce) => {
            push_str(&mut v, "- Set up the \"<");
            push_str(&mut v, ce.as_str());
            push_str(&mut v, ">\" element in your top level app component so that you can directly import the UI elements you need from the ");
            push_str(&mut v, remote_npm_package_name);
            push_str(&mut v, " package.\n");
        },
        None => {},
    }
    string_of(v.as_slice())
}

/// The context element and its import, when both are given; neither is fine
/// too, one without the other is an error.
pub fn context_element_request(
    context_element: Option<String>,
    context_element_import: Option<String>,
) -> (r: Result<Option<(String, String)>, ScaffoldRemoteZomeError>)
    ensures
        match (context_element, context_element_import) {
            (Some(e), Some(i)) => r matches Ok(Some((e2, i2))) && e2 == e && i2 == i,
            (None, None) => r matches Ok(None),
            _ => r matches Err(ScaffoldRemoteZomeError::ContextElementOrImportError),
        },
{
    match (context_element, context_element_import) {
        (Some(e), Some(i)) => Ok(Some((e, i))),
        (None, None) => Ok(None),
        _ => Err(ScaffoldRemoteZomeError::ContextElementOrImportError),
    }
}

// ---------------------------------------------------------------------------
// Scaffolding a TNESH zome
// ---------------------------------------------------------------------------

/// What the templates of a TNESH zome are rendered with.
#[derive(Debug, PartialEq, Eq)]
pub struct ScaffoldTneshZomeData {
    pub zome_name: String,
    pub npm_organization: String,
    pub github_organization: String,
    pub cachix_cache: Option<String>,
}

/// What is known so far: given as arguments, or answered.
#[derive(Debug, PartialEq, Eq)]
pub struct TneshZomeAnswers {
    pub zome_name: Option<String>,
    pub npm_organization: Option<String>,
    pub github_organization: Option<String>,
    pub cachix_cache: Option<String>,
    /// Whether the user wants a cachix cache, once asked.
    pub setup_cachix: Option<bool>,
}

/// The next question to the user, or the data to render the templates with.
#[derive(Debug, PartialEq, Eq)]
pub enum TneshZomeStep {
    AskZomeName { prompt: String },
    AskNpmOrganization { prompt: String },
    AskGithubOrganization { prompt: String, initial_text: String },
    AskSetupCachix { prompt: String },
    AskCachixCache { prompt: String, initial_text: String },
    Done(ScaffoldTneshZomeData),
}

/// The questions are asked in order: the zome name, the NPM organization,
/// the github organization (the NPM organization offered), whether to set
/// up a cachix cache, and its name (the NPM organization offered); what was
/// given is not asked.
pub open spec fn is_next_step(a: TneshZomeAnswers, s: TneshZomeStep) -> bool {
    if a.zome_name is None {
        s matches TneshZomeStep::AskZomeName { prompt } && prompt@ == "Enter the name of the coordinator zome (eg. posts):"@
    } else if a.npm_organization is None {
        s matches TneshZomeStep::AskNpmOrganization { prompt } && prompt@ == "Enter the name of the your NPM organization:"@
    } else if a.github_organization is None {
        s matches TneshZomeStep::AskGithubOrganization { prompt, initial_text }
            && prompt@ == "Enter the name of your github organization (or github username):"@
            && initial_text == a.npm_organization->0
    } else if a.cachix_cache is None && a.setup_cachix is None {
        s matches TneshZomeStep::AskSetupCachix { prompt } && prompt@ == "Do you want to set up cachix caching of the zome?"@
    } else if a.cachix_cache is None && a.setup_cachix == Some(true) {
        s matches TneshZomeStep::AskCachixCache { prompt, initial_text }
            && prompt@ == "Enter the name of your cachix cache:"@ && initial_text == a.npm_organization->0
    } else {
        s matches TneshZomeStep::Done(d) && d.zome_name == a.zome_name->0 && d.npm_organization
            == a.npm_organization->0 && d.github_organization == a.github_organization->0 && d.cachix_cache
            == a.cachix_cache
    }
}

/// The next step of scaffolding a TNESH zome.
pub fn next_tnesh_zome_step(answers: TneshZomeAnswers) -> (s: TneshZomeStep)
    ensures
        is_next_step(answers, s),
{
    let TneshZomeAnswers { zome_name, npm_organization, github_organization, cachix_cache, setup_cachix } = answers;
    let zome_name = match zome_name {
        Some(z) => z,
        None => {
            return TneshZomeStep::AskZomeName {
                prompt: "Enter the name of the coordinator zome (eg. posts):".to_string(),
            };
        },
    };
    let npm_organization = match npm_organization {
        Some(n) => n,
        None => {
            return TneshZomeStep::AskNpmOrganization {
                prompt: "Enter the name of the your NPM organization:".to_string(),
            };
        },
    };
    let github_organization = match github_organization {
        Some(g) => g,
        None => {
            return TneshZomeStep::AskGithubOrganization {
                prompt: "Enter the name of your github organization (or github username):".to_string(),
                initial_text: npm_organization,
            };
        },
    };
    match cachix_cache {
        Some(c) => TneshZomeStep::Done(
            ScaffoldTneshZomeData { zome_name, npm_organization, github_organization, cachix_cache: Some(c) },
        ),
        None => match setup_cachix {
            None => TneshZomeStep::AskSetupCachix {
                prompt: "Do you want to set up cachix caching of the zome?".to_string(),
            },
            Some(true) => TneshZomeStep::AskCachixCache {
                prompt: "Enter the name of your cachix cache:".to_string(),
                initial_text: npm_organization,
            },
            Some(false) => TneshZomeStep::Done(
                ScaffoldTneshZomeData { zome_name, npm_organization, github_organization, cachix_cache: None },
            ),
        },
    }
}

/// The folder that a TNESH zome named `name` is scaffolded into.
pub fn tnesh_zome_folder_name(name: &str) -> (r: String)
    ensures
        r@ == name@ + "-zome"@,
{
    let mut v: Vec<char> = Vec::new();
    push_str(&mut v, name);
    push_str(&mut v, "-zome");
    string_of(v.as_slice())
}

} // verus!
