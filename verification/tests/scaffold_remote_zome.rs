use tnesh_scaffolding::context::add_context_element_to_file;
use tnesh_scaffolding::dna::{find_dna_manifest_reference, find_nixified_dnas, get_or_choose_dna, DnaChoice};
use tnesh_scaffolding::error::{NpmScaffoldingError, ScaffoldRemoteZomeError};
use tnesh_scaffolding::manifest::{add_zomes_to_manifest, DnaManifestZomes, ZomeLocation};
use tnesh_scaffolding::nix::{add_zomes_to_dna_nix_file, nix_git_url};
use tnesh_scaffolding::npm::{choose_npm_package, npm_dependency_source, NpmPackageChoice};

fn empty_dna_yaml(dna_name: &str) -> String {
    format!(
        r#"
---
manifest_version: "1"
name: {dna_name}
integrity:
  network_seed: ~
  properties: ~
  origin_time: 1709638576394039
  zomes: []
coordinator:
  zomes: []
"#
    )
}

fn default_flake_nix() -> String {
    String::from(
        r#"{
  description = "Template for Holochain app development";
  
  inputs = {
    nixpkgs.follows = "holonix/nixpkgs";

    holonix.url = "github:holochain/holonix";
    tnesh-stack.url = "github:darksoil-studio/tnesh-stack/main-0.3";
  };
}
"#,
    )
}

fn empty_dna_nix() -> String {
    String::from(
        r#"{ inputs, ... }:

{
  perSystem =
    { inputs'
    , self'
    , system
    , ...
    }: {
  	  packages.my_dna = inputs.tnesh-stack.outputs.builders.${system}.dna {
        dnaManifest = ./dna.yaml;
        zomes = {
        };
      };

  	  packages.another_dna = inputs.tnesh-stack.outputs.builders.${system}.dna {
        dnaManifest = ./workdir/dna.yaml;
        zomes = {
        };
      };
    };
}
"#,
    )
}

fn expected_dna_nix() -> String {
    String::from(
        r#"{ inputs, ... }:

{
  perSystem =
    { inputs'
    , self'
    , system
    , ...
    }: {
  	  packages.my_dna = inputs.tnesh-stack.outputs.builders.${system}.dna {
        dnaManifest = ./dna.yaml;
        zomes = {
          profiles_integrity = inputs'.profiles-zome.packages.profiles_integrity;
          profiles = inputs'.profiles-zome.packages.profiles;
        };
      };

  	  packages.another_dna = inputs.tnesh-stack.outputs.builders.${system}.dna {
        dnaManifest = ./workdir/dna.yaml;
        zomes = {
        };
      };
    };
}
"#,
    )
}

fn empty_app_js() -> String {
    r#"import '@tnesh-stack/elements/dist/elements/app-client-context.js';

export class App {

  render() {
    return html`
      <app-client-context .client=${this.client}>
        <linked-devices-context role="my_dna">
        </linked-devices-context>
      </app-client-context>
    `;
  }
}"#
    .into()
}

fn expected_app_js() -> String {
    r#"import '@tnesh-stack/elements/dist/elements/app-client-context.js';
import '@darksoil-studio/profiles-zome/dist/elements/profiles-context.js';

export class App {

  render() {
    return html`
      <app-client-context .client=${this.client}>
        <profiles-context role="my_dna">
          <linked-devices-context role="my_dna">
          </linked-devices-context>
        </profiles-context>
      </app-client-context>
    `;
  }
}"#
    .into()
}

fn empty_svelte_app() -> String {
    r#"<script>
import { AppClient } from '@holochain/client';
</script>
<app-client-context client={this.client}>
  <linked-devices-context role="my_dna">
  </linked-devices-context>
</app-client-context>
"#
    .into()
}

fn project_manifests() -> Vec<(String, String)> {
    vec![
        ("dna.yaml".to_string(), empty_dna_yaml("my_dna")),
        ("workdir/dna.yaml".to_string(), empty_dna_yaml("another_dna")),
    ]
}

fn project_nix_files() -> Vec<(String, String)> {
    vec![
        ("dna.nix".to_string(), empty_dna_nix()),
        ("flake.nix".to_string(), default_flake_nix()),
    ]
}

#[test]
fn add_context_to_svelte_app() {
    let result = add_context_element_to_file(
        "app.svelte",
        &empty_svelte_app(),
        "package.json",
        "my_dna",
        "profiles-context",
        "@darksoil-studio/profiles-zome/dist/elements/profiles-context.js",
    );
    assert_eq!(
        result,
        r#"<script>
import { AppClient } from '@holochain/client';
import '@darksoil-studio/profiles-zome/dist/elements/profiles-context.js';
</script>
<app-client-context client={this.client}>
  <profiles-context role="my_dna">
    <linked-devices-context role="my_dna">
    </linked-devices-context>
  </profiles-context>
</app-client-context>
"#
    );
}

#[test]
fn multiple_package_test_app_js() {
    let result = add_context_element_to_file(
        "packages/package1/app.js",
        &empty_app_js(),
        "packages/package1/package.json",
        "my_dna",
        "profiles-context",
        "@darksoil-studio/profiles-zome/dist/elements/profiles-context.js",
    );
    assert_eq!(result, expected_app_js());
}

#[test]
fn single_package_test_app_js() {
    let result = add_context_element_to_file(
        "ui/app.js",
        &empty_app_js(),
        "ui/package.json",
        "my_dna",
        "profiles-context",
        "@darksoil-studio/profiles-zome/dist/elements/profiles-context.js",
    );
    assert_eq!(result, expected_app_js());
}

#[test]
fn files_outside_the_package_folder_are_left_alone() {
    let result = add_context_element_to_file(
        "packages/package2/app.js",
        &empty_app_js(),
        "packages/package1/package.json",
        "my_dna",
        "profiles-context",
        "x.js",
    );
    assert_eq!(result, empty_app_js());
}

#[test]
fn nixified_dnas_of_the_test_project() {
    let dnas = find_nixified_dnas(&project_manifests(), &project_nix_files()).unwrap();
    // Only the first `dnaManifest` of a nix file counts.
    assert_eq!(dnas.len(), 1);
    assert_eq!(dnas[0].name, "my_dna");
    assert_eq!(dnas[0].dna_nix.0, "dna.nix");
    assert_eq!(dnas[0].dna_manifest.0, "dna.yaml");
    let nix = empty_dna_nix();
    assert_eq!(dnas[0].dna_manifest_reference_index, nix.find("./dna.yaml").unwrap());
}

#[test]
fn test_project_dna_nix_gets_the_zomes() {
    let choice = get_or_choose_dna(&project_manifests(), &project_nix_files(), "profiles-zome", None).unwrap();
    let dna = match choice {
        DnaChoice::Chosen(dna) => dna,
        DnaChoice::Ask { .. } => panic!("a single DNA is taken"),
    };
    let edited = add_zomes_to_dna_nix_file(
        &dna.dna_nix.0,
        &dna.dna_nix.1,
        dna.dna_manifest_reference_index,
        "profiles-zome",
        &Some("profiles_integrity".to_string()),
        &Some("profiles".to_string()),
    )
    .unwrap();
    assert_eq!(edited, expected_dna_nix());
}

#[test]
fn test_project_flake_input_and_npm_source() {
    assert_eq!(
        nix_git_url("github:darksoil-studio/profiles-zome", &Some("main-0.3".to_string())),
        "github:darksoil-studio/profiles-zome/main-0.3"
    );
    assert_eq!(
        npm_dependency_source("github:darksoil-studio/profiles-zome", &Some("main-0.3".to_string()), "ui"),
        "github:darksoil-studio/profiles-zome#main-0.3&path:ui"
    );
}

#[test]
fn multiple_package_test_chooses_package1() {
    let paths = vec![
        "package.json".to_string(),
        "packages/package1/package.json".to_string(),
        "packages/package2/package.json".to_string(),
    ];
    let names = vec!["root".to_string(), "package1".to_string(), "package2".to_string()];
    match choose_npm_package(&paths, &names, "@darksoil-studio/profiles-zome", &Some("package1".to_string())) {
        Ok(NpmPackageChoice::Chosen(i)) => assert_eq!(i, 1),
        _ => panic!("package1 is chosen"),
    }
}

#[test]
fn single_package_test_chooses_the_ui_package() {
    let paths = vec!["package.json".to_string(), "ui/package.json".to_string()];
    let names = vec!["root".to_string(), "package1".to_string()];
    match choose_npm_package(&paths, &names, "@darksoil-studio/profiles-zome", &None) {
        Ok(NpmPackageChoice::Chosen(i)) => assert_eq!(i, 1),
        _ => panic!("ui/package.json is chosen"),
    }
}

#[test]
fn test_project_manifest_gets_the_zomes() {
    let mut zomes = DnaManifestZomes { integrity: vec![], coordinator: vec![] };
    add_zomes_to_manifest(&mut zomes, &Some("profiles_integrity".to_string()), &Some("profiles".to_string()));
    assert_eq!(zomes.integrity.len(), 1);
    assert_eq!(zomes.integrity[0].name, "profiles_integrity");
    assert_eq!(zomes.integrity[0].location, ZomeLocation::Bundled("<NIX_PACKAGE>".to_string()));
    assert_eq!(zomes.integrity[0].dependencies, None);
    assert_eq!(zomes.coordinator.len(), 1);
    assert_eq!(zomes.coordinator[0].name, "profiles");
    assert_eq!(zomes.coordinator[0].dependencies, Some(vec!["profiles_integrity".to_string()]));
}

#[test]
fn dna_manifest_reference_of_dna_nix() {
    let nix = empty_dna_nix();
    let (path, index) = find_dna_manifest_reference(&nix).unwrap();
    assert_eq!(path, "./dna.yaml");
    assert_eq!(index, nix.find("./dna.yaml").unwrap());
}

#[test]
fn errors_of_the_choices() {
    let err = match choose_npm_package(&vec![], &vec![], "x", &None) {
        Err(e) => e,
        Ok(_) => panic!("no package"),
    };
    assert_eq!(err, NpmScaffoldingError::NoNpmPackagesFoundError);
    let no_dna = get_or_choose_dna(&vec![], &project_nix_files(), "m", None);
    assert!(matches!(no_dna, Err(ScaffoldRemoteZomeError::NoDnasFoundError)));
}
