use tnesh_scaffolding::context::add_context_to_contents;
use tnesh_scaffolding::dna::{
    choose_dna, find_nixified_dnas, get_or_choose_dna, manifest_dnas, nixified_dna_from, DnaChoice, ManifestName, NixifiedDna,
};
use tnesh_scaffolding::error::{NpmScaffoldingError, ScaffoldRemoteZomeError};
use tnesh_scaffolding::git_repo::{locked_revisions_to_sync, GitRepo, LockedRepo};
use tnesh_scaffolding::manifest::{add_zomes_to_manifest, DnaManifestZomes, ZomeLocation, ZomeManifest};
use tnesh_scaffolding::nix::{add_zomes_to_dna_nix_file, nix_git_url, zome_attributes_exec};
use tnesh_scaffolding::npm::{choose_npm_package, npm_dependency_source, select_npm_package, NpmPackageChoice};
use tnesh_scaffolding::paths::{file_name_exec, is_within_folder_exec, parent_folder_exec};
use tnesh_scaffolding::prompts::{
    context_element_request, context_prompt, next_tnesh_zome_step, tnesh_zome_folder_name, zomes_prompt,
    ScaffoldTneshZomeData, TneshZomeAnswers, TneshZomeStep,
};
use tnesh_scaffolding::sync_git::{self, next_git_sync_action, rev_tag_revision, rev_tag_source, GitSyncAction};
use tnesh_scaffolding::sync_rev::{
    self, next_rev_sync_action, rev_dependency, version_among, version_for_revision, NpmVersions, RevSyncAction,
};

fn dna(name: &str) -> NixifiedDna {
    NixifiedDna {
        name: name.to_string(),
        dna_nix: ("dna.nix".to_string(), String::new()),
        dna_manifest: (format!("{name}/dna.yaml"), String::new()),
        dna_manifest_reference_index: 0,
    }
}

const MANIFEST: &str = "manifest_version: '1'\nname: a_dna\nintegrity:\n  zomes: []\ncoordinator:\n  zomes: []\n";

#[test]
fn manifest_path_is_resolved_and_cleaned() {
    let manifests = vec![("dna.yaml".to_string(), MANIFEST.to_string())];
    let nix = vec![("nix/dna.nix".to_string(), "dnaManifest = ./../dna.yaml;".to_string())];
    let dnas = find_nixified_dnas(&manifests, &nix).unwrap();
    assert_eq!(dnas.len(), 1);
    assert_eq!(dnas[0].name, "a_dna");
    assert_eq!(dnas[0].dna_manifest_reference_index, 14);
    let elsewhere = vec![("nix/dna.nix".to_string(), "dnaManifest = ./dna.yaml;".to_string())];
    assert_eq!(find_nixified_dnas(&manifests, &elsewhere).unwrap().len(), 0);
}

#[test]
fn malformed_manifests_are_errors() {
    let nix = vec![];
    let not_yaml = vec![("d.yaml".to_string(), "a: [".to_string())];
    assert!(matches!(find_nixified_dnas(&not_yaml, &nix), Err(ScaffoldRemoteZomeError::SerdeYamlError(_))));
    let not_mapping = vec![("d.yaml".to_string(), "- a\n- b\n".to_string())];
    assert_eq!(
        find_nixified_dnas(&not_mapping, &nix).err().unwrap(),
        ScaffoldRemoteZomeError::MalformedDnaManifest("d.yaml".to_string(), "root level object is not a mapping".to_string())
    );
    let no_name = vec![("d.yaml".to_string(), "other: 1\n".to_string())];
    assert_eq!(
        find_nixified_dnas(&no_name, &nix).err().unwrap(),
        ScaffoldRemoteZomeError::MalformedDnaManifest("d.yaml".to_string(), "manifest does not have a name".to_string())
    );
}

#[test]
fn choosing_among_dnas() {
    assert_eq!(choose_dna(vec![], "m", None).err().unwrap(), ScaffoldRemoteZomeError::NoDnasFoundError);
    assert_eq!(
        choose_dna(vec![dna("a")], "m", Some("b".to_string())).err().unwrap(),
        ScaffoldRemoteZomeError::NoDnasFoundError
    );
    match choose_dna(vec![dna("a")], "m", Some("a".to_string())).unwrap() {
        DnaChoice::Chosen(d) => assert_eq!(d.name, "a"),
        _ => panic!(),
    }
    match choose_dna(vec![dna("a"), dna("b"), dna("b")], "m", Some("b".to_string())).unwrap() {
        DnaChoice::Chosen(d) => assert_eq!(d.dna_manifest.0, "b/dna.yaml"),
        _ => panic!(),
    }
    assert_eq!(
        choose_dna(vec![dna("a"), dna("b")], "m", Some("c".to_string())).err().unwrap(),
        ScaffoldRemoteZomeError::NpmScaffoldingUtilsError(NpmScaffoldingError::NpmPackageNotFoundError("c".to_string()))
    );
    match choose_dna(vec![dna("a"), dna("b")], "profiles", None).unwrap() {
        DnaChoice::Ask { prompt, dnas } => {
            assert_eq!(prompt, "Multiple DNAs were found in this repository, choose one to scaffold the profiles zome into:");
            assert_eq!(dnas.len(), 2);
        }
        _ => panic!(),
    }
}

#[test]
fn get_or_choose_dna_reports_manifest_errors() {
    let manifests = vec![("d.yaml".to_string(), "- a\n".to_string())];
    assert!(matches!(
        get_or_choose_dna(&manifests, &vec![], "m", None),
        Err(ScaffoldRemoteZomeError::MalformedDnaManifest(_, _))
    ));
}

#[test]
fn zome_lines_and_their_errors() {
    assert_eq!(
        zome_attributes_exec("mod", &Some("i".to_string()), &None),
        "\n          i = inputs'.mod.packages.i;"
    );
    assert_eq!(zome_attributes_exec("mod", &None, &None), "");
    assert_eq!(
        add_zomes_to_dna_nix_file("dna.nix", "zomes = {", 0, "m", &None, &None).err().unwrap(),
        ScaffoldRemoteZomeError::NoZomesSpecifiedError
    );
    assert_eq!(
        add_zomes_to_dna_nix_file("x/dna.nix", "nothing", 0, "m", &Some("i".to_string()), &None).err().unwrap(),
        ScaffoldRemoteZomeError::ZomesPropertyNotFoundError("x/dna.nix".to_string())
    );
    assert_eq!(
        add_zomes_to_dna_nix_file("dna.nix", "a zomes = { b", 0, "m", &None, &Some("c".to_string())).unwrap(),
        "a zomes = {\n          c = inputs'.m.packages.c; b"
    );
}

#[test]
fn the_closest_zomes_set_gets_the_zomes() {
    let t = "zomes = { one; zomes = { two; zomes = { three;";
    let r = add_zomes_to_dna_nix_file("dna.nix", t, 18, "m", &Some("i".to_string()), &None).unwrap();
    assert_eq!(r, "zomes = { one; zomes = {\n          i = inputs'.m.packages.i; two; zomes = { three;");
    // a tie goes to the first one
    let r = add_zomes_to_dna_nix_file("dna.nix", "zomes = {zomes = {", 4, "m", &Some("i".to_string()), &None).unwrap();
    assert!(r.starts_with("zomes = {\n"));
}

#[test]
fn urls_without_branch() {
    assert_eq!(nix_git_url("github:a/b", &None), "github:a/b");
    assert_eq!(npm_dependency_source("github:a/b", &None, "ui"), "github:a/b&path:ui");
}

#[test]
fn npm_package_choices() {
    let paths = vec!["a/package.json".to_string(), "b/package.json".to_string(), "c/package.json".to_string()];
    let names = vec!["a-dev".to_string(), "testing".to_string(), "app".to_string()];
    match choose_npm_package(&paths, &names, "dep", &None).unwrap() {
        NpmPackageChoice::Ask(q) => {
            assert_eq!(q.default, 2);
            assert_eq!(
                q.prompt,
                "Multiple NPM packages were found in this project. Choose one to which to add the dep dependency:"
            );
        }
        _ => panic!(),
    }
    assert_eq!(
        choose_npm_package(&paths, &names, "dep", &Some("zzz".to_string())).err().unwrap(),
        NpmScaffoldingError::NpmPackageNotFoundError("zzz".to_string())
    );
    match choose_npm_package(&vec!["x/package.json".to_string()], &vec![], "dep", &Some("other".to_string())).unwrap() {
        NpmPackageChoice::Chosen(i) => assert_eq!(i, 0),
        _ => panic!(),
    }
    assert_eq!(select_npm_package("d", &vec!["x-dev".to_string(), "y".to_string()]).default, 1);
}

#[test]
fn manifest_keeps_existing_zomes() {
    let existing = ZomeManifest {
        name: "old".to_string(),
        hash: None,
        location: ZomeLocation::Path("old.wasm".to_string()),
        dependencies: None,
        dylib: None,
    };
    let mut zomes = DnaManifestZomes { integrity: vec![existing], coordinator: vec![] };
    add_zomes_to_manifest(&mut zomes, &None, &Some("c".to_string()));
    assert_eq!(zomes.integrity.len(), 1);
    assert_eq!(zomes.integrity[0].name, "old");
    assert_eq!(zomes.coordinator[0].dependencies, None);
}

#[test]
fn paths_of_the_project() {
    assert_eq!(parent_folder_exec("a/b/package.json"), "a/b");
    assert_eq!(parent_folder_exec("package.json"), "");
    assert_eq!(file_name_exec("a/b/dna.yaml"), "dna.yaml");
    assert!(is_within_folder_exec("ui/app.js", "ui"));
    assert!(!is_within_folder_exec("ui2/app.js", "ui"));
    assert!(is_within_folder_exec("anything", ""));
}

#[test]
fn context_edit_without_imports_or_indent() {
    assert_eq!(
        add_context_to_contents("<app-client-context>x</app-client-context>", "r", "e", "i.js"),
        "<app-client-context>\n    <e role=\"r\">x</e>\n  </app-client-context>"
    );
}

#[test]
fn prompts_of_the_remote_zome_command() {
    assert_eq!(
        zomes_prompt(&Some("i".to_string()), &Some("c".to_string())).unwrap(),
        "Add the \"i\" integrity zome and the \"c\" coordinator zome to the dna.nix that you select."
    );
    assert_eq!(
        zomes_prompt(&Some("i".to_string()), &None).unwrap(),
        "Add the \"i\" integrity zome to the dna.nix that you select."
    );
    assert_eq!(
        zomes_prompt(&None, &Some("c".to_string())).unwrap(),
        "Add the \"c\" coordinator zome to the dna.nix that you select."
    );
    assert_eq!(zomes_prompt(&None, &None).err().unwrap(), ScaffoldRemoteZomeError::NoZomesSpecifiedError);
    assert_eq!(context_prompt(&None, "p"), "");
    assert_eq!(
        context_prompt(&Some("x-context".to_string()), "p"),
        "- Set up the \"<x-context>\" element in your top level app component so that you can directly import the UI elements you need from the p package.\n"
    );
    assert_eq!(
        context_element_request(Some("e".to_string()), None).err().unwrap(),
        ScaffoldRemoteZomeError::ContextElementOrImportError
    );
    assert_eq!(context_element_request(None, None).unwrap(), None);
}

fn answers(z: Option<&str>, n: Option<&str>, g: Option<&str>, c: Option<&str>, s: Option<bool>) -> TneshZomeAnswers {
    TneshZomeAnswers {
        zome_name: z.map(String::from),
        npm_organization: n.map(String::from),
        github_organization: g.map(String::from),
        cachix_cache: c.map(String::from),
        setup_cachix: s,
    }
}

#[test]
fn tnesh_zome_questions() {
    assert!(matches!(next_tnesh_zome_step(answers(None, None, None, None, None)), TneshZomeStep::AskZomeName { .. }));
    assert!(matches!(
        next_tnesh_zome_step(answers(Some("z"), None, None, None, None)),
        TneshZomeStep::AskNpmOrganization { .. }
    ));
    match next_tnesh_zome_step(answers(Some("z"), Some("org"), None, None, None)) {
        TneshZomeStep::AskGithubOrganization { initial_text, .. } => assert_eq!(initial_text, "org"),
        _ => panic!(),
    }
    assert!(matches!(
        next_tnesh_zome_step(answers(Some("z"), Some("org"), Some("gh"), None, None)),
        TneshZomeStep::AskSetupCachix { .. }
    ));
    match next_tnesh_zome_step(answers(Some("z"), Some("org"), Some("gh"), None, Some(true))) {
        TneshZomeStep::AskCachixCache { initial_text, prompt } => {
            assert_eq!(initial_text, "org");
            assert_eq!(prompt, "Enter the name of your cachix cache:");
        }
        _ => panic!(),
    }
    assert_eq!(
        next_tnesh_zome_step(answers(Some("z"), Some("org"), Some("gh"), None, Some(false))),
        TneshZomeStep::Done(ScaffoldTneshZomeData {
            zome_name: "z".to_string(),
            npm_organization: "org".to_string(),
            github_organization: "gh".to_string(),
            cachix_cache: None,
        })
    );
    assert_eq!(
        next_tnesh_zome_step(answers(Some("z"), Some("org"), Some("gh"), Some("cache"), None)),
        TneshZomeStep::Done(ScaffoldTneshZomeData {
            zome_name: "z".to_string(),
            npm_organization: "org".to_string(),
            github_organization: "gh".to_string(),
            cachix_cache: Some("cache".to_string()),
        })
    );
    assert_eq!(tnesh_zome_folder_name("posts"), "posts-zome");
}

fn node(t: &str, o: &str, r: &str, rev: &str) -> LockedRepo {
    LockedRepo { node_type: t.to_string(), owner: o.to_string(), repo: r.to_string(), rev: rev.to_string() }
}

#[test]
fn revisions_to_sync_follow_the_flake_lock() {
    let repo = GitRepo { owner: "o".to_string(), repo: "r".to_string(), git_type: "github".to_string() };
    let nodes = vec![
        node("github", "o", "r", "new1"),
        node("gitlab", "o", "r", "x"),
        node("github", "o", "r", "old"),
        node("github", "o", "r", "new2"),
    ];
    assert_eq!(locked_revisions_to_sync(&repo, "old", &nodes), vec!["new1".to_string(), "new2".to_string()]);
    let synced = vec![node("github", "o", "r", "old")];
    assert!(locked_revisions_to_sync(&repo, "old", &synced).is_empty());
}

#[test]
fn rev_tag_round_trip() {
    let source = rev_tag_source("abc123");
    assert_eq!(source, "rev-tag.abc123");
    assert_eq!(rev_tag_revision(&source), Some("abc123".to_string()));
    assert_eq!(rev_dependency("0.1.0-rev.abc"), Some(("0.1.0".to_string(), "abc".to_string())));
}

#[test]
fn npm_repo_errors() {
    assert_eq!(
        sync_git::get_repo("pkg", "nothing").err().unwrap(),
        sync_git::SynchronizeNpmGitDependenciesWithNixError::NpmRepoError(
            "pkg".to_string(),
            "Unrecognized repo URL from the output of npm repo: nothing".to_string()
        )
    );
    let repo = sync_rev::get_repo("pkg", "https://github.com/darksoil-studio/profiles-zome\n").unwrap();
    assert_eq!(repo, GitRepo {
        owner: "darksoil-studio".to_string(),
        repo: "profiles-zome".to_string(),
        git_type: "github".to_string()
    });
}

#[test]
fn versions_for_a_revision() {
    let show = r#"{"name": "p", "versions": ["0.1.0", 3, "0.2.0-rev.abc123", "0.3.0-rev.abc123"]}"#;
    assert_eq!(version_for_revision("p", "abc123", show).unwrap(), "0.2.0-rev.abc123");
    assert_eq!(
        version_for_revision("p", "zzz", show).err().unwrap(),
        sync_rev::SynchronizeNpmGitDependenciesWithNixError::NpmShowError(
            "p".to_string(),
            "No version found for the revision zzz".to_string()
        )
    );
    assert_eq!(
        version_for_revision("p", "a", r#"{"name": "p"}"#).err().unwrap(),
        sync_rev::SynchronizeNpmGitDependenciesWithNixError::NpmShowError(
            "p".to_string(),
            "No versions returned for npm show".to_string()
        )
    );
    assert!(matches!(
        version_for_revision("p", "a", "not json"),
        Err(sync_rev::SynchronizeNpmGitDependenciesWithNixError::SerdeJsonError(_))
    ));
}

#[test]
fn manifest_dnas_from_a_read_name() {
    let manifest = ("dna.yaml".to_string(), MANIFEST.to_string());
    let nix = vec![("dna.nix".to_string(), "dnaManifest = ./dna.yaml;".to_string())];
    let found = manifest_dnas(&manifest, ManifestName::Name("n".to_string()), &nix).unwrap();
    assert_eq!(found.len(), 1);
    assert_eq!(found[0].name, "n");
    assert_eq!(
        manifest_dnas(&manifest, ManifestName::NoName, &nix).err().unwrap(),
        ScaffoldRemoteZomeError::MalformedDnaManifest("dna.yaml".to_string(), "manifest does not have a name".to_string())
    );
    assert!(nixified_dna_from(&"n".to_string(), &manifest, &nix[0], &"other.yaml".to_string(), 3).is_none());
    assert_eq!(
        nixified_dna_from(&"n".to_string(), &manifest, &nix[0], &"dna.yaml".to_string(), 3)
            .unwrap()
            .dna_manifest_reference_index,
        3
    );
}

#[test]
fn version_among_read_versions() {
    let versions = NpmVersions::Versions(vec![None, Some("1.0.0-rev.ab".to_string())]);
    assert_eq!(version_among("p", "ab", versions).unwrap(), "1.0.0-rev.ab");
    assert!(matches!(
        version_among("p", "ab", NpmVersions::Unparsable("bad".to_string())),
        Err(sync_rev::SynchronizeNpmGitDependenciesWithNixError::SerdeJsonError(m)) if m == "bad"
    ));
}

#[test]
fn single_zomes_set_goes_through_the_regex_replacement() {
    let r = add_zomes_to_dna_nix_file("dna.nix", "zomes = { x", 0, "m", &Some("a$b".to_string()), &None).unwrap();
    assert_eq!(r, "zomes = {\n          a = inputs'.m.packages.a; x");
    let r = add_zomes_to_dna_nix_file("dna.nix", "{ zomes = { x }", 0, "m", &Some("i".to_string()), &Some("c".to_string()))
        .unwrap();
    assert_eq!(r, "{ zomes = {\n          i = inputs'.m.packages.i;\n          c = inputs'.m.packages.c; x }");
}

#[test]
fn parser_messages_are_passed_on() {
    let text = "a: [";
    let expected = serde_yaml::from_str::<serde_yaml::Value>(text).unwrap_err().to_string();
    let manifests = vec![("d.yaml".to_string(), text.to_string())];
    assert_eq!(
        find_nixified_dnas(&manifests, &vec![]).err().unwrap(),
        ScaffoldRemoteZomeError::SerdeYamlError(expected)
    );
    let manifest = ("dna.yaml".to_string(), MANIFEST.to_string());
    assert_eq!(
        manifest_dnas(&manifest, ManifestName::Unparsable("boom".to_string()), &vec![]).err().unwrap(),
        ScaffoldRemoteZomeError::SerdeYamlError("boom".to_string())
    );
    let expected = serde_json::from_str::<serde_json::Value>("not json").unwrap_err().to_string();
    assert_eq!(
        version_for_revision("p", "a", "not json").err().unwrap(),
        sync_rev::SynchronizeNpmGitDependenciesWithNixError::SerdeJsonError(expected)
    );
}

#[test]
fn rev_npm_repo_errors() {
    assert_eq!(
        sync_rev::get_repo("pkg", "nothing").err().unwrap(),
        sync_rev::SynchronizeNpmGitDependenciesWithNixError::NpmRepoError(
            "pkg".to_string(),
            "Unrecognized repo URL from the output of npm repo: nothing".to_string()
        )
    );
}

#[test]
fn rev_tag_synchronization_twice_moves_nothing() {
    let repo = GitRepo { owner: "o".to_string(), repo: "r".to_string(), git_type: "github".to_string() };
    let nodes = vec![node("github", "o", "other", "x"), node("github", "o", "r", "def456")];
    let revision = rev_tag_revision("rev-tag.abc123").unwrap();
    let revs = locked_revisions_to_sync(&repo, &revision, &nodes);
    assert_eq!(revs, vec!["def456".to_string()]);
    let synchronized = rev_tag_source(revs.last().unwrap());
    assert_eq!(synchronized, "rev-tag.def456");
    let again = rev_tag_revision(&synchronized).unwrap();
    assert!(locked_revisions_to_sync(&repo, &again, &nodes).is_empty());
}

#[test]
fn rev_synchronization_twice_moves_nothing() {
    let repo = GitRepo { owner: "o".to_string(), repo: "r".to_string(), git_type: "github".to_string() };
    let nodes = vec![node("github", "o", "r", "def456")];
    let (_, revision) = rev_dependency("0.1.0-rev.abc123").unwrap();
    let revs = locked_revisions_to_sync(&repo, &revision, &nodes);
    assert_eq!(revs, vec!["def456".to_string()]);
    let show = r#"{"versions": ["0.1.0-rev.abc123", "0.2.0-rev.def456"]}"#;
    let synchronized = version_for_revision("p", revs.last().unwrap(), show).unwrap();
    assert_eq!(synchronized, "0.2.0-rev.def456");
    let (version, again) = rev_dependency(&synchronized).unwrap();
    assert_eq!(version, "0.2.0");
    assert!(locked_revisions_to_sync(&repo, &again, &nodes).is_empty());
}

fn pretty(text: &str) -> String {
    serde_json::to_string_pretty(&serde_json::from_str::<serde_json::Value>(text).unwrap()).unwrap()
}

#[test]
fn git_sync_of_a_package_json_asks_then_writes() {
    let text = r#"{"name": "x", "dependencies": {"a": "rev-tag.abc", "b": "1.0.0", "c": 3}}"#;
    let nodes = vec![node("github", "o", "r", "def"), node("github", "o", "other", "zzz")];
    match next_git_sync_action(text, &nodes, &vec![]).unwrap() {
        GitSyncAction::NpmRepo(p) => assert_eq!(p, "a"),
        other => panic!("unexpected {other:?}"),
    }
    let answers = vec![("a".to_string(), "https://github.com/o/r\n".to_string())];
    let written = match next_git_sync_action(text, &nodes, &answers).unwrap() {
        GitSyncAction::Write(t, moved) => {
            assert_eq!(moved, vec![("a".to_string(), "def".to_string())]);
            t
        }
        other => panic!("unexpected {other:?}"),
    };
    assert_eq!(written, pretty(r#"{"name": "x", "dependencies": {"a": "rev-tag.def", "b": "1.0.0", "c": 3}}"#));
    match next_git_sync_action(&written, &nodes, &answers).unwrap() {
        GitSyncAction::Write(t, moved) => {
            assert!(moved.is_empty());
            assert_eq!(t, written);
        }
        other => panic!("unexpected {other:?}"),
    }
}

#[test]
fn git_sync_errors_and_files_without_dependencies() {
    let expected = serde_json::from_str::<serde_json::Value>("{").unwrap_err().to_string();
    assert_eq!(next_git_sync_action("{", &vec![], &vec![]).unwrap_err(), sync_git::SynchronizeNpmGitDependenciesWithNixError::SerdeJsonError(expected));
    let text = r#"{"dependencies": {"a": "rev-tag.abc"}}"#;
    let answers = vec![("a".to_string(), "nothing".to_string())];
    assert_eq!(
        next_git_sync_action(text, &vec![], &answers).unwrap_err(),
        sync_git::SynchronizeNpmGitDependenciesWithNixError::NpmRepoError("a".to_string(), "Unrecognized repo URL from the output of npm repo: nothing".to_string())
    );
    match next_git_sync_action(r#"{"name": "x"}"#, &vec![], &vec![]).unwrap() {
        GitSyncAction::Write(t, moved) => {
            assert!(moved.is_empty());
            assert_eq!(t, pretty(r#"{"name": "x"}"#));
        }
        other => panic!("unexpected {other:?}"),
    }
}

#[test]
fn rev_sync_of_a_package_json_asks_then_writes() {
    let text = r#"{"dependencies": {"a": "0.1.0-rev.abc", "b": "^1.0.0"}}"#;
    let nodes = vec![node("github", "o", "r", "def")];
    match next_rev_sync_action(text, &nodes, &vec![], &vec![]).unwrap() {
        RevSyncAction::NpmRepo(p) => assert_eq!(p, "a"),
        other => panic!("unexpected {other:?}"),
    }
    let repos = vec![("a".to_string(), "https://github.com/o/r".to_string())];
    match next_rev_sync_action(text, &nodes, &repos, &vec![]).unwrap() {
        RevSyncAction::NpmShow(p) => assert_eq!(p, "a"),
        other => panic!("unexpected {other:?}"),
    }
    let shows = vec![("a".to_string(), r#"{"versions": ["0.1.0-rev.abc", "0.2.0-rev.def"]}"#.to_string())];
    let written = match next_rev_sync_action(text, &nodes, &repos, &shows).unwrap() {
        RevSyncAction::Write(t, moved) => {
            assert_eq!(moved, vec![("a".to_string(), "0.2.0-rev.def".to_string())]);
            t
        }
        other => panic!("unexpected {other:?}"),
    };
    assert_eq!(written, pretty(r#"{"dependencies": {"a": "0.2.0-rev.def", "b": "^1.0.0"}}"#));
    assert!(matches!(next_rev_sync_action(&written, &nodes, &repos, &shows).unwrap(), RevSyncAction::Unchanged));
    assert!(matches!(next_rev_sync_action(r#"[1, 2]"#, &nodes, &repos, &shows).unwrap(), RevSyncAction::Unchanged));
}

#[test]
fn rev_sync_reports_missing_versions() {
    let text = r#"{"dependencies": {"a": "0.1.0-rev.abc"}}"#;
    let nodes = vec![node("github", "o", "r", "def")];
    let repos = vec![("a".to_string(), "https://github.com/o/r".to_string())];
    let shows = vec![("a".to_string(), r#"{"versions": "none"}"#.to_string())];
    assert_eq!(
        next_rev_sync_action(text, &nodes, &repos, &shows).unwrap_err(),
        sync_rev::SynchronizeNpmGitDependenciesWithNixError::NpmShowError(
            "a".to_string(),
            "No versions returned for npm show".to_string()
        )
    );
}

#[test]
fn manifest_roots_that_are_not_plain_mappings() {
    let nix = vec![];
    let tagged = vec![("d.yaml".to_string(), "!tag\nname: x\n".to_string())];
    assert_eq!(
        find_nixified_dnas(&tagged, &nix).err().unwrap(),
        ScaffoldRemoteZomeError::MalformedDnaManifest("d.yaml".to_string(), "root level object is not a mapping".to_string())
    );
    let number_name = vec![("d.yaml".to_string(), "name: 3\n".to_string())];
    assert_eq!(
        find_nixified_dnas(&number_name, &nix).err().unwrap(),
        ScaffoldRemoteZomeError::MalformedDnaManifest("d.yaml".to_string(), "manifest does not have a name".to_string())
    );
}
