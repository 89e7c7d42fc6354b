//! The library's readings of the scaffolding patterns, held against the
//! regex crate on the same inputs.

use regex::{Captures, Regex};
use tnesh_scaffolding::context::add_context_to_contents;
use tnesh_scaffolding::dna::find_dna_manifest_reference;
use tnesh_scaffolding::git_repo::parse_npm_repo_output;
use tnesh_scaffolding::nix::add_zomes_to_dna_nix_file;
use tnesh_scaffolding::sync_git::rev_tag_revision;
use tnesh_scaffolding::sync_rev::rev_dependency;

fn regex_context(contents: &str, role: &str, context_element: &str, import: &str) -> String {
    let context_re = Regex::new(
        r"(?<before>[\S\s]*)<app-client-context(?<appclientcontextprops>[^>]*)>(?<middle>[\S\s]*)</app-client-context>(?<after>[\S\s]*)",
    )
    .unwrap();
    let indent_before_context_re = Regex::new(r"\n(?<indent>[\s]*)<app-client-context").unwrap();
    let import_re = Regex::new(r"(?<before>[\S\s]*)import (?<importmiddle>[^\n;]*)[;|\n](?<after>[\S\s]*)").unwrap();
    if !context_re.is_match(contents) {
        return contents.to_string();
    }
    let indentation = match indent_before_context_re.captures(contents) {
        Some(c) => c["indent"].to_string(),
        None => "  ".to_string(),
    };
    let new_contents = context_re.replace(contents, |caps: &Captures| {
        let middle = caps["middle"].replace('\n', "\n  ");
        format!(
            "{}<app-client-context{}>\n{indentation}  <{context_element} role=\"{role}\">{middle}</{context_element}>\n{indentation}</app-client-context>{}",
            &caps["before"], &caps["appclientcontextprops"], &caps["after"],
        )
    });
    let new_contents = import_re.replace(&new_contents, |caps: &Captures| {
        format!("{}import {};\nimport '{}';{}", &caps["before"], &caps["importmiddle"], import, &caps["after"])
    });
    new_contents.to_string()
}

const CONTEXT_INPUTS: &[&str] = &[
    "",
    "no context here",
    "<app-client-context>x</app-client-context>",
    "<app-client-context></app-client-context>",
    "import a;\n<app-client-context a=1>\n  <x>\n  </x>\n</app-client-context>\n",
    "import a\n\n\n  <app-client-context b>\n<y/></app-client-context>tail",
    "import a|b\n<app-client-context>m</app-client-context>",
    "import a|b|c<app-client-context>m</app-client-context>",
    "import x;import y;\n<app-client-context>m</app-client-context>",
    "<app-client-context p>one</app-client-context><app-client-context q>two</app-client-context>",
    "<app-client-context p>one</app-client-context> and </app-client-context> again",
    "<app-client-context no closing bracket </app-client-context>",
    "<app-client-context>\n<app-client-context>\n</app-client-context>\n</app-client-context>",
    "x\n \t\u{a0}<app-client-context>é\n</app-client-context>",
    "\n\n<app-client-context>\n</app-client-context>",
    "<app-client-context>m</app-client-context>\nimport last",
    "import z;\r\n  <app-client-context .client=${c}>\r\n  </app-client-context>\r\n",
    "<app-client-context-other>m</app-client-context>",
    "import é; <app-client-context>ü</app-client-context> import ;",
];

#[test]
fn context_edit_agrees_with_the_regexes() {
    for input in CONTEXT_INPUTS {
        assert_eq!(
            add_context_to_contents(input, "my_dna", "profiles-context", "p.js"),
            regex_context(input, "my_dna", "profiles-context", "p.js"),
            "input {input:?}"
        );
    }
}

fn regex_dna_reference(contents: &str) -> Option<(String, usize)> {
    let re = Regex::new(r#"dnaManifest = (?<dnaManifestPath>./[^;]*);"#).unwrap();
    re.captures(contents).map(|c| {
        let capture = c.name("dnaManifestPath").unwrap();
        (capture.as_str().to_string(), capture.start())
    })
}

#[test]
fn dna_manifest_reference_agrees_with_the_regex() {
    for input in [
        "",
        "dnaManifest = ./dna.yaml;",
        "x dnaManifest = ./a; dnaManifest = ./b;",
        "dnaManifest = ./no-semicolon",
        "dnaManifest = ab; dnaManifest = é/c;",
        "é dnaManifest = ./ü/dna.yaml;",
        "dnaManifest = \n/x; dnaManifest = ;/y;",
        "dnaManifest = //abs;",
    ] {
        assert_eq!(find_dna_manifest_reference(input), regex_dna_reference(input), "input {input:?}");
    }
}

fn regex_repo(output: &str) -> Option<(String, String, String)> {
    let re = Regex::new(r#"https://(github|gitlab).com/([^/]+)/([^\n]+)"#).unwrap();
    re.captures(output).map(|c| (c[1].to_string(), c[2].to_string(), c[3].to_string()))
}

#[test]
fn repo_url_agrees_with_the_regex() {
    for input in [
        "",
        "https://github.com/owner/repo",
        "https://github.com/owner/repo\n",
        "see https://gitlab.com/o/r/sub\nnext",
        "https://github.com//repo https://github.com/a/b",
        "https://github.com/owner/\nhttps://gitlabxcom/x/y",
        "https://github.com/own\ner/repo",
        "https://bitbucket.org/a/b",
        "https://github.com/owner",
    ] {
        let ours = parse_npm_repo_output(input).map(|g| (g.git_type, g.owner, g.repo));
        assert_eq!(ours, regex_repo(input), "input {input:?}");
    }
}

#[test]
fn rev_tag_agrees_with_the_regex() {
    let re = Regex::new(r#"rev-tag\.(.*)$"#).unwrap();
    for input in ["", "rev-tag.abc", "x rev-tag.1 rev-tag.2", "rev-tag.a\nrev-tag.b", "rev-tag.a\n", "github:x#rev-tag.", "rev-tag"] {
        let expected = re.captures(input).map(|c| c[1].to_string());
        assert_eq!(rev_tag_revision(input), expected, "input {input:?}");
    }
}

#[test]
fn rev_dependency_agrees_with_the_regex() {
    let re = Regex::new(r#"^(.*)-rev\.(.*)$"#).unwrap();
    for input in ["", "0.1.0-rev.abc", "1-rev.2-rev.3", "a\n-rev.b", "-rev.", "0.1.0", "x-rev.y\n"] {
        let expected = re.captures(input).map(|c| (c[1].to_string(), c[2].to_string()));
        assert_eq!(rev_dependency(input), expected, "input {input:?}");
    }
}

fn regex_zomes(contents: &str, reference: usize, add: &str) -> Option<String> {
    let zomes_re = Regex::new(r#"zomes = \{"#).unwrap();
    let captures: Vec<Captures<'_>> = zomes_re.captures_iter(contents).collect();
    match captures.len() {
        0 => None,
        1 => Some(zomes_re.replace(contents, format!("zomes = {{{add}")).to_string()),
        _ => {
            let distance = |c: &Captures<'_>| ((reference as isize) - c.get(0).unwrap().start() as isize).abs() as usize;
            let c = captures.into_iter().min_by_key(distance).unwrap();
            let mut s = contents.to_string();
            s.insert_str(c.get(0).unwrap().end(), add);
            Some(s)
        }
    }
}

#[test]
fn zomes_edit_agrees_with_the_regex() {
    let integrity = Some("i".to_string());
    let coordinator = Some("c".to_string());
    let add = "\n          i = inputs'.m.packages.i;\n          c = inputs'.m.packages.c;";
    for (input, reference) in [
        ("zomes = {};", 0usize),
        ("a zomes = { b zomes = { c", 0),
        ("a zomes = { b zomes = { c", 11),
        ("a zomes = { b zomes = { c", 100),
        ("ééé zomes = { ü zomes = { c", 9),
        ("zomes = {zomes = {", 4),
        ("zomes = {xx zomes = {", 6),
    ] {
        let ours = add_zomes_to_dna_nix_file("dna.nix", input, reference, "m", &integrity, &coordinator).ok();
        assert_eq!(ours, regex_zomes(input, reference, add), "input {input:?} at {reference}");
    }
    assert!(add_zomes_to_dna_nix_file("dna.nix", "nothing", 0, "m", &integrity, &None).is_err());
    // A `$` in a name goes through the regex crate's replacement expansion
    // when there is a single `zomes = {`.
    let dollar = Some("a$0b".to_string());
    let add = "\n          a$0b = inputs'.m.packages.a$0b;";
    assert_eq!(
        add_zomes_to_dna_nix_file("dna.nix", "x zomes = { y", 0, "m", &dollar, &None).ok(),
        regex_zomes("x zomes = { y", 0, add)
    );
    assert_eq!(
        add_zomes_to_dna_nix_file("dna.nix", "zomes = { zomes = {", 0, "m", &dollar, &None).ok(),
        regex_zomes("zomes = { zomes = {", 0, add)
    );
}
