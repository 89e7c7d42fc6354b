# tnesh_scaffolding

The scaffolding tools of the TNESH stack, with their logic verified by Verus.

- `src/` is the verified library: the text edits that add a remote zome to a
  hApp (the `<*-context>` element in the app's UI, the zome attributes in a
  DNA's nix file, the zome entries of a DNA manifest), the choice of the DNA
  and of the NPM package, and the rules that move `rev-tag.` and `-rev.` npm
  dependencies to the revisions that the flake lock pins, each
  `package.json` read and written back as JSON (`src/json.rs`, and
  `src/yaml.rs` for DNA manifests). `src/laws.rs` holds the properties
  proved across inputs.
- `app/` is the command line around it: the file tree, the other scaffolding
  tools, the templates, the terminal questions, git and the `npm`, `nix` and
  package manager commands, run as the library's synchronization steps ask.
- `tests/` runs the library, and holds its readings of the scaffolding
  patterns against the regex crate.
