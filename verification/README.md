# n8n_lint

An opinionated linter for n8n workflow JSON, written in Verus.

- `src/` is the verified library. `lint` takes a parsed JSON document and
  returns the findings of the rules: the per-node rules (SSH, ntfy, Code
  node, extractFromFile, gotchas), the best practices and the workflow-level
  gotchas. Its contract states the findings exactly, through the spec
  functions of each rule module (`src/rules/`). It requires only that the
  brace count of each long enough Code node fits its integer types;
  `lint_checked` makes that test itself and returns `None` where it fails.
  `model.rs` reads a workflow from a JSON value by the rules of the format,
  `json.rs` models JSON values, `text.rs` holds the character-level text
  operations the rules use, and `finding.rs` the findings and their counts.
  `foreign.rs` holds the calls into `std` and `regex` whose results are
  named rather than computed.
- Laws of the library are public proof functions (`lemma_*`) beside the
  functions they speak of.
- `app/` is the command-line program: it reads files, parses JSON with
  `serde_json`, calls the library and prints text or JSON.
- `tests/` runs the library on concrete workflows.
