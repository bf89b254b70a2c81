# Cranko, verified

Cranko automates releases in the "just-in-time versioning" workflow: projects
in a repository are staged for release, release requests are confirmed onto an
`rc` branch, and CI assigns version numbers, rewrites project metadata files,
and records each release in a commit on a `release` branch.

The crate is laid out in three parts:

- `src/` is the library, written in Verus. Every public function carries a
  contract that Verus proves: version parsing, ordering and bumping
  (`version/`), repository paths and path matchers (`repository.rs`), the
  project graph (`graph.rs`), the loaders and rewriters of project files
  (`cargo.rs`, `manifest.rs` for the `Cargo.toml` edits, `pypa.rs`,
  `csproj.rs`, `generic.rs`), changelogs
  (`changelog.rs`), release histories (`history.rs`), the decisions of the
  workflow's commands (`session.rs`, `workflow.rs`, `bootstrap.rs`,
  `zenodo.rs`, `github.rs`, `commands.rs`), and laws that span several
  functions (`readback.rs`, `version/pep440_laws.rs`, and proof functions
  named `law_*` or `lemma_*_is_newer` elsewhere). Calls into other crates go
  through small wrappers marked `#[verifier::external_body]`, whose doc
  comments say what their contracts assume.
- `tests/` exercises the library on concrete values.
- `app/` is the command-line program: argument parsing, file, Git and network
  input and output around the library's functions.
