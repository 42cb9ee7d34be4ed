# disk-maint

`disk-maint` reports what Rust build artifacts, Cargo caches, toolchains and
Git working trees take up under a repository root, and removes Rust `target/`
directories (or Cargo's shared target directory) only after showing the plan
and, unless `--yes` is given, asking for the answer `yes`.

## Layout

- `src/` is the library, verified with Verus. Each function states in its
  contract the text it renders or the decision it takes:
  - `cli`: argument parsing and help text;
  - `rust`: manifests, workspace grouping, project plans, size reports and
    rustup toolchains;
  - `git`: `git` output parsing and the status report;
  - `scan`: the maintenance report;
  - `clean`: cleanup plans, their summaries, the checks made before each
    removal, and the confirm-then-delete steps;
  - `path`, `text`, `sort`, `walk`: Unix path components, string helpers,
    stable sorts and a depth-first work list;
  - `format_bytes` in `lib.rs`: human-readable sizes, with the rounding of
    the floating-point computation modelled exactly over integers.
- `app/` is the command-line program: it reads directories, runs `git` and
  `cargo`, reads the terminal, and prints what the library renders.
- `tests/` runs the library on concrete inputs.
