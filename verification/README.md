# cargo-clean-global

A Cargo plugin, run as `cargo clean-global`, that finds Cargo projects under
the user's home and current directory (or the directories given with
`--root`) and removes their build output directories, after a set of safety
checks. `--dry-run` reports what would be removed; `--yes` skips the prompt.

## Layout

- `src/` is the library, verified with Verus. The file-system work is left
  to the caller: the scan (`discovery`), the config lookup (`config`), the
  cleanup of each project (`cleanup`) and the size walk (`size`) are state
  machines that name the path to look at next and take in what was found.
  Their contracts say exactly what each step does with that answer.
  - `path`: Unix paths as bytes, their components, order and ancestry.
  - `roots`: which directories are scanned.
  - `manifest`: recognising a Cargo manifest by its text.
  - `cli`, `confirm`: the argument list Cargo hands the subcommand, and the
    confirmation prompt's answer.
  - `size`, `progress`: sizes with binary units, and the lines shown while
    scanning, cleaning and at the end.
- `app/` is the program: argument parsing with clap, the file-system calls,
  the progress bars and the terminal output.
- `tests/` runs the library on in-memory file trees.

The two safety properties are proved as lemmas in `src/cleanup.rs`: a build
directory is removed only after it was found to be a real directory whose
canonical form lies strictly inside the project root and the manifest still
looks like Cargo's; and a dry run never reaches the removal step.
`lemma_projects_finish_once_in_order` (same file) proves that a cleanup run
finishes its projects once each, in order, with the report after the `k`-th
accounting for `k + 1` projects; `lemma_config_lookup_order` in
`src/config.rs` proves that the project's own config answers before Cargo's
home is consulted.
`lemma_scan_stays_inside` in `src/discovery.rs` proves that the scan only
visits directories at or below its roots and that each project's manifest
is its directory's `Cargo.toml`; `lemma_walk_total` in `src/size.rs` proves
that a directory's size is the sum of its regular files' sizes, capped at
the largest `u64`.
