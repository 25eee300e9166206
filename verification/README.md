# rustyrts

Regression test selection for Rust projects: run only the tests that a change
may affect. The library holds the decisions, each verified with Verus against
its contract; the binary in `app/` does the file system and process work.

## Layout

- `src/graph.rs`, `src/graph_laws.rs`: the dependency graph between functions,
  its text form, reading it back, and which nodes reach changed ones.
- `src/checksums.rs`, `src/analysis/`, `src/line_format.rs`: checksums of
  functions and the byte format of checksum files.
- `src/callbacks_shared.rs`: which functions changed between two revisions.
- `src/selection.rs`, `src/units.rs`, `src/unit_order.rs`, `src/cargo_rustyrts.rs`: which tests
  run, the changes each unit of a build sees, and the `cargo` invocations
  that build and run the tests.
- `src/traces.rs`, `src/file_loader.rs`: dynamic
  selection, from the functions each test ran through.
- `src/rustdoc.rs`, `src/collector.rs`: doctests, from the attributes of code
  blocks to their names, code and lines.
- `src/test_runner.rs`, `src/libtest.rs`, `src/formatters.rs`,
  `src/cargo_test.rs`: how a finished test is judged and reported, and how a
  failed target is named for a rerun.
- `src/lab.rs`: the phases, timeouts and compiler wrappers of the scenarios
  of a mutation-testing run.
- `src/fs_utils.rs`, `src/paths.rs`, `src/options.rs`, `src/cargo.rs`,
  `src/cli.rs`, `src/lazy_transform.rs`: cache files, paths, options and
  command lines.
- `src/text.rs`, `src/seqs.rs`: text and sequence helpers with their proofs.

The tests under `tests/` run the library on concrete values.
