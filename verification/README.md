# domain_scan

Structural code intelligence: a census of the interfaces, services, classes,
methods, schemas and implementations of a codebase, queries over it, manifest
validation and matching, manifest bootstrapping, sub-agent prompts, and the
listings of a command line around it.

The library in `src/` is written in Verus. Every function carries a contract
over mathematical models (`Seq`, `Map`, spec functions and views), and Verus
proves each body against it. Calls into outside crates (sha2, globset, regex,
serde_json, comfy-table, and a few std string functions) stand behind small
trusted wrappers whose contracts name what the outside code computes.

## Layout

- `src/ir.rs`, `src/text.rs`, `src/path.rs`: the intermediate representation,
  string helpers and a component model of Unix paths.
- `src/queries.rs`, `src/index.rs`, `src/stats.rs`: queries over a scan and
  its statistics.
- `src/manifest.rs`, `src/matching.rs`, `src/writeback.rs`, `src/builder.rs`,
  `src/connections.rs`: manifests, their validation, entity matching, writing
  matches back, and bootstrapping a manifest from a scan.
- `src/integrity.rs`: what the integrity checks of a system manifest report.
- `src/prompt.rs`, `src/prompt_text.rs`: partitioning files among sub-agents
  and the prompt text.
- `src/input_validation.rs`, `src/json.rs`, `src/field_mask.rs`,
  `src/config.rs`, `src/glob.rs`: input checks, JSON values, field masks,
  configuration and glob filters.
- `src/report.rs`, `src/output.rs`: the text listings of the command line.
- `src/tui.rs`: the tree model of the terminal browser and its key handling.
- `src/build_status.rs`, `src/cache.rs`, `src/hash.rs`, `src/doctor.rs`: the
  decisions of build-status detection, cache bookkeeping and content hashing.
- `app/`: the command line (argument parsing, files, JSON and TOML through
  serde, the terminal, the on-disk cache), which calls the library for every
  decision and listing.
- `tests/`: tests of the library on concrete values.
