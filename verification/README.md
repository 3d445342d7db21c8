# kuku

The decision logic of the kuku agent runtime, written in Verus and proved against its
contracts.

- `src/` is the verified library: session identifiers, workspace paths and the session
  lock file; the tool-call lifecycle and permission gate; the run's event-loop steps,
  stream accumulation and output-limit recovery; handoff detection; the task ledger and
  request breakdowns; Skill definitions, registries, catalogs, search and loading.
- `app/` is the host side that Verus does not see: environment and clock, file-system
  access for sessions and locks, JSON text through `serde_json`, and serialisable copies
  of the library's types.
- `tests/` exercises the library on concrete values.
