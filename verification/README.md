# relay

The deterministic core of RELAY, a local control layer that runs commands for
AI clients and humans against registered game projects: the command registry
and its contracts, request validation, authority and egress policy, project
indexing and reconciliation, the adapter broker's lifecycle rules, and the
host's handshake and watcher decisions. The functions in `src/` are verified
with Verus against contracts stated over mathematical models, except a few
small trusted wrappers (marked `external_body`) around calls into `sha2` and
std's path handling, whose contracts state what those calls do.

## Layout

- `src/` — the verified library.
  - `registry`, `catalog`, `schema`, `contracts`, `json`, `canonical`:
    the command registry, the compact catalog, JSON-schema validation, the
    versioned envelopes and canonical JSON.
  - `pipeline`, `execution`, `service`, `handlers`, `policy`: one command
    run as a state machine and its steps (admission, idempotent replay,
    transaction records, error contracts), authority checks, data-class and
    egress policy, and the command handlers' decisions.
  - `indexing`, `found`, `reconcile`, `hints`, `index_table`, `storage`: path
    normalization (with the host's path syntax as a parameter), the order of
    the files a walk found, reconciliation and hint plans, what a commit does to the
    file table, and the guards on writing the index state.
  - `manifest`, `broker`, `backend`, `sandbox`: adapter manifests, the
    worker lifecycle (backoff, quarantine), backend selection and the sandbox
    launch decisions.
  - `host`, `watcher`, `framing`, `cli`: the daemon's handshake and state,
    the watcher's event and recovery decisions, line framing, and the CLI's
    parsing and output.
  - `text`, `collections`: strings, ordering and small verified maps and sets.
- `tests/` — tests that run the library.
- `app/` — a small command-line front end: file and directory access, JSON
  parsing and printing, and the loops that perform the actions the library
  decides.
