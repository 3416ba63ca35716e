# watcher

A read-only, on-disk mirror of AWS SSM Parameter Store, kept fresh by a
periodic full sync and by change events delivered through SQS. On any real
change it runs a configured command, once per burst of changes.

## Layout

- `src/` — the verified library (Verus):
  - `config/` — configuration, defaults, and the checks for `sync` and `setup`;
  - `engine.rs` — the sync plans (what to write, remove, record and report)
    for full syncs and change-event batches, with the convergence laws;
  - `state.rs` — the sorted record of hashes and versions per parameter;
  - `filewriter.rs` — where each parameter's file goes, and which names are refused;
  - `digest.rs` — value hashing (SHA-256, lowercase hex);
  - `provider.rs` — parameters, change events, event classification, fetch batches;
  - `trigger.rs`, `nameset.rs` — the debounce state machine and the command it runs;
  - `aws.rs`, `json.rs` — queue messages, the provisioning protocol, and its JSON documents;
  - `daemon.rs` — message acknowledgement, permission modes, setting overrides;
  - `text.rs` — character-level helpers.
- `app/` — the binary: CLI, file system and AWS I/O, async loops.
- `tests/` — tests of the library.
