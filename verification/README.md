# Camellia Nexus desktop core

The decision logic of the Camellia Nexus desktop program manager, written in Verus: every
function in `src/` carries a contract that Verus proves, except the few wrappers around outside
code listed at the end, whose contracts are believed.

## Layout

- `src/` — the verified library.
  - Configuration documents: `json`, `yaml`, `text`, `text_map`, `sorted_texts`, `numbers`.
  - Managed configuration: `managed`, `config_sources` (plans, limits, merging and dashboards),
    `sing_box`, `xray`, `mihomo`.
  - Source credentials: `credentials`, `credential_reconcile`, `digest`.
  - Licensing: `license_policy`, `license_session`, `maintenance`, `loopback`, `callback_book`.
  - Programs: `program_transactions` (create and update decisions), `refresh`,
    `update_schedule`, `privileges`, `platform`, `log_rotation`, `settings`.
  - Runtime dashboards: `xray_stats`, `xray_users`, `xray_balancers`.
  - Privilege broker: `broker_identity`, `broker_protocol`; desktop details: `desktop`,
    `frontend_log`.
- `tests/` — tests of the library on concrete values.
- `app/` — a command-line front end that does the file I/O the library leaves to its caller:
  settings files, local configuration sources, log files (the application log among them) and
  executable identities.

## Calls into outside code

The library calls a few outside functions through wrappers whose contracts are believed, not
proved: `sha2` for SHA-256, `uuid` for random numbers, `url` for parsing URLs and writing callback URLs, `serde_json` for
the canonical JSON of credential bindings, and std for `String::push`, `String::from_utf8`,
`Read::read` and `str::to_uppercase`. Each wrapper's doc comment says what its contract claims.
