# control-spine

Seven deterministic control engines and the evidence packs that they produce,
written and proved in Verus.

| engine | what it controls |
|---|---|
| `access_recert` | quarterly recertification of access entitlements |
| `bankrec` | reconciliation of bank statements with the cash ledger |
| `capa` | corrective and preventive actions |
| `coi` | vendors' certificates of insurance |
| `commission` | sales commissions, clawbacks, and caps |
| `contract_obligation` | deadlines, renewals, and service credits of contracts |
| `covenant` | debt covenants, equity cures, and trends |

Every engine takes its clock as an argument, counts money in integer cents, and
answers with findings. `spine` turns findings into an evidence pack: hashes over
the exact bytes that were read, a seal over the body, and receipts by people. A
breach stands until a person other than the engine approves its subject. An
engine never approves its own pack, and an edited pack does not verify.

## Layout

- `src/` is the library. Each engine has its model, its engine, its pack, its
  explanation, and a `laws` module with what holds across functions.
- `src/spine.rs`, `date.rs`, `instant.rs`, `table.rs`, `text.rs`, `num.rs`, and
  `order.rs` are what the engines share.
- `tests/` runs the library.
- `app/` is the command line: it reads and writes files and turns JSON into the
  library's values and back.

## Contracts

Public functions say exactly what they return, over spec functions on views.
Where a computation could leave the range of its integers or of the calendar,
the function that states its result asks for the range, and a `try_` function
beside it asks for nothing and says when the range is left.

What is trusted: the calendar and time-stamp functions of chrono, SHA-256 of
sha2, reading and writing of a JSON value by serde_json, and two functions of
std (lower case, and a text in quotes). Each stands behind a small function
whose contract says what is claimed of it.
