# token_ceiling

Per-key token spend ceilings over a fixed window, for an AI gateway. Budget keys
are capped at a number of tokens per window; a key that has spent its ceiling is
answered `429` with `Retry-After` until its window resets. Accounting is
post-hoc: a response's reported total is charged to its key when it completes.

The library is verified with Verus.

| Path                 | Holds                                                          |
| -------------------- | -------------------------------------------------------------- |
| `src/ledger.rs`      | per-key windows, admission and charging                        |
| `src/config.rs`      | the configuration and its validation                           |
| `src/filter.rs`      | key resolution, the request decision, settling a response      |
| `src/rejection.rs`   | the answers to rejected requests                               |
| `src/ordered_map.rs` | a sorted map from text to values                               |
| `src/text.rs`        | trimming, decimal numbers, byte lengths                        |
| `src/headers.rs`     | reading request headers                                        |
| `src/clock.rs`       | the filter's clock                                             |
| `src/*_laws.rs`      | what holds across calls, keys and time                         |
| `app/`               | the gateway's hooks, locking, logging and the YAML surface     |

Replicas each enforce their own copy of every ceiling: state is in memory and a
restart resets it.
