# Response cache

A short-lived in-memory TTL cache for MCP tool results, written and verified in Verus.

A successful result is recorded after dispatch. Before dispatch, a call that was answered within
the TTL is answered from the cache, by an `Allow` that carries the stored result and makes the
gateway skip the backend.

## Layout

| Module | What it holds |
|---|---|
| `plugin` | `ResponseCachePlugin`: constructors, TTL rules, lookup, recording, eviction |
| `model` | the cache as a mathematical state, and what each operation does to it |
| `laws` | what holds of each operation, proved over the model |
| `history` | what holds over every sequence of calls: what a hit serves, and to whom |
| `store` | cached entries, and the contracts of the `DashMap` that holds them |
| `key` | the cache key, and what tells two calls apart |
| `canonical`, `canonical_laws` | canonical JSON text: object keys sorted recursively |
| `grammar` | which value a JSON text stands for |
| `config`, `decode`, `refusal` | the configuration, how it is read, and what is said where it cannot be |
| `glob` | patterns: `*` for any run of characters, `?` for exactly one |
| `json`, `protocol`, `text` | JSON values, what a gate is told and answers, strings |

`app/` turns the library into a gate that threads share: it converts `serde_json` values, opens
the tracing span and records the metrics. `tests/` runs the library with the real outside crates.

## Time

The cache's clock counts nanoseconds since the cache was made. `evaluate_pre` and `evaluate_post`
read it once each; `evaluate_pre_at` and `evaluate_post_at` take the reading as an argument, and
are exact for every value of it.

## What is trusted

The functions marked `external_body` state, without proof, what the outside functions that they
call do: seven functions of `DashMap`, `serde_json::to_string` of a string and of an integer, the
hash of a string, its `Debug` text, and the monotonic clock, of which nothing is stated.

Entries are found by a 64-bit hash of the call. Each entry also holds the call itself, so that a
call is never served the result of another whose hash happens to be the same.
