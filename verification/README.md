# unidpp-registry

A registry service in the manner of ISO 19135, verified with Verus: item
registration, versioned supersession, point-in-time resolution and dated
applicability bindings, with a discovery registry of signed services,
protocol bindings and verification mechanisms beside it.

## Layout

- `src/` is the library. Every function in it has a contract that Verus
  proves; nothing in it reads a file, a socket or a clock. A handler takes
  the store, the request and the current instant, and returns the answer.
- `app/` is the service: configuration, the HTTP router, the journal file
  and the EXPRESS validator, which is a subprocess.
- `tests/` runs the library, including whole sessions against its handlers.

| modules | what they hold |
|---|---|
| `text`, `time`, `json`, `fields`, `order`, `table` | texts, instants, JSON documents, sorted tables |
| `bridge`, `crypto` | the boundary with `serde_json`, `sha2` and `ed25519_dalek` |
| `model`, `cddal`, `clock` | items and bindings, their dictionary text, time triggers |
| `schema`, `manifest`, `satisfiability`, `mapping`, `express`, `intake` | manifests and the checks that they pass on the way in |
| `discovery` | signed descriptors and the operator keyring |
| `store`, `journal` | the state, its audit log and the journal |
| `request`, `items_api`, `applicability_api`, `discovery_api`, `models_api`, `seed`, `catalog` | the handlers |
| `conformance`, `guarantees` | laws that span several modules |

## What is trusted

The contracts in `bridge` and `crypto` describe calls into outside crates
and are believed as they stand, as is the one of `String::push` in `text`.
Everything else is proved from them.

## Configuration

| Variable | Default | Meaning |
|---|---|---|
| `UNIDPP_REGISTRY_BIND` | `127.0.0.1:8090` | listen address |
| `UNIDPP_REGISTRY_ADMIN_TOKEN` | unset (open) | Bearer token for mutations and `/admin/*` |
| `UNIDPP_REGISTRY_STATE_FILE` | unset (in memory) | JSONL journal of the audit log, replayed on start |
| `UNIDPP_REGISTRY_SEED_ON_DEMAND` | `1` | when `0`, `POST /admin/seed` refuses |
| `UNIDPP_REGISTRY_SEED_EXPRESS` | `1` | when `0`, the EXPRESS core schema is not deposited on start |

The EXPRESS core schema is read from `assets/unidpp-core.express`; where
there is none, nothing is deposited.
