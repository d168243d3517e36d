# toka

A Verus-verified library for the Toka platform's core logic:

- `raft`: Raft consensus — log, roles and terms, the message handlers, and
  the node's event-loop step (`RaftNode::step`), each with a contract.
- `storage`: in-memory Raft storage, the byte formats of the file store
  (length-prefixed log records, snapshot files) and the snapshot manager.
- `ledger`: the double-entry credit ledger, its transactions and the
  write-ahead log, with conservation and replay laws.
- `security`: capability claims, HS256 JWT validation (plain and with
  rotating keys), delegation and its manager, permission hierarchies,
  rate-limit bookkeeping, key rotation and its audit trail, revocation.
- `runtime`, `domain`: payment-provider configuration and requests, the
  user ledger, amounts and pricing.
- `cli`, `embedder`: the command types of the front end, and event
  summaries for embedding.

Calls into outside crates (chrono, uuid, rand, hex, hmac/sha2, serde_json,
base64, jsonwebtoken, rust_decimal, urlencoding) stand behind small trusted
wrappers whose contracts say what those crates do.

`app/` holds the program around the library: argument parsing and the
floating-point token-bucket limiter. `tests/` holds the tests.
