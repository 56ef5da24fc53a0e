# auria_license

License verification and management for shard execution, verified with Verus.

- `src/types.rs`: shard ids, node keys, signatures, licenses, errors.
- `src/keyed.rs`: a finite map kept as a vector with distinct keys.
- `src/rate_limiter.rs`: the token bucket per node, its model and its laws.
- `src/signing.rs`: the signed message, Keccak-256 signing and checking.
- `src/manager.rs`: registered licenses, validation, per-node rate limits.
- `src/local_verifier.rs`, `src/blockchain.rs`, `src/usage.rs`: trusted-issuer
  checks, the registry client, usage totals.
- `src/clock.rs`: reading the system clock.
- `app/`: shared asynchronous access (tokio) and serializable forms (serde).

Each function that reads the clock has a counterpart ending in `_at` that takes
the time as an argument and carries the exact contract.
