# soroban_gasless_contracts

Verified decision logic of a suite of Soroban contracts for gasless
meta-transactions: a trusted forwarder with a per-user nonce replay guard, a
token paymaster charging a flat fee, a voucher paymaster redeeming
Merkle-committed vouchers once each, a gas estimator, and a smart-account
wallet authorized by a WebAuthn passkey or by scoped, capped, expiring session
keys.

## Layout

- `src/` — the library, verified with Verus.
  - `host.rs` — the Soroban environment handle, host values, and the host's SHA-256.
  - `bytes.rs`, `base64.rs`, `table.rs` — byte strings, base64url, and the key-value
    tables that model ledger storage.
  - `curve.rs` — 256-bit arithmetic modulo the P-256 field prime and the check that a
    passkey public key is a point of the curve.
  - `forwarder.rs`, `token_paymaster.rs`, `voucher.rs`, `gas_estimator.rs`,
    `passkey.rs`, `session.rs`, `wallet.rs` — one state type per contract whose
    methods are the contract's entry points, the per-entry-point decisions on the
    values read from storage, and the properties proved of them.
- `tests/` — tests of the library against the Soroban test host.
- `app/` — the Soroban contracts themselves: each entry point loads the storage
  entries it touches into the library's state type, runs that type's method for
  the entry point, stores the entries the method may have changed, and performs
  the host work (authorization, cross-contract calls, token transfers, secp256r1
  checks, events, storage lifetimes).
