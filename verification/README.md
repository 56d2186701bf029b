# darwin_baskets

Versioned basket manifests for the Darwin Protocol, with their validation
rules, written in Verus.

- `src/manifest.rs` — the manifest data model and its views.
- `src/validation.rs` — the validation rules as spec functions
  (`spec_validate`, `manifest_rules_hold`), the verified `validate`, and the
  law that a manifest validates exactly when every rule holds.
- `src/catalogue.rs` — the three Milestone 1 baskets, lookup by symbol, the
  sorted faucet-alias index, and the laws about them (all valid, distinct
  symbols, lookup round-trips).
- `src/text.rs` — character-level string equality and ordering, and a sorted
  string set in a vector.
- `src/state.rs` — the typed testnet deployment inventory.
- `app/` — TOML loading (serde, toml), error messages (thiserror) and the
  `testnet_inventory` printer.
