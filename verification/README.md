# valueswap

A weighted-pool exchange for the Internet Computer, written as a Verus
library with two canisters around it.

- `src/` is the verified library:
  - `maths.rs`: the fixed-point swap formula (`out_given_in`) and the burn
    shares, with their bounds.
  - `types.rs`: pools, tokens, swaps and the validation of a pool.
  - `factory.rs`, `routing.rs`: the pool factory (pools by name, locks,
    pool search, choice of the best pool, the steps of a swap).
  - `vault.rs`, `vault_ops.rs`: LP tokens of pools and users, fee shares,
    burns.
  - `swap_pool.rs`: the state of a pool canister and the swap across its
    users' pools.
  - `ledger.rs`: the checks and messages of the ledger and exchange-rate
    calls, token metadata, the supported standards.
  - `sorted_map.rs`, `order.rs`, `principal.rs`, `text.rs`, `state.rs`:
    a sorted map with a proved view, principals, text helpers, and the
    stable map of pool canisters.
- `tests/` runs the library on concrete values.
- `app/` holds the canister endpoints, the inter-canister calls, the wire
  types with their candid derives and the floating-point helpers. The
  factory canister is deployed with a `BackendConfig`: the LP ledger, the
  exchange-rate canister and the code of a pool canister.

Amounts are held in 128 bits; where a result would not fit, the library
returns an error instead of a wrong value.
