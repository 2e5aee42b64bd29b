# call_market

A prediction market in two parts. The call registry keeps *calls*: predictions about a price that
people stake tokens on, up or down, until the call ends. The outcome manager collects signed
reports from trusted oracles; once a quorum of them agrees, the call has its outcome, and winners
claim their stake back with a share of the losing stakes, less a protocol fee.

## Layout

- `src/` is the library, verified with Verus.
  - `call_registry/`: the registry's storage, configuration, conditions, listings and requests.
  - `outcome_manager/`: the outcome manager's storage, requests, canonical message and payout.
  - `settlement.rs`: what holds of the two together.
  - `host.rs`: the host's maps, lists and hash function, and what is taken on trust of them.
  - `table.rs`, `sums.rs`, `arith.rs`, `bytes32.rs`, `address.rs`: what the rest is built on.
- `app/` holds the two Soroban contracts. They load ledger entries, ask for authorization, hand
  the request to the library and carry out what it asks for.
- `tests/` runs the library on concrete values.

A request works on a `RegistryEnv` or a `ManagerEnv`: the stored entries, the time, who authorized
the invocation, and the ordered list of what the host is to do. A refused request changes nothing
and names its reason. The properties of requests in any order are stated in the `laws` modules.
