# dao_contracts

Verified logic of a set of DAO DAO contracts, written in Verus.

- `src/` — the library. Each contract's state is a plain value with a well-formedness
  predicate, and each handler states in its contract what it returns and how it changes
  the state:
  - `calendar` (events, groups, hooks, gauges and their queries), with `recurrence`,
    `dates` and `timestamp` for recurring events;
  - `nostr_calendar` (calendar and event token ids, NIP-52 metadata);
  - `approval` (the approval pre-propose module and its migration);
  - `token_swap` (a two-party escrow);
  - `zk_voting` (voter snapshots and voting power);
  - `proto` (the gauge adapter's protobuf messages, through the `anybuf` crate);
  - `stake_math` (cw20 staking shares);
  - helpers: `keyed`, `ordered` and `keyorder` (maps held as lists), `hooks`, `text`,
    `uint` (cosmwasm's wide integers).
- `tests/` — tests on concrete values.
- `app/` — what stays outside the proofs: queries to other contracts, JSON messages, and
  conversions to cosmwasm types.
