# nft_backend

The verified core of an NFT registry canister for the Internet Computer: token
identifiers, ownership, allowances, a claim campaign with reserved tokens, and the
state kept across upgrades.

- `src/` is the library, checked by Verus. `principal`, `account` and `token_id`
  hold principals, ledger account texts and the token identifier codec;
  `keyed_map` is a map keyed by principals or texts; `storage` is the registry and
  its operations; `service` serves the interface's requests; `canister` decides
  each entry point, answering either the reply or the reason the call traps;
  `laws` states how the operations fit together.
- `app/` is the canister around it: candid wire types, the entry points, the state
  cell and the upgrade hooks.
- `tests/` runs the library on concrete values.
