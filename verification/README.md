# tanssi_pallets

The decision logic of a set of Tanssi runtime pallets, written in Verus and proved
against its contracts:

- `assignment`, `assignment_laws`, `collator_assignment`: how collators are split
  between the orchestrator chain and the container chains each session, with the
  laws the split keeps (sizes, membership, old collators kept first).
- `configuration`: the host configuration and its pending changes by session.
- `author_noting`: noting the latest author of each container chain from its head.
- `authority`: the authority mapping and assignment kept per session.
- `data_preservers`: profiles and their assignment to chains, with payment;
  `profile_migration`: the move of stored profiles to the newer profile layout.
- `contract_deploy_filter`: who may deploy and call contracts.
- `ethereum_token_transfers`: the token transfer settings and fees.
- `community_loan_pool`, `community_projects`: the loan pool and the
  crowd-funded projects, sold as NFTs and voted on by milestone.
- `maps`, `origin`, `perthings`, `rng`: shared helpers; `perthings` and `rng` call
  `sp-arithmetic` and `rand`/`rand_chacha` behind trusted wrappers whose contracts
  state what those crates document.

Everything the pallets ask of the runtime (balances, NFTs, assets) goes through
traits; each pallet keeps a ghost log of the calls it made and of their answers, and
the contracts state the outcome for every answer.

`tests/` holds the scenarios, run against the compiled library. `app/` holds the
serde-enabled copies of the library's types, for the runtime's storage and RPC.
