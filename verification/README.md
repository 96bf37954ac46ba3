# cw_sdk

The state machine of a CosmWasm chain, with its rules proved by Verus.

- `src/` is the verified library:
  - `bytes`, `bytemap`: byte-string keys, their order, and the sorted map
    that the stores are built on;
  - `pending`: uncommitted writes over the committed tree, reads and range
    walks through them, and the batch a commit applies;
  - `prefix`, `paginate`, `indexes`: key namespaces, pages of records, and
    unique secondary indexes;
  - `storage`: a contract's storage as the wasm runtime sees it (reads,
    writes, numbered scans);
  - `hash`, `codec`, `address`: SHA-256, bech32, and account addresses;
  - `auth`: transaction authentication (address, key, chain id, sequence
    number, signature);
  - `state`, `msg`, `strmap`: the application state, transactions run
    message by message, and queries;
  - `abci`, `helpers`, `share`: query routing, host-interface rules, texts,
    and shared handles.
- `tests/` runs the library on concrete values.
- `app/` is the node: command line, the ABCI server, the JSON encodings, the
  wasm runtime calls, and the on-disk Merk store.
