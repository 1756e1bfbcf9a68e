# dojo

The decision-making core of Dojo's tooling, verified with Verus.

- `src/get_macro.rs`, `src/inline_macro.rs`: the `get!` inline macro, from its arguments to the
  Cairo code that it expands to.
- `src/computed_values.rs`, `src/model_calls.rs`: which contract functions compute values of which
  models, read off the manifest of a world (`src/manifest.rs`, `src/abi.rs`, `src/schema.rs`).
- `src/deployed_contract.rs`: the processor of the events that tell of a deployed contract.
- `src/graphql.rs`: when the GraphQL server is built anew.
- `src/config.rs`, `src/address.rs`: the addresses of the servers and of the database.
- `src/text.rs`: decimal numbers, separated lists, strings cut to a number of bytes.

`app/` connects the library to the Cairo compiler, to Starknet and to the file system.
