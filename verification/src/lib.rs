//! The decision-making core of Dojo's tooling: the `get!` inline macro, the addresses that the
//! servers bind to, the computed values that the indexer serves, and the life cycle of its
//! GraphQL server.
pub mod abi;
pub mod address;
pub mod computed_values;
pub mod config;
pub mod deployed_contract;
pub mod field_element;
pub mod get_macro;
pub mod graphql;
pub mod inline_macro;
pub mod manifest;
pub mod model_calls;
pub mod schema;
pub mod text;
