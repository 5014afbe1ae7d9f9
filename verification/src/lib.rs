//! Rust types from a JSON schema.
//!
//! An `Expander` walks a schema document and writes, for every definition
//! and for the root, a struct, an enum or a type alias. References are
//! followed, `allOf` compositions are merged, and for every property a type
//! is inferred.
//!
//! Every result is stated over a model: a schema is seen as a
//! `SchemaModel`, the output as the text that it holds. What the crates
//! `inflector` and `quote` compute is named and not defined here:
//! `pascal_case`, `snake_case` and `string_literal`.

pub mod doc;
pub mod emit;
pub mod error;
pub mod expander;
pub mod ident;
pub mod infer;
pub mod merge;
pub mod resolve;
pub mod schema;
pub mod text;
pub mod tokens;
