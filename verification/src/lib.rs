//! Schema-driven code generation for a datalog domain registry: the naming,
//! validation and row-decoding logic behind the `domain!`, `product!`,
//! `fold!`, `morphism!` and `domain_registry!` macros, with its contracts.

pub mod text;
pub mod rows;
pub mod db;
pub mod search;
pub mod ident;
pub mod codegen;
pub mod laws;
