//! A local credential store: domain → user → password records kept in a
//! TOML document, with an add operation that guards against silent
//! overwrites and a resolver that turns a partial query into one entry.

pub mod document;
pub mod error;
pub mod laws;
pub mod model;
pub mod store;
