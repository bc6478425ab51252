//! Verified configuration, schema, binding and invocation policy for a
//! capability boundary in front of command-line and MCP targets.

pub mod codes;
pub mod json;
pub mod numeric;
pub mod pattern;
pub mod text;
pub mod schema;
pub mod validate;
pub mod names;
pub mod binding;
pub mod order;
pub mod config;
pub mod resolve;
pub mod catalog;
pub mod laws;
pub mod runtime;
pub mod protocol;
pub mod debug;
pub mod admin;
