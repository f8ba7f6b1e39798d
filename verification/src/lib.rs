//! A verified core for a GraphQL client that manages remote API keys.
//!
//! The library owns everything that can be checked: the JSON value model,
//! the wire encoding of a GraphQL request, the parsing of a response body,
//! the classification of the response envelope into data or errors, and
//! the four operation builders (query, create, update, delete).  The
//! surrounding process (argument handling, the HTTP exchange itself,
//! printing) stays outside and talks to this crate through plain values.

pub mod client;
pub mod encode;
pub mod envelope;
pub mod json;
pub mod laws;
pub mod ops;
pub mod parse;
pub mod text;
pub mod vars;
