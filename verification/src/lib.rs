//! Request handling core of a small people-registry HTTP API: input
//! validation, query-string decoding, routing, settings and the JSON
//! replies.

pub mod api;
pub mod config;
pub mod date;
pub mod ids;
pub mod json;
pub mod minimal;
pub mod person;
pub mod query;
pub mod text;
