//! A threaded-comment library: comments attach to a resource as top-level
//! roots or branch from other comments, forming a tree of arbitrary depth.
//! Every record carries a materialized path — the `->`-joined chain of
//! identifiers from the resource down to the comment itself — and all
//! queries and mutations work over that encoding.

pub mod config;
pub mod errors;
pub mod models;
pub mod paths;
pub mod service;
pub mod store;
