use vstd::prelude::*;

pub mod backend;
pub mod canonical;
pub mod catalog;
pub mod broker;
pub mod cli;
pub mod collections;
pub mod execution;
pub mod contracts;
pub mod found;
pub mod framing;
pub mod handlers;
pub mod hints;
pub mod host;
pub mod index_table;
pub mod indexing;
pub mod json;
pub mod manifest;
pub mod pipeline;
pub mod policy;
pub mod reconcile;
pub mod registry;
pub mod sandbox;
pub mod schema;
pub mod service;
pub mod storage;
pub mod text;
pub mod watcher;

verus! {

} // verus!
