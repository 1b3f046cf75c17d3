//! Client-side query engine for attribute-per-row list services: compiles
//! declarative list requests into query documents, turns decoded rows into
//! records, drives multi-round retrieval, and joins and merges row sets.

mod text;
pub mod soap;
pub mod record;
pub mod decode;
pub mod join;
pub mod driver;
pub mod query;
pub mod merge;
pub mod options;
pub mod plan;
pub mod clean;
pub mod modal;
