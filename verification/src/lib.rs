//! Core logic of a time series database server.
//!
//! Rows come in as messages ([`codec`], [`dml`]) and are held in batches ([`mutable_batch`]) that
//! can be turned into Arrow arrays ([`arrow_batch`]). The lifecycle of the buffered partitions
//! ([`lifecycle`], [`persist_plan`]) decides what is persisted when; once it is, the catalog is
//! brought up to date ([`catalog_update`]), and chunks are written to the object store together
//! with the checkpoints that replay starts from ([`chunk_write`], [`checkpoints`]). The rules of
//! a database are kept as they were provided ([`rules`]). What the command line asks for is in
//! [`cli`] and [`operations`], and what queries are expected to give in [`sql_cases`].
//!
//! Nothing here reads a clock, a file or the network: what was read is handed in, and what is to
//! be done is handed out.

pub mod arrow_batch;
pub mod batch_view;
pub mod catalog_update;
pub mod checkpoints;
pub mod chunk_write;
pub mod cli;
pub mod codec;
pub mod column;
pub mod column_names;
pub mod dml;
pub mod field_violation;
pub mod lifecycle;
pub mod memory;
pub mod mutable_batch;
pub mod object_id;
pub mod operations;
pub mod persist_plan;
pub mod rules;
pub mod schema;
pub mod sql_cases;
pub mod text;
