//! A declarative micro-ETL engine: named tabular sources flow through chains of
//! filters and inner joins, each output computed and reported on its own.
pub mod text;
pub mod table;
pub mod error;
pub mod context;
pub mod filter;
pub mod inner_join;
pub mod definitions;
pub mod loader;
pub mod engine;
