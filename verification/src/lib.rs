//! The store of a local-first ticket tracker, as verified logic over its tables.
pub mod association;
pub mod backup;
pub mod display_prefix;
pub mod domain;
pub mod graph;
pub mod initialize;
pub mod keep;
pub mod laws;
pub mod load;
pub mod messages;
pub mod migrations;
pub mod mutations;
pub mod paths;
pub mod payload;
pub mod promotion;
pub mod recovery;
pub mod relocation;
pub mod repository;
pub mod revise;
pub mod rows;
pub mod select;
pub mod sequences;
pub mod sync;
pub mod tables;
pub mod text;
