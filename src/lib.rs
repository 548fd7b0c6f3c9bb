//! Resolves a chosen set of production items into the recipes and items
//! needed to make them, and describes the result as a directed graph.
pub mod args;
pub mod commands;
pub mod data;
pub mod error;
pub mod graph;
pub mod id_set;
pub mod resolve;
pub mod select;
