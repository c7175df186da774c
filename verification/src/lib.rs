//! Tail-state engine for following every selected file beneath a directory.
//!
//! The engine keeps a table of followed files with their read offsets, turns
//! change notifications into steps for the caller to perform, and turns the
//! bytes the caller read into the lines to deliver.

pub mod config;
pub mod lines;
pub mod table;
pub mod translate;
pub mod laws;
