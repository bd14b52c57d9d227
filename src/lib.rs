//! Picks a value for a shell secret from a small text configuration.
//!
//! `text` splits a text into lines, `config` reads the block of secret names
//! and the block of value options, `select` reads a typed choice, filters
//! the options of a secret and renders the output lines, and `session` holds
//! the decisions of one run, from the first prompt to the export line.
pub mod config;
pub mod select;
pub mod session;
pub mod text;
