//! Verified core of a command-line manager for locally installed cargo
//! packages: a local package inventory with a two-tier discovery strategy,
//! and a version-reconciliation engine that classifies each installed
//! package as up to date or out of date against the crates.io registry.

pub mod client;
pub mod discovery;
pub mod helper;
pub mod installer;
pub mod metadata;
pub mod order;
pub mod package;
pub mod parse;
pub mod registry;
pub mod render;
pub mod scrape;
pub mod tree;
pub mod updater;
pub mod version;
