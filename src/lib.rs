//! Bundles the sources of a Lua project into one self-contained file.

pub mod text;
pub mod key;
pub mod lines;
pub mod wrap;
pub mod project;
pub mod bundle;
pub mod manifest;
