//! Release bookkeeping for a version-controlled package: decides the next
//! version from the manifest and the tag history, and plans the manifest
//! update, commit and tag sequence that publishes it.

pub mod cli;
pub mod manifest;
pub mod resolver;
pub mod text;
pub mod toml_doc;
pub mod version;
pub mod workflow;
pub mod workspace;
