//! Extension package installer: version reconciliation, install decisions,
//! archive path handling and the registry of installed extensions.

pub mod archive;
pub mod decision;
pub mod install;
pub mod json;
pub mod manifest;
pub mod mcp;
pub mod paths;
pub mod registry;
pub mod text;
pub mod unpack;
pub mod version;
