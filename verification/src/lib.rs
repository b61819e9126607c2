//! Inspects a multi-package workspace described by a root manifest and
//! reports dependency names that are version-pinned in more than one place
//! instead of being centralized in the workspace-level dependency table.

pub mod analyze;
pub mod laws;
pub mod manifest;
pub mod parse;
pub mod resolve;
pub mod toml_doc;
