//! How generated macros find the documentation directory.
use vstd::prelude::*;

verus! {

/// Configuration mode for documentation paths.
#[derive(Debug, Clone, Copy, PartialEq, Eq, Structural)]
pub enum DocsPathMode {
    /// The docs path lives in `Cargo.toml` under `[package.metadata.syncdoc]`;
    /// generated macros carry no path argument.
    TomlConfig,
    /// The docs path is written inline in each generated macro call.
    InlinePaths,
}

} // verus!
