//! Migration of Rust doc comments to and from external markdown files.
pub mod config;
pub mod discover;
pub mod extract;
pub mod restore;
pub mod rewrite;
pub mod syntax;
pub mod text;
pub mod write;

pub use config::DocsPathMode;
