//! Discovery of repositories under base directories, resolution of their
//! build settings, and the decisions of the pull, build and clean passes.
pub mod text;
pub mod document;
pub mod config;
pub mod discovery;
pub mod orchestrate;
pub mod pending;
pub mod errors;
