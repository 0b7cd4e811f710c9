//! A data model for "repo" manifests together with the logic that resolves
//! defaults, builds template contexts, merges per-remote configuration and
//! assembles local manifests.
pub mod model;
pub mod protocol;
pub mod context;
pub mod error;
pub mod dotenv;
pub mod template;
pub mod convert;
