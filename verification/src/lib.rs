//! A project-scaffolding core: template files carry option tags in their
//! names (`config{a,b}.yaml`); the library parses those tags, filters files
//! against the options a user chose, resolves colliding output paths by
//! specificity, and rewrites paths into the output directory.

pub mod config;
pub mod errors;
pub mod filter;
pub mod pipeline;
pub mod record;
pub mod resolve;
pub mod rewrite;
pub mod tag;
pub mod text;
