//! Endpoints: what nodes share, on this node and on others.

pub mod file_source;
pub mod manifest;
pub mod mounts;
pub mod registry;
pub mod subscribe_generate;
