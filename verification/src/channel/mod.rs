//! Two-way channels between nodes: text messages and files.

pub mod chunk;
pub mod file_name;
pub mod manager;
pub mod message;
pub mod outbound;
pub mod session;
pub mod transfer;
