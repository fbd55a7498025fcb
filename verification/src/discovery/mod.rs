//! Finding other nodes, and being found.

pub mod addr;
pub mod aggregate;
pub mod info;
pub mod mdns;
