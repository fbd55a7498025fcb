//! Access that devices of one network negotiate among themselves.

pub mod client;
pub mod dto;
pub mod grant;
pub mod server;
pub mod trust;

pub use dto::{RelayAddr, ShareGrant, ShareRequest};
pub use trust::{
    load_or_create_identity, DeviceIdentity, SettledIdentity, TrustStore, TrustedDevice,
};
