//! Kernel of a LAN screen, audio and file sharing node.

use vstd::prelude::*;

pub mod channel;
pub mod control;
pub mod discovery;
pub mod endpoint_driver;
pub mod engine;
pub mod error;
pub mod frame;
pub mod kernel;
pub mod message;
pub mod negotiator;
pub mod order;
pub mod pick;
pub mod platform;
pub mod receiver;
pub mod stream_id;
pub mod table;
pub mod text;

verus! {

} // verus!
