//! Interpretation of received frames: pacing, ordering and the loading counterpart of the sender.

pub mod buffer;
pub mod interpret;
pub mod load;
pub mod manager;
