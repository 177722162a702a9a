//! Sessions between peers: ratchets, reliable and lossy delivery, file
//! transfer, groups and multi-device sync.
pub mod error;
pub mod file_transfer;
pub mod friend;
pub mod group;
pub mod lossless;
pub mod lossy;
pub mod ratchet;
pub mod sync;
