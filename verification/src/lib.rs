//! Offline integrity protection for block devices with a salted Merkle
//! hash tree: formatting computes the tree over a data device and yields a
//! root hash; verification recomputes the tree and compares against an
//! expected root. Device validation and reference-counted advisory
//! locking keep the two operations from racing with each other.

pub mod bytes;
pub mod digest;
pub mod fec;
pub mod params;
pub mod session;
pub mod setup;
pub mod device;
pub mod hashtree;
pub mod key;
pub mod lock;
