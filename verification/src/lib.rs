//! Verified core of a collision-box editor for game container archives.
//!
//! The library models the staging area of an opened archive, the per-member
//! collections of collision boxes, the single live edit session, and the
//! repack pipeline that reassembles an archive in its canonical order.
//! Rendering, file dialogs, the filesystem and the binary codecs live
//! outside the library; they exchange plain values with it.

pub mod hash;
pub mod kv;
pub mod laws;
pub mod model;
pub mod order;
pub mod session;
pub mod staging;
pub mod store;
pub mod workspace;
