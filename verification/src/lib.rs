//! Item-versioning and synchronization-query core of an encrypted-note sync
//! backend: items are stored per owner, every write is assigned a strictly
//! increasing version marker, and clients pull the items that changed since a
//! remembered cursor.

pub mod item;
pub mod laws;
pub mod locked;
pub mod query;
pub mod store;
