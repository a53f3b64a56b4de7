//! Snapshots of game save directories: the sidecar record and its text
//! form, the snapshot store's decisions, integrity checks, the restore
//! protocol, process matching for the liveness check, and the records of
//! the games themselves.
pub mod text;
pub mod timestamp;
pub mod codec;
pub mod snapshot;
pub mod restore;
pub mod process;
pub mod game;
pub mod pairing;
