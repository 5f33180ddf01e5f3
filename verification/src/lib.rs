//! A file-backed configuration-channel manager.
//!
//! The library keeps named credential/endpoint profiles ("channels") in a
//! directory of JSON documents, supports a merge-on-activate step that edits
//! only the keys it owns in the shared active-settings document, maintains a
//! second line-oriented store of API-key profiles, and plans terminal
//! launches.  All file, environment and process I/O is left to the caller;
//! every function here is pure computation over plain values.

pub mod codec;
pub mod droid;
pub mod json;
pub mod launch;
pub mod response;
pub mod store;
pub mod text;

pub use json::Json;
