//! Codec and in-memory model for DXVK state-cache files.
//!
//! A state-cache file is a 12-byte header followed by a run of entries.
//! Two layouts exist: the Legacy layout for versions up to 7, where every
//! entry is a fixed-size payload followed by its SHA-1 hash, and the
//! Standard layout for versions 8 and above, where each entry carries its
//! own small header, then the hash, then the payload. Entries are keyed
//! by their 20-byte content hash; a cache never holds two entries with
//! the same hash, and iteration follows first insertion order.

pub mod bytes;
pub mod cache;
pub mod digest;
pub mod error;
pub mod entry;
pub mod header;
pub mod merge;
pub mod sep;
