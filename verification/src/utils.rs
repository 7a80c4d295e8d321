//! Support layers: byte-string splitting, content hashing, virtual roots.

pub mod hashing;
pub mod semi_binary;
pub mod virtual_root;
