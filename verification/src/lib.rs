//! Duplicate classification and rename planning for media files.
//!
//! The library turns a stream of (file, fingerprint) observations into groups
//! of identical files, tells same-directory duplicates from cross-directory
//! ones, picks the copy to keep in each same-directory set, and plans renames
//! that strip numeric noise suffixes without colliding with other names.
//! It never touches the file system: callers hand in paths, digests and
//! directory listings as plain values and get decisions back.

pub mod pattern;
pub mod filename;
pub mod fingerprint;
pub mod suffix;
pub mod paths;
pub mod model;
pub mod engine;
pub mod keeper;
pub mod cross;
pub mod rename;
pub mod laws;
pub mod report;
