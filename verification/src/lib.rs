//! Verified core of a launcher/updater for a large, frequently patched game.
//!
//! The library covers the update protocol's logic: parsing the remote file
//! manifest, classifying each entry, deciding by content hash whether a local
//! file is stale, building download locations and decompressing fetched
//! bodies, and reducing the game's own live update log to progress counters.
//! All file, network and process I/O lives outside this crate; callers hand
//! in plain values (lines, bytes, probed file contents) and get plain,
//! fully specified values back.

pub mod strutil;
pub mod digits;
pub mod config;
pub mod manifest;
pub mod checker;
pub mod downloader;
pub mod logparser;
pub mod paths;
pub mod wine;
pub mod launch;
