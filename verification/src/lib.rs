//! Builds portable emoji packs: it turns a walked folder of image files into a
//! manifest of emoji records and a deterministic zip archive holding the
//! manifest together with the original files.
//!
//! The crate holds the pack-assembly rules themselves: which files qualify as
//! emoji, how a stable identifier and a category are derived for each, what
//! the manifest looks like as JSON, and which entries the archive receives.
//! Walking the filesystem and writing the output files is left to the caller,
//! which hands plain values in and takes plain values back.

pub mod archive;
pub mod classify;
pub mod json;
pub mod manifest;
pub mod names;
pub mod pack;
pub mod text;
