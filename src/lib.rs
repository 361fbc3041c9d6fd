//! Asset virtualization for a host process: an overlay over zip archives,
//! a registry of lazily materialized replacement files, a table of live file
//! handles, and the decisions taken by the file-open interception layer.

pub mod replacer;
pub mod handles;
pub mod zipfile;
pub mod overlay;
pub mod path;
pub mod hooks;
pub mod textarchive;
pub mod mpak;
pub mod mods;
pub mod config;
pub mod bnlc;
pub mod bytes;
