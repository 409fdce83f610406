//! Verified core of a small command-line note logger: target-path
//! resolution and encoding, settings defaulting, and command dispatch.
//! I/O (argument parsing, the settings store on disk, the HTTP POST)
//! lives outside the library and consumes the plans built here.

pub mod codec;
pub mod dispatch;
pub mod settings;
