//! Core of a small front-end for an astronomical device server: discovery of
//! driver executables by filename convention, a flat key-value configuration
//! store, and the start/stop state machine for the single server process.
//!
//! All file and process I/O lives outside this crate; the functions here work
//! on plain values (directory listings, file contents, driver paths) handed in
//! by the caller.

pub mod config;
pub mod discovery;
pub mod lifecycle;
pub mod strutil;

pub use config::Config;
pub use config::ConfigError;
pub use discovery::fetch_indi_binaries;
pub use discovery::DriverEntry;
pub use lifecycle::Lifecycle;
pub use lifecycle::ServerState;
