//! Verified core of a CLI that queries a C# codebase's symbol information by
//! driving an external LSP process and caching it behind a background daemon.
//!
//! The library holds the logic: wire framing, request correlation, path
//! normalization, tool result shaping, the session cache and retry policies,
//! and the daemon control protocol. Process spawning, sockets and file I/O
//! live outside, in the application layer, which hands the library plain
//! values and performs the actions the library decides on.

pub mod config;
pub mod daemon;
pub mod dispatch;
pub mod framing;
pub mod jsonval;
pub mod manager;
pub mod paths;
pub mod session;
pub mod strutil;
pub mod tools;
