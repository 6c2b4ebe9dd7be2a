//! A password-protected vault container: its on-disk format, the rules that
//! guard it, and the steps by which it is created, opened, filled and read.

pub mod binding;
pub mod container;
pub mod error;
pub mod format;
pub mod frame;
pub mod le;
pub mod lossy;
pub mod manifest;
pub mod path_laws;
pub mod paths;
pub mod remote;
pub mod similar;
pub mod strength;
pub mod suite;
pub mod text;
pub mod vault;
