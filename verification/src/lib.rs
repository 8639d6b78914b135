//! Gateway logic for a reverse proxy that unifies several torrent-client
//! backends behind one HTTP surface.

pub mod address;
pub mod catalog;
pub mod config;
pub mod headers;
pub mod listen;
pub mod persist;
pub mod proxy;
pub mod session;
pub mod status;
pub mod text;
