//! Porthole: share folders with other devices on the local network.
//!
//! The library holds the rules of the desktop window, of the folder list and
//! of the HTTP API, each with a contract and its proof.

pub mod api;
pub mod client;
pub mod config;
pub mod folders;
pub mod listing;
pub mod paths;
pub mod text;
pub mod util;
