//! A small artifact store: clients upload files under a name of their choosing,
//! list what is stored and fetch it back.
//!
//! This crate holds the rules of that store: which names are accepted and what
//! they are stored as, how an upload is staged and published, how a directory
//! snapshot becomes a listing, and how a download is resolved. Touching the
//! file system and the network is left to the program around it, which
//! performs the actions that the functions here decide on.

pub mod assets;
pub mod config;
pub mod echo;
pub mod error;
pub mod files;
pub mod helpers;
pub mod listing;
pub mod model;
pub mod name;
pub mod upload;

pub use config::Args;
