//! The core of a link checker: for each URI a classified status, found through a chain of
//! request handlers, with a cache of earlier results, one check at a time for each URI, and a
//! bound on the checks that run at the same time.

pub mod cache;
pub mod chain;
pub mod checker;
pub mod classifier;
pub mod config;
pub mod controller;
pub mod credentials;
pub mod error;
pub mod fallback;
pub mod handlers;
pub mod junit;
pub mod keyed;
pub mod plugin;
pub mod process_ext;
pub mod request;
pub mod retry;
pub mod status;
pub mod text;
pub mod uri;
