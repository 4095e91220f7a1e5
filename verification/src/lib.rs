//! `uai`: index a library of `.unitypackage` files, search it, resolve dependency closures, and
//! work out exactly which files a Unity project needs.
//!
//! Everything that decides or computes is here, with what it does stated and proved; reading files,
//! talking to servers and storing the index is left to the program around it.

use vstd::prelude::*;

pub mod cache;
pub mod client;
pub mod closure_laws;
pub mod config;
pub mod db;
pub mod deps;
pub mod error;
pub mod export_laws;
pub mod exporter;
pub mod groups;
pub mod human;
pub mod index_laws;
pub mod indexer;
pub mod kinds;
pub mod laws;
pub mod mcp;
pub mod model;
pub mod number;
pub mod outside;
pub mod pattern;
pub mod plan;
pub mod plan_laws;
pub mod remote_laws;
pub mod render;
pub mod render_laws;
pub mod replies;
pub mod resolve;
pub mod resolve_laws;
pub mod scan_laws;
pub mod search_laws;
pub mod seqs;
pub mod server;
pub mod service;
pub mod sorted;
pub mod text;
pub mod text_laws;
pub mod tokens;
pub mod unitypackage;

pub use crate::human::human_bytes;

verus! {

/// The version of this library.
pub const VERSION: &'static str = "0.1.0";

} // verus!
