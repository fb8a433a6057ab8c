//! Turns the outline of a knowledge base into a tree of markdown files for a
//! static-site generator, rewrites the markdown on the way, and derives the
//! navigation sidebar from the files that were written.
//!
//! Everything here is a function from plain values to plain values; reading
//! from the network and writing to disk is left to the caller.

pub mod config;
pub mod error;
pub mod formatter;
pub mod generator;
pub mod handler;
pub mod navbar;
pub mod passes;
pub mod retry;
pub mod schema;
pub mod table;
pub mod text;
pub mod toc;

use vstd::prelude::*;

verus! {

/// The user agent sent with every image request.
pub const USER_AGENT: &'static str =
    "Mozilla/5.0 (Windows NT 6.1; WOW64) AppleWebKit/537.36 (KHTML, like Gecko) Chrome/31.0.1650.63 Safari/537.36";

} // verus!
