//! The web-facing request and report model. The request controller itself
//! is outside this library's scope; these are the plain values it exchanges
//! with the core.

use vstd::prelude::*;

verus! {

/// A request to download and scrape a list of words.
#[derive(Debug, Clone)]
pub struct DownloadRequest {
    pub words: Vec<String>,
}

/// A report of a download run: a status line, and the words not found and
/// found, grouped under a key each.
pub struct Report {
    pub status: String,
    pub not_found: Vec<(String, Vec<String>)>,
    pub found: Vec<(String, Vec<String>)>,
}

} // verus!
