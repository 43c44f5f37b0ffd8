//! A verified core for a Benford's-law web crawl: numeric tokens found in
//! fetched pages are canonicalized into digit strings, counted into
//! first-digit and last-digit histograms and a length multiset, and the
//! per-page results are merged into one report by a depth-bounded crawl
//! engine that a thin driver feeds with fetched page bodies.

pub mod bag;
pub mod canon;
pub mod crawl;
pub mod links;
pub mod process;
pub mod stats;
pub mod tokens;
pub mod util;
