//! Rosey: extracts translatable content from a built static site into a
//! versioned locale store, re-injects per-locale translations to produce a
//! multilingual copy of the site, and diffs locale files against a base
//! locale to report translation coverage.

pub mod assets;
pub mod check;
pub mod config;
pub mod generate;
pub mod html;
pub mod inject;
pub mod json;
pub mod kv;
pub mod laws;
pub mod page;
pub mod refs;
pub mod resolve;
pub mod rewrite;
pub mod store;
pub mod text;
