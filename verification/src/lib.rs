//! Language identification from character n-gram statistics.
//!
//! The crate turns raw text into a stream of normalized 1- to 3-character
//! grams, accumulates per-language gram frequencies in [`utils::lang_profile::LangProfile`]
//! values, and derives from a set of profiles a gram-to-probability table used
//! to rank candidate languages.

pub mod detector;
pub mod detector_factory;
pub mod utils;
