//! Pairwise string similarity and distance metrics.
//!
//! Each engine is a value holding its two input strings (and, where the
//! metric has one, a mode flag); the metric itself is a query method.
//! Counts are exact unsigned integers; the normalized metrics are exact
//! rationals, so every result is pinned down by the contracts.

pub mod damerau_levenshtein;
pub mod error;
pub mod hamming;
pub mod helpers;
pub mod jaccard;
pub mod jaro_winkler;
pub mod levenshtein;
pub mod ratio;

pub use damerau_levenshtein::DamerauLevenshtein;
pub use error::MetricError;
pub use hamming::Hamming;
pub use helpers::max_text_length;
pub use helpers::min_of_3;
pub use jaccard::Jaccard;
pub use jaccard::TokenCounts;
pub use jaro_winkler::JaroStats;
pub use jaro_winkler::JaroWinkler;
pub use levenshtein::Levenshtein;
pub use ratio::Ratio;
