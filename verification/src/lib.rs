//! Summarizes porcelain-format version-control status output into a compact
//! single-line status string for a shell prompt: classifies each status line
//! into category buckets, interprets the branch header (including divergence
//! counts and detached-HEAD label resolution), and renders the fixed-format
//! ten-field result.

pub mod classify;
pub mod header;
pub mod resolve;
pub mod stash;
pub mod summary;
pub mod text;
