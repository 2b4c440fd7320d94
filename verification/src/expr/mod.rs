//! Expression-level passes: scanning, normalization, templates, rewriting
//! and read/write analysis.
pub mod analysis;
pub mod completeness;
pub mod normalize;
pub mod refs;
pub mod rewrite;
pub mod scan;
pub mod template;
pub mod types;
