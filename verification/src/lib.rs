//! Security-enforcement and integrity pipeline for a static site generator.
//!
//! The crate provides three independent layers of defense around published
//! content: an allow-list HTML sanitizer applied per document, a pattern-based
//! static validator applied to the fully generated output tree, and a
//! deterministic integrity-manifest builder that fingerprints every published
//! file.  All content is handled as raw bytes; reading and writing files is
//! the caller's business.

pub mod digest;
pub mod html;
pub mod manifest;
pub mod patterns;
pub mod policy;
pub mod posts;
pub mod sanitize;
pub mod validate;
