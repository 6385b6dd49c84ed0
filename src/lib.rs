//! Finds who contributed to a project's dependencies: classifies source URLs,
//! paces registry and host requests, and merges per-repository contributor
//! lists into threshold-filtered, sorted acknowledgement views.

pub mod aggregate;
pub mod cache;
pub mod pacing;
pub mod plan;
pub mod source;
pub mod text;
pub mod views;
