//! Audit of Cargo feature usage: the parsers, the feature graph, the analysis
//! passes and the report renderers of `cargo-feature-lens`.
use vstd::prelude::*;

pub mod analysis;
pub mod cli;
pub mod collections;
pub mod error;
pub mod graph_export;
pub mod json_scan;
pub mod manifest;
pub mod metadata;
pub mod remote;
pub mod report;
pub mod resolver;
pub mod source_order;
pub mod text;
pub mod util;

pub use analysis::{AnalysisContext, Finding, FindingKind, Severity};
pub use error::{Error, Result};
pub use resolver::{FeatureGraph, FeatureNode, FeatureSource};

verus! {
} // verus!
