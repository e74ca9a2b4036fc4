use vstd::prelude::*;

pub mod text;
pub mod utf8_facts;
pub mod findings;
pub mod severity_order;
pub mod parser;
pub mod sorting;
pub mod autofix;
pub mod hashing;
pub mod normalize;
pub mod paths;
pub mod grouping;
pub mod duplication;
pub mod symbol_findings;
pub mod near_findings;
pub mod vector_findings;
pub mod similarity;
pub mod integrations;
pub mod tool_json;
pub mod config;
pub mod globs;
pub mod baseline;
pub mod baseline_keys;
pub mod comparison;
pub mod suppressions;
pub mod policy;
pub mod gate;
pub mod scoring;
pub mod reporting;
pub mod metadata_lines;
pub mod render;
pub mod snippets;
pub mod exact_body;
pub mod structural;
pub mod semantic;
pub mod tool_plan;
pub mod components;
pub mod near_pipeline;
pub mod near;
pub mod shingles;
pub mod metrics;

verus! {
} // verus!
