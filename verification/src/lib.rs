//! Normalizes API description documents of two dialects into one unified
//! model, maintains a validated persistent cache around the normalizer, and
//! answers dependency-impact queries over the references the normalizer
//! extracts.

pub mod cache;
pub mod digest;
pub mod errors;
pub mod graph;
pub mod json;
pub mod model;
pub mod parser;
pub mod record;
pub mod text;
pub mod tools;

pub use cache::{CacheManager, HttpHeaders};
pub use graph::{DepsDirection, Graph, GraphBuilder, GraphStats};
pub use json::JsonValue;
pub use model::ParsedSpec;
pub use parser::OpenApiParser;
pub use record::OasCache;
pub use tools::{
    render_parse_error, render_parse_output, EndpointSummary, PaginationInfo, ParseFormat,
    ParseInput, ParseOutput, SchemaSummary,
};
