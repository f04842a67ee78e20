pub mod client;
pub mod document_aggregator;
pub mod segment_analyzer;
pub mod types;
