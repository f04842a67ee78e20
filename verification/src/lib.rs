pub mod text;
pub mod paths;
pub mod order;
pub mod models;
pub mod writer;
pub mod indexer;
pub mod kimi;
pub mod cli;
pub mod config;
pub mod metadata;
pub mod clipper;
pub mod scanner;
pub mod state_store;
pub mod run;
