//! Verified core logic of the gambit chess ingest and studio tools.

pub mod analysis;
pub mod api_types;
pub mod batch;
pub mod bench;
pub mod board;
pub mod book;
pub mod catalog;
pub mod config;
pub mod copy_rows;
pub mod copy_text;
pub mod cursor;
pub mod decimal;
pub mod download;
pub mod errors;
pub mod fen;
pub mod format;
pub mod grpc_web;
pub mod jobs;
pub mod migrations;
pub mod panels;
pub mod pgn_stream;
pub mod profile;
pub mod reprs;
pub mod search;
pub mod shard_import;
pub mod staging;
pub mod progress;
pub mod text;
pub mod uci;
pub mod year_load;
pub mod ui;
