//! Verified core of TSPAN, an activity tracker: session records, statistics over them, the
//! reports drawn from them, the access rules of the server, the process tracker and the state of
//! the terminal interface.

pub mod answer_laws;
pub mod api;
pub mod api_types;
pub mod app;
pub mod arith;
pub mod auth;
pub mod backup;
pub mod breakdown;
pub mod breakdown_laws;
pub mod buffer;
pub mod calendar;
pub mod config;
pub mod count_laws;
pub mod daemon;
pub mod db;
pub mod distribution;
pub mod draw;
pub mod ebpf;
pub mod encoding;
pub mod event;
pub mod exporter;
pub mod filter;
pub mod html;
pub mod importer;
pub mod laws;
pub mod markdown;
pub mod order;
pub mod page_laws;
pub mod pattern;
pub mod refresh;
pub mod request_laws;
pub mod rhythm;
pub mod rhythm_laws;
pub mod selection;
pub mod server;
pub mod stats;
pub mod summary_laws;
pub mod sums;
pub mod svg_calendar;
pub mod svg_laws;
pub mod tabs;
pub mod tally;
pub mod terminal_laws;
pub mod text;
pub mod text_laws;
pub mod tokens;
pub mod tracer_laws;
pub mod tracker;
pub mod word_laws;
pub mod words;
pub mod zone;
