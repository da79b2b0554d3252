//! Core of a terminal chart viewer: named numeric series arriving
//! incrementally are merged into one dataset, and a bounded viewport
//! (scroll offset plus cursor) tracks that dataset as it grows.
//!
//! Sample values are exact fixed-point numbers held in micro-units
//! (one unit is `1_000_000`), so every merge, scale and parse step
//! carries a full functional contract.

pub mod history;
pub mod metric_parse;
pub mod reader;
pub mod sample;
pub mod scale;
pub mod scale_config;
pub mod schema;
pub mod settings;
pub mod state;
pub mod text;
pub mod series;
pub mod series_collector;
pub mod window;
