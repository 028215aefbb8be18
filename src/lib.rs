pub mod basic;
pub mod cache;
pub mod data_source;
pub mod decimal;
pub mod error;
pub mod form;
pub mod geo_position;
pub mod line;
pub mod polygon;
pub mod polyline;
pub mod power_lines;
pub mod report;
