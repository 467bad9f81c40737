//! Codec for fixed-width firmware identifier codes of manufactured storage
//! devices: production date, board size, memory size, package type and chip
//! count are mapped to and from a compact eight-character ASCII string,
//! validated against an immutable configuration table.

pub mod calendar;
pub mod config;
pub mod error;
pub mod firmware_codec;
pub mod text;
pub mod ui;
