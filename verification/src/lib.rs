//! Live transit arrival board: aggregation, layout and refresh logic.
//!
//! Arrival records fetched for a set of transit stops are grouped per display
//! row, sorted by minutes to arrival, and laid out as positioned, colored text
//! fragments for a tiled LED pixel display. The refresh loop state tracks the
//! last successful fetch and paces retries.

pub mod aggregator;
pub mod clock;
pub mod config;
pub mod display_board;
pub mod grouping;
pub mod sorting;
pub mod stop_monitor;
pub mod text;
