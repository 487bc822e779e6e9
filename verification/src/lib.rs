//! Streaming benchmark-comparison engine.
//!
//! The library ingests rows of labeled numeric samples, keeps numerically
//! exact running statistics per (label, metric), and derives per-metric
//! deltas with confidence intervals between pairs of labels.  All numeric
//! values are fixed-point integers counted in millionths of a unit
//! ("micros"), so every statistic in this crate is exact integer
//! arithmetic with a proved contract.

use vstd::prelude::*;

mod diff;
mod errors;
mod fixed;
mod label;
mod options;
mod parse;
mod pipeline;
mod render;
mod stats;

pub use diff::diff_stats;
pub use diff::Confidence;
pub use diff::ConfidenceInterval;
pub use diff::Diff;
pub use diff::StdErr;
pub use errors::Error;
pub use fixed::div_trunc;
pub use fixed::sqrt_floor;
pub use fixed::MAX_ABS_MICROS;
pub use fixed::MAX_SAMPLES;
pub use fixed::SCALE;
pub use fixed::SCALE_SQ;
pub use label::Bench;
pub use label::Metric;
pub use options::Options;
pub use parse::parse_row;
pub use parse::parse_value;
pub use pipeline::check_regressions;
pub use pipeline::compute_diffs;
pub use render::newline_count;
pub use render::push_micros;
pub use render::render;
pub use render::Renderer;
pub use render::RENDER_INTERVAL_MS;
pub use stats::Measurements;
pub use stats::RunningStat;
