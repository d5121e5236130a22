//! Playback engine for time-based cues: curves and discrete events on
//! timelines with independent playback clocks.
//!
//! All real-valued quantities are held in fixed point; see [`fixed`].

pub mod fixed;
pub mod bezier;
pub mod ordered;
pub mod lookup;
pub mod track;
mod clock;
pub mod timeline;
pub mod model;
pub mod color_gradient;
pub mod control;
pub mod playback;
pub mod convergence;
