//! Animated Julia-set renderer core: a deterministic damped random walk
//! drives the fractal parameter, each frame is evaluated per cell, mapped
//! to a terminal color and a density glyph, and encoded with run-length
//! color compression. All quantities are fixed-point integers in
//! millionths, so every step of the pipeline is exact and reproducible.

mod animate;
mod color;
mod fixed;
mod fractal;
mod pace;
mod render;
mod rng;

pub use animate::{advance, initialize, state_well_formed, AnimationState, ACCEL_STRENGTH, BASE_IM, BASE_RE, DAMPING, DT_CLAMP, RADIUS};
pub use color::{hsv_to_256, shade, shade_char_index};
pub use fixed::SCALE;
pub use fractal::{escape_count, point_at, Cpx};
pub use pace::{pace_budget, FrameMetrics};
pub use render::render_frame;
pub use rng::{rng_next, rng_sample, DEFAULT_SEED};
