//! Decorative terminal-window backgrounds: gradient, color and image
//! layers, memoized in mark/sweep caches and laid out as screen-space
//! tiles with alignment, repeat/mirror and scroll-parallax rules.
//!
//! Geometry is computed in whole device pixels; fractional configuration
//! values (scroll factors, opacity, radial centers) are carried in
//! per-mille units so that every placement computation is exact integer
//! arithmetic. The caller performs all file I/O and hands the results in
//! as plain values.
pub mod cache;
pub mod color;
pub mod errors;
pub mod gradient;
pub mod handle;
pub mod layer;
pub mod loader;
pub mod math;
pub mod tiles;
