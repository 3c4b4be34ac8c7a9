//! Verified in-place sorting engines (insertion, selection, merge and
//! cocktail-shaker sort) over a vector of `u16` values. Given a
//! visualization context, each engine emits a position-addressed terminal
//! redraw at every algorithmically meaningful step, followed by a fixed
//! pacing delay, and the library supplies the value-to-frequency mapping
//! for an audio layer that sonifies the same steps.

pub mod cocktail;
pub mod insertion;
pub mod merge;
pub mod order;
pub mod selection;
pub mod shuffle;
pub mod vis;
