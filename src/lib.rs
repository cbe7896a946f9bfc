//! Focus-driven content grid: rows of selectable cards, a selection cursor,
//! eased scrolling that keeps the cursor inside a safe area, lazy row
//! streaming and a per-card image loading state machine.
//!
//! Every animated quantity is held in fixed point (see `motion`), so the
//! whole model is plain integers and is verified end to end.

pub mod animate;
pub mod collection;
pub mod input;
pub mod media;
pub mod motion;
pub mod state;
pub mod stream;
pub mod tile;
