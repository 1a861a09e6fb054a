//! Sierpinski-gasket geometry generation and the display-mode state machine
//! behind a small real-time shape demo.
//!
//! Two generators approximate the gasket: chaos-game random sampling and
//! recursive midpoint subdivision. A display mode selects, per frame, which
//! precomputed geometry buffer is drawn; the surrounding window, input and
//! GPU plumbing is an outside collaborator.

pub mod mode;
pub mod sierpinski;
pub mod vertex;
