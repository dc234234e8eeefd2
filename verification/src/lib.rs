//! A freehand drawing history.
//!
//! Pointer samples arriving once per frame are grouped into discrete strokes,
//! kept in a committed log with a linear undo/redo buffer over whole strokes.
//! The host UI feeds input samples in, triggers undo/redo/clear, and reads a
//! projection of the committed log to draw.

pub mod laws;
pub mod log;
pub mod stroke;
