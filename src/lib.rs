//! Core of a windowing compositor: damage-rectangle scheduling, window
//! stacking and focus, drag and resize handling, and the per-handle
//! protocol that clients use to manage their windows.

pub mod rect;
pub mod window;
pub mod image;
pub mod parse;
pub mod scheme;
