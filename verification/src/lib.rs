//! Cursor identity tracking and cursor-shape classification for screen capture.
pub mod bitmap;
pub mod classifier;
pub mod classifier_laws;
pub mod cursor;
pub mod state;
pub mod state_laws;
pub mod text;
pub mod theme;
pub mod wide;
