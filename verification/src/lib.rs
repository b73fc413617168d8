//! Core logic of a terminal image viewer: the file picker and key-handling
//! state machine, the conversion of images into terminal cells, and the
//! Sixel encoder.

pub mod render_method;
pub mod text;
pub mod raster;
pub mod sixel;
pub mod cells;
pub mod order;
pub mod entries;
pub mod app;

