//! Terminal video and webcam rendering logic: playback state, frame
//! sampling into braille dot grids, render and colour mode cycling, frame-rate
//! parsing, device-list parsing and file-browser navigation.

pub mod browser;
pub mod bytes;
pub mod controls;
pub mod devices;
pub mod dither;
pub mod grid;
pub mod modes;
pub mod number;
pub mod raster;
pub mod rate;
pub mod text;
pub mod video;
pub mod webcam;
