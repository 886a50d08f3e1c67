//! Navigation engine of a save-file picker for handheld game devices: a
//! windowed list cursor, a byte-pattern metadata extractor, and a stack of
//! interactive scenes driven by button presses.

pub mod cursor;
pub mod text;
pub mod internal;
pub mod extractor;
pub mod manager;
pub mod scene;
pub mod ui;
pub mod device;
