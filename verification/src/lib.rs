//! Display width of text, redraw signalling, and the decisions and formats of the editor's
//! logger.

pub mod calendar;
pub mod logging;
pub mod redraw;
pub mod text;
pub mod timestamp;
pub mod width;
