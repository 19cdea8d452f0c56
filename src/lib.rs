//! A small terminal text editor core: a gap buffer holding the text, and a
//! per-line character count that maps the buffer's cursor to a display
//! coordinate.
pub mod editor;
pub mod gap_buffer;

pub use editor::{App, CursorPos, Key};
pub use gap_buffer::GapBuffer;
