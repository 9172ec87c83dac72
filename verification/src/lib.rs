//! Verified core of the octopos kernel message slot and of the user-space
//! console: the line editor and its terminal output.

pub mod console;
pub mod decimal;
pub mod line_editor;
pub mod message;

pub use console::write_complete;
pub use line_editor::{KeyOutcome, LineEditor, LINE_MAX};
pub use message::{get_msg, set_msg, MessageBuffer, MessageError, BUFSIZE};
