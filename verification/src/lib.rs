//! The logic behind a small graphical front end to `git`: reading what its
//! commands print, and looking up the texts of the interface.

pub mod command_parser;
pub mod command_sender;
pub mod lines;
pub mod scan;
pub mod text;

pub use command_sender::GuitSendError;
pub use text::{search_content, Lang, Value};
