//! A birthday book: names mapped to dates, with its text format and the
//! state machine of an interactive session.

pub mod book;
pub mod date;
pub mod file;
pub mod number;
pub mod screen;
pub mod session;
pub mod text;
