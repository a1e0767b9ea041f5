//! Input side of the stack: the layout of the GamePad's input reports.
//! The socket reader that feeds them lives outside the library.

pub mod data;
