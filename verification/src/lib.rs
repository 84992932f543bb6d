//! Removes an installed Linux application together with the files that
//! belong to it: its desktop entry, executable, configuration directory and
//! application files. The library holds the decisions; the program around it
//! does the searching, asking and deleting.
pub mod text;
pub mod number;
pub mod helper;
pub mod handle_files;
pub mod session;

pub use session::Arguments;
