//! Merging of per-process log files into one chronologically ordered,
//! colour-coded stream.

pub mod text;
pub mod timestamp;
pub mod ident;
pub mod palette;
pub mod paint;
pub mod log;
pub mod merge;
pub mod merge_laws;
pub mod render;
pub mod notice;
pub mod loader;
pub mod process;
