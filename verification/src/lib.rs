//! Tab expansion for text files: tab-stop arithmetic per line, per-extension
//! tab widths, and the selection of the files a run rewrites.

pub mod args;
pub mod config;
pub mod expand;
pub mod pattern;
pub mod resolve;
pub mod strings;
pub mod text;
pub mod traverse;
