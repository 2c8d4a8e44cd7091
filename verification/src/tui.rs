//! The terminal interface.

pub mod app;
pub mod console;
pub mod console_log;
pub mod input;
pub mod keys;
pub mod layout;
pub mod ops;
pub mod prompt;
pub mod render;
pub mod tree;
