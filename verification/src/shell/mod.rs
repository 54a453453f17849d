//! The interactive shell.

pub mod history;
pub mod jit;
pub mod session;
