//! System calls.

pub mod dispatch;
pub mod files;
pub mod setup;
