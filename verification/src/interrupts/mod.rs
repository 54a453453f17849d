//! Interrupts: the lock that holds them off, the descriptor table, and what
//! the handlers decide.

pub mod handlers;
pub mod idt;
pub mod spinlock;
