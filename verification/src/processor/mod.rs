//! Processors: their local APICs, and bringing up all but the first.

pub mod lapic;
pub mod msr;
pub mod smp;
pub mod trampoline;
