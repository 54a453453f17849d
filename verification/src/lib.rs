//! Kernel logic of a small x86_64 operating system.

pub mod acpi;
pub mod boot;
pub mod cc;
pub mod device;
pub mod fat;
pub mod fs;
pub mod interrupts;
pub mod kef;
pub mod le;
pub mod memory;
pub mod processor;
pub mod shell;
pub mod syscall;
pub mod text;
