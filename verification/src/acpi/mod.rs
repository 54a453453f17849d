//! ACPI tables.

pub mod fixed;
pub mod layout;
pub mod madt;
pub mod rsdp;
pub mod sdt;
pub mod mapping;
pub mod report;
pub mod tables;
