//! Architecture-independent early boot support.
//!
//! The crate keeps the facts a bootloader hands over (its name, the kernel
//! command line, the initramfs span, the ACPI and framebuffer arguments and
//! the physical memory layout) in write-once slots, and derives the kernel's
//! memory map from overlapping region reports.
//!
//! - [`memory_region`]: one range of physical memory and its kind.
//! - [`reconcile`]: from overlapping region reports to the memory map.
//! - [`sources`]: from what the platform reports about memory to the reports.
//! - [`boot`]: the boot facts and their slots.
//! - [`registry`]: the boot init callbacks and the pass that calls them.
//! - [`coordinator`]: the order of early initialisation.
//! - [`text`] and [`replay`]: reading and replaying recorded traces of file
//!   and memory-mapping calls.

pub mod boot;
pub mod coordinator;
pub mod memory_region;
pub mod reconcile;
pub mod registry;
pub mod replay;
pub mod sources;
pub mod text;
