//! Core of a guest-address sanitizer for a dynamic binary emulator.
//!
//! The library classifies every guest byte as valid, partially valid, or
//! poisoned with a reason tag (the shadow map), tracks live and freed heap
//! chunks together with their call contexts (the allocation registry), checks
//! guest loads and stores against the shadow map, and decodes the fake-syscall
//! protocol by which the guest runtime drives the sanitizer.  Everything that
//! talks to the emulator itself (hook registration, register reads, run
//! termination) stays outside; the functions here take plain values and
//! return reports as values.

pub mod generalized;
pub mod helper;
pub mod hooks;
pub mod preload;
pub mod registry;
pub mod report;
pub mod shadow;
pub mod syscall;
