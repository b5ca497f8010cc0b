//! What the host-side test harness decides.
//!
//! The harness runs firmware in an emulator, carries the dump of the persist
//! region from one run to the next, and judges what the runs have sent. The
//! running is left to the program around this library; the decisions are
//! here.

pub mod corrupt;
pub mod frame;
pub mod qemu;
pub mod runner;
pub mod text;
