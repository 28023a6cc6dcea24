//! Core of a small freestanding x86_64 kernel: interrupt tables, physical
//! frame allocation, four-level page-table mapping, three heap allocator
//! strategies, a text-mode console model, a line-editing shell, and a
//! cooperative task executor.
//!
//! Everything hardware-facing (port I/O, MMIO, control registers) lives with
//! the embedding program; this crate holds the data structures and decisions
//! and proves them correct over plain values.

use vstd::prelude::*;

pub mod graphics;
pub mod interrupts;
pub mod io;
pub mod memory;
pub mod shell;
pub mod task;

verus! {

/// Exit codes understood by the emulator's debug-exit device.  The device
/// reports `(code << 1) | 1` to the host.
#[derive(Debug, Clone, Copy, PartialEq, Eq, Structural)]
pub enum QemuExitCode {
    Success,
    Failed,
}

impl QemuExitCode {
    /// The raw value written to the debug-exit port.
    pub fn code(self) -> (r: u32)
        ensures
            self == QemuExitCode::Success ==> r == 0x10,
            self == QemuExitCode::Failed ==> r == 0x11,
    {
        match self {
            QemuExitCode::Success => 0x10,
            QemuExitCode::Failed => 0x11,
        }
    }
}

/// The process status the host observes after a write to the debug-exit
/// port: the device shifts the code left once and sets the low bit.
pub fn host_exit_status(code: QemuExitCode) -> (r: u32)
    ensures
        code == QemuExitCode::Success ==> r == 0x21,
        code == QemuExitCode::Failed ==> r == 0x23,
{
    let c = code.code();
    let r = (c << 1u32) | 1;
    proof {
        assert((0x10u32 << 1u32) | 1u32 == 0x21u32) by (bit_vector);
        assert((0x11u32 << 1u32) | 1u32 == 0x23u32) by (bit_vector);
    }
    r
}

} // verus!
