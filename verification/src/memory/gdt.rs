//! Segmentation: the global descriptor table with the kernel code segment
//! and the task state segment whose interrupt-stack slot gives the
//! double-fault handler a stack of its own — the one guarantee that a
//! blown kernel stack still reaches a handler.

use vstd::prelude::*;

verus! {

/// The interrupt-stack-table slot the double-fault gate switches to.
pub const DOUBLE_FAULT_IST_INDEX: u16 = 0;

/// How many interrupt-stack slots the task state segment offers.
pub const IST_ENTRY_COUNT: usize = 7;

/// One descriptor of the global descriptor table.
#[derive(Debug, Clone, Copy, PartialEq, Eq, Structural)]
pub enum Descriptor {
    /// The mandatory null descriptor at index zero.
    Null,
    /// The 64-bit kernel code segment.
    KernelCode,
    /// The pointer to the task state segment.
    TssSegment,
}

/// The task state segment: the interrupt stack table, each slot the top
/// address of a dedicated stack (or zero where unused).
pub struct TaskStateSegment {
    pub interrupt_stack_table: Vec<u64>,
}

impl TaskStateSegment {
    pub open spec fn wf(self) -> bool {
        self.interrupt_stack_table@.len() == IST_ENTRY_COUNT
    }
}

/// The global descriptor table, plus which entries the kernel loads into
/// its segment registers.
pub struct GlobalDescriptorTable {
    pub entries: Vec<Descriptor>,
    pub code_selector: usize,
    pub tss_selector: usize,
}

impl GlobalDescriptorTable {
    pub open spec fn wf(self) -> bool {
        &&& self.code_selector < self.entries@.len()
        &&& self.tss_selector < self.entries@.len()
        &&& self.entries@[self.code_selector as int] == Descriptor::KernelCode
        &&& self.entries@[self.tss_selector as int] == Descriptor::TssSegment
    }
}

/// Build the descriptor tables: a null entry, the kernel code segment and
/// the task state segment, whose double-fault stack slot points at the top
/// of the given stack — which must be at least one page.  Loading them
/// into the CPU is the embedding program's step.
pub fn init(double_fault_stack_start: u64, double_fault_stack_size: u64) -> (r: (
    GlobalDescriptorTable,
    TaskStateSegment,
))
    requires
        double_fault_stack_size >= 4096,
        double_fault_stack_start + double_fault_stack_size <= u64::MAX,
    ensures
        r.0.wf(),
        r.1.wf(),
        r.0.entries@ =~= seq![Descriptor::Null, Descriptor::KernelCode, Descriptor::TssSegment],
        r.1.interrupt_stack_table@[DOUBLE_FAULT_IST_INDEX as int] == double_fault_stack_start
            + double_fault_stack_size,
        forall|i: int|
            0 < i < IST_ENTRY_COUNT ==> r.1.interrupt_stack_table@[i] == 0,
{
    let mut entries: Vec<Descriptor> = Vec::new();
    entries.push(Descriptor::Null);
    entries.push(Descriptor::KernelCode);
    entries.push(Descriptor::TssSegment);
    let gdt = GlobalDescriptorTable { entries, code_selector: 1, tss_selector: 2 };

    let mut ist: Vec<u64> = Vec::new();
    ist.push(double_fault_stack_start + double_fault_stack_size);
    let mut i: usize = 1;
    while i < IST_ENTRY_COUNT
        invariant
            1 <= i <= IST_ENTRY_COUNT,
            ist@.len() == i,
            ist@[0] == double_fault_stack_start + double_fault_stack_size,
            forall|j: int| 0 < j < i ==> ist@[j] == 0,
        decreases IST_ENTRY_COUNT - i,
    {
        ist.push(0);
        i = i + 1;
    }
    let tss = TaskStateSegment { interrupt_stack_table: ist };
    (gdt, tss)
}

} // verus!
