//! Interrupt dispatch: the interrupt descriptor table with the vectors the
//! kernel handles, the hardware-interrupt numbering above the legacy
//! controller offset, and what each handler does when its vector fires.

use vstd::prelude::*;
use crate::memory::gdt::DOUBLE_FAULT_IST_INDEX;

verus! {

/// Where the first legacy interrupt controller's lines land: right above
/// the 32 vectors the CPU reserves for exceptions.
pub const PIC_1_OFFSET: u8 = 32;

/// Where the second, chained controller's lines land.
pub const PIC_2_OFFSET: u8 = PIC_1_OFFSET + 8;

/// Vectors the interrupt descriptor table has entries for.
pub const IDT_ENTRY_COUNT: usize = 256;

/// The vector of the breakpoint exception.
pub const BREAKPOINT_VECTOR: usize = 3;

/// The vector of the double fault, dispatched on its own stack.
pub const DOUBLE_FAULT_VECTOR: usize = 8;

/// The vector of the page fault.
pub const PAGE_FAULT_VECTOR: usize = 14;

/// The hardware interrupts the kernel unmasks.
#[derive(Debug, Clone, Copy, PartialEq, Eq, Structural)]
pub enum InterruptIndex {
    Timer,
    Keyboard,
}

impl InterruptIndex {
    pub fn as_u8(self) -> (r: u8)
        ensures
            self == InterruptIndex::Timer ==> r == PIC_1_OFFSET,
            self == InterruptIndex::Keyboard ==> r == PIC_1_OFFSET + 1,
    {
        match self {
            InterruptIndex::Timer => PIC_1_OFFSET,
            InterruptIndex::Keyboard => PIC_1_OFFSET + 1,
        }
    }

    pub fn as_usize(self) -> (r: usize)
        ensures
            self == InterruptIndex::Timer ==> r == PIC_1_OFFSET as usize,
            self == InterruptIndex::Keyboard ==> r == PIC_1_OFFSET as usize + 1,
    {
        self.as_u8() as usize
    }
}

/// The in-kernel routine an IDT entry dispatches to.
#[derive(Debug, Clone, Copy, PartialEq, Eq, Structural)]
pub enum Handler {
    Breakpoint,
    DoubleFault,
    PageFault,
    Timer,
    Keyboard,
}

/// One gate of the interrupt descriptor table: absent, or a handler with
/// an optional interrupt-stack switch.
#[derive(Debug, Clone, Copy, PartialEq, Eq, Structural)]
pub enum IdtEntry {
    Missing,
    Entry { handler: Handler, ist_index: u16, use_ist: bool },
}

/// The interrupt descriptor table: 256 gates, set up once and then
/// immutable; the embedding program loads it into the CPU.
pub struct InterruptDescriptorTable {
    pub entries: Vec<IdtEntry>,
}

impl InterruptDescriptorTable {
    pub open spec fn wf(self) -> bool {
        self.entries@.len() == IDT_ENTRY_COUNT
    }

    /// A table with every gate absent.
    pub fn empty() -> (r: InterruptDescriptorTable)
        ensures
            r.wf(),
            forall|v: int| 0 <= v < IDT_ENTRY_COUNT ==> r.entries@[v] == IdtEntry::Missing,
    {
        let mut entries: Vec<IdtEntry> = Vec::new();
        let mut i: usize = 0;
        while i < IDT_ENTRY_COUNT
            invariant
                i <= IDT_ENTRY_COUNT,
                entries@.len() == i,
                forall|v: int| 0 <= v < i ==> entries@[v] == IdtEntry::Missing,
            decreases IDT_ENTRY_COUNT - i,
        {
            entries.push(IdtEntry::Missing);
            i = i + 1;
        }
        InterruptDescriptorTable { entries }
    }

    /// Fill one gate.
    pub fn set_handler(&mut self, vector: usize, handler: Handler)
        requires
            old(self).wf(),
            vector < IDT_ENTRY_COUNT,
        ensures
            final(self).wf(),
            final(self).entries@ == old(self).entries@.update(
                vector as int,
                IdtEntry::Entry { handler, ist_index: 0, use_ist: false },
            ),
    {
        self.entries.remove(vector);
        self.entries.insert(vector, IdtEntry::Entry { handler, ist_index: 0, use_ist: false });
        proof {
            assert(self.entries@ =~= old(self).entries@.update(
                vector as int,
                IdtEntry::Entry { handler, ist_index: 0, use_ist: false },
            ));
        }
    }

    /// Install the routine in one gate, switching stacks when it fires.
    pub fn set_handler_with_ist(&mut self, vector: usize, handler: Handler, ist_index: u16)
        requires
            old(self).wf(),
            vector < IDT_ENTRY_COUNT,
        ensures
            final(self).wf(),
            final(self).entries@ == old(self).entries@.update(
                vector as int,
                IdtEntry::Entry { handler, ist_index, use_ist: true },
            ),
    {
        self.entries.remove(vector);
        self.entries.insert(vector, IdtEntry::Entry { handler, ist_index, use_ist: true });
        proof {
            assert(self.entries@ =~= old(self).entries@.update(
                vector as int,
                IdtEntry::Entry { handler, ist_index, use_ist: true },
            ));
        }
    }
}

/// Build the kernel's interrupt descriptor table: breakpoint, double fault
/// — on its dedicated stack — page fault, and the timer and keyboard
/// lines.  Every other gate stays absent.
pub fn init_idt() -> (idt: InterruptDescriptorTable)
    ensures
        idt.wf(),
        idt.entries@[BREAKPOINT_VECTOR as int] == (IdtEntry::Entry {
            handler: Handler::Breakpoint,
            ist_index: 0,
            use_ist: false,
        }),
        idt.entries@[DOUBLE_FAULT_VECTOR as int] == (IdtEntry::Entry {
            handler: Handler::DoubleFault,
            ist_index: DOUBLE_FAULT_IST_INDEX,
            use_ist: true,
        }),
        idt.entries@[PAGE_FAULT_VECTOR as int] == (IdtEntry::Entry {
            handler: Handler::PageFault,
            ist_index: 0,
            use_ist: false,
        }),
        idt.entries@[PIC_1_OFFSET as int] == (IdtEntry::Entry {
            handler: Handler::Timer,
            ist_index: 0,
            use_ist: false,
        }),
        idt.entries@[PIC_1_OFFSET as int + 1] == (IdtEntry::Entry {
            handler: Handler::Keyboard,
            ist_index: 0,
            use_ist: false,
        }),
        forall|v: int|
            0 <= v < IDT_ENTRY_COUNT && v != BREAKPOINT_VECTOR && v != DOUBLE_FAULT_VECTOR && v
                != PAGE_FAULT_VECTOR && v != PIC_1_OFFSET as int && v != PIC_1_OFFSET as int + 1
                ==> idt.entries@[v] == IdtEntry::Missing,
{
    let mut idt = InterruptDescriptorTable::empty();
    idt.set_handler(BREAKPOINT_VECTOR, Handler::Breakpoint);
    idt.set_handler_with_ist(DOUBLE_FAULT_VECTOR, Handler::DoubleFault, DOUBLE_FAULT_IST_INDEX);
    idt.set_handler(PAGE_FAULT_VECTOR, Handler::PageFault);
    let timer = InterruptIndex::Timer.as_usize();
    let keyboard = InterruptIndex::Keyboard.as_usize();
    idt.set_handler(timer, Handler::Timer);
    idt.set_handler(keyboard, Handler::Keyboard);
    idt
}

/// What a handler does once dispatched.
#[derive(Debug, Clone, Copy, PartialEq, Eq, Structural)]
pub enum HandlerOutcome {
    /// Print the faulting frame and return to the interrupted code.
    Resume,
    /// Acknowledge the controller and return.
    ResumeAfterEoi,
    /// Unrecoverable: report and never return.
    Panic,
    /// Report the fault and halt forever.
    Halt,
}

/// How each handler ends: the breakpoint prints and resumes; the double
/// fault panics on its own stack; the page fault reports and halts; the
/// hardware handlers do their read, signal end-of-interrupt, and resume.
pub fn handler_outcome(handler: Handler) -> (r: HandlerOutcome)
    ensures
        handler == Handler::Breakpoint ==> r == HandlerOutcome::Resume,
        handler == Handler::DoubleFault ==> r == HandlerOutcome::Panic,
        handler == Handler::PageFault ==> r == HandlerOutcome::Halt,
        handler == Handler::Timer ==> r == HandlerOutcome::ResumeAfterEoi,
        handler == Handler::Keyboard ==> r == HandlerOutcome::ResumeAfterEoi,
{
    match handler {
        Handler::Breakpoint => HandlerOutcome::Resume,
        Handler::DoubleFault => HandlerOutcome::Panic,
        Handler::PageFault => HandlerOutcome::Halt,
        Handler::Timer => HandlerOutcome::ResumeAfterEoi,
        Handler::Keyboard => HandlerOutcome::ResumeAfterEoi,
    }
}

} // verus!
