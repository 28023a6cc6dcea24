//! The minimal interrupt table: only the breakpoint gate, for a kernel
//! brought up before memory management is ready.  The full table lives in
//! the memory module.

use vstd::prelude::*;
use crate::memory::interrupts::{
    Handler, IdtEntry, InterruptDescriptorTable, BREAKPOINT_VECTOR, IDT_ENTRY_COUNT,
};

verus! {

/// Build a table with the breakpoint gate alone; every other gate stays
/// absent.  Loading it into the CPU is the embedding program's step.
pub fn init_idt() -> (idt: InterruptDescriptorTable)
    ensures
        idt.wf(),
        idt.entries@[BREAKPOINT_VECTOR as int] == (IdtEntry::Entry {
            handler: Handler::Breakpoint,
            ist_index: 0,
            use_ist: false,
        }),
        forall|v: int|
            0 <= v < IDT_ENTRY_COUNT && v != BREAKPOINT_VECTOR ==> idt.entries@[v]
                == IdtEntry::Missing,
{
    let mut idt = InterruptDescriptorTable::empty();
    idt.set_handler(BREAKPOINT_VECTOR, Handler::Breakpoint);
    idt
}

} // verus!
