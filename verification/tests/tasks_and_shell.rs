//! The cooperative task machinery — ids, executors, the scancode stream
//! through the real lock-free queue, the layout decoder — and the shell
//! state machine fed from decoded keys.

use cometos::interrupts;
use cometos::memory::gdt;
use cometos::memory::interrupts::{
    handler_outcome, init_idt, Handler, HandlerOutcome, IdtEntry, InterruptIndex,
};
use cometos::shell::{CommandAction, Shell, ShellEffect};
use cometos::task::executor::Executor;
use cometos::task::keyboard::{Key, KeyDecoder, ScancodePoll, ScancodeStream};
use cometos::task::simple_executor::SimpleExecutor;
use cometos::task::{Poll, Pollable, Task, TaskId, TaskIdAllocator};

/// A future that needs a fixed number of polls to finish.
struct Countdown {
    remaining: usize,
}

impl Pollable for Countdown {
    fn poll(&mut self) -> Poll {
        if self.remaining == 0 {
            Poll::Ready
        } else {
            self.remaining -= 1;
            Poll::Pending
        }
    }
}

#[test]
fn task_ids_are_distinct_and_monotonic() {
    let mut counter = TaskIdAllocator::new();
    let a = TaskId::new(&mut counter);
    let b = TaskId::new(&mut counter);
    let c = TaskId::new(&mut counter);
    assert!(a.0 < b.0 && b.0 < c.0);
    assert!(a != b && b != c && a != c);
}

#[test]
fn simple_executor_finishes_every_task() {
    let mut counter = TaskIdAllocator::new();
    let mut exec: SimpleExecutor<Countdown> = SimpleExecutor::new();
    exec.spawn(Task::new(Countdown { remaining: 0 }, &mut counter));
    exec.spawn(Task::new(Countdown { remaining: 3 }, &mut counter));
    exec.spawn(Task::new(Countdown { remaining: 1 }, &mut counter));
    assert!(exec.run(100), "all tasks complete within the poll budget");
    assert_eq!(exec.task_queue.len(), 0);
}

#[test]
fn simple_executor_reports_unfinished_work() {
    let mut counter = TaskIdAllocator::new();
    let mut exec: SimpleExecutor<Countdown> = SimpleExecutor::new();
    exec.spawn(Task::new(Countdown { remaining: 50 }, &mut counter));
    assert!(!exec.run(3), "the poll budget runs out first");
    assert!(exec.run(1000));
}

#[test]
fn executor_retires_ready_tasks_and_keeps_pending_ones() {
    let mut counter = TaskIdAllocator::new();
    let mut exec: Executor<Countdown> = Executor::new();
    let done = Task::new(Countdown { remaining: 0 }, &mut counter);
    let waiting = Task::new(Countdown { remaining: 2 }, &mut counter);
    let waiting_id = waiting.id;
    exec.spawn(done);
    exec.spawn(waiting);
    exec.run_ready_tasks();
    assert_eq!(exec.tasks.len(), 1, "the finished task was retired");
    assert_eq!(exec.tasks[0].id, waiting_id);
    assert_eq!(exec.waker_cache.len(), 1, "the pending task keeps its waker");

    // a task completes once its wake-ups keep coming
    exec.wake(waiting_id);
    exec.run_ready_tasks();
    exec.wake(waiting_id);
    exec.run_ready_tasks();
    assert_eq!(exec.tasks.len(), 0);
    assert_eq!(exec.waker_cache.len(), 0, "its waker left with it");
}

#[test]
fn poll_task_reports_each_outcome() {
    let mut counter = TaskIdAllocator::new();
    let mut exec: Executor<Countdown> = Executor::new();
    let quick = Task::new(Countdown { remaining: 0 }, &mut counter);
    let slow = Task::new(Countdown { remaining: 1 }, &mut counter);
    let quick_id = quick.id.0;
    let slow_id = slow.id.0;
    exec.spawn(quick);
    exec.spawn(slow);
    assert_eq!(exec.poll_task(quick_id), Some(Poll::Ready), "a finished task retires");
    assert_eq!(exec.tasks.len(), 1);
    assert_eq!(exec.poll_task(quick_id), None, "its id has gone stale");
    assert_eq!(exec.poll_task(slow_id), Some(Poll::Pending), "an unfinished task stays");
    assert_eq!(exec.tasks.len(), 1);
    assert_eq!(exec.waker_cache.len(), 1, "the pending task got its waker");
    assert_eq!(exec.poll_task(slow_id), Some(Poll::Ready));
    assert_eq!(exec.tasks.len(), 0);
    assert_eq!(exec.waker_cache.len(), 0);
}

#[test]
fn simple_executor_steps_one_task_at_a_time() {
    let mut counter = TaskIdAllocator::new();
    let mut exec: SimpleExecutor<Countdown> = SimpleExecutor::new();
    exec.spawn(Task::new(Countdown { remaining: 1 }, &mut counter));
    exec.spawn(Task::new(Countdown { remaining: 0 }, &mut counter));
    assert_eq!(exec.run_step(), Some(Poll::Pending), "the front task yields and requeues");
    assert_eq!(exec.task_queue.len(), 2);
    assert_eq!(exec.run_step(), Some(Poll::Ready), "the next one finishes");
    assert_eq!(exec.task_queue.len(), 1);
    assert_eq!(exec.run_step(), Some(Poll::Ready));
    assert_eq!(exec.run_step(), None, "nothing left to poll");
}

#[test]
fn executor_skips_stale_wakes() {
    let mut counter = TaskIdAllocator::new();
    let mut exec: Executor<Countdown> = Executor::new();
    let t = Task::new(Countdown { remaining: 0 }, &mut counter);
    let id = t.id;
    exec.spawn(t);
    exec.run_ready_tasks();
    // the task is gone; waking its id again is tolerated and ignored
    exec.wake(id);
    exec.run_ready_tasks();
    assert_eq!(exec.tasks.len(), 0);
}

#[test]
fn scancode_stream_delivers_pushed_bytes_in_order() {
    let mut stream = ScancodeStream::new();
    assert_eq!(stream.poll_next(), ScancodePoll::Pending);
    assert!(stream.waker_registered, "an empty poll registers the waker");
    assert!(stream.add_scancode(0x1e));
    assert!(stream.add_scancode(0x2a));
    assert_eq!(stream.poll_next(), ScancodePoll::Ready(0x1e));
    assert_eq!(stream.poll_next(), ScancodePoll::Ready(0x2a));
    assert_eq!(stream.poll_next(), ScancodePoll::Pending);
}

#[test]
fn scancode_queue_drops_beyond_capacity() {
    let mut stream = ScancodeStream::new();
    for i in 0..100 {
        assert!(stream.add_scancode(i as u8), "push {} fits", i);
    }
    assert!(!stream.add_scancode(0xff), "the hundred-and-first byte is dropped");
    assert_eq!(stream.poll_next(), ScancodePoll::Ready(0));
    assert!(stream.add_scancode(0xff), "room again after one pop");
}

#[test]
fn decoder_turns_scancodes_into_keys() {
    let mut decoder = KeyDecoder::new();
    // 0x1e: the 'a' key pressed
    let key = decoder.decode(0x1e);
    assert_eq!(key, Some(Key::Unicode('a')));
    // shift down, then 'a': uppercase
    let mut shifted = KeyDecoder::new();
    assert_eq!(shifted.decode(0x2a), None, "shift alone types nothing");
    assert_eq!(shifted.decode(0x1e), Some(Key::Unicode('A')));
}

#[test]
fn keypress_echoes_through_stream_decoder_and_shell() {
    // a scancode injected at the port shows up as the typed character
    let mut stream = ScancodeStream::new();
    let mut decoder = KeyDecoder::new();
    let mut shell = Shell::new();
    assert!(stream.add_scancode(0x2a));
    assert!(stream.add_scancode(0x1e));
    let mut echoed: Vec<char> = Vec::new();
    while let ScancodePoll::Ready(code) = stream.poll_next() {
        if let Some(key) = decoder.decode(code) {
            if let ShellEffect::Echo(c) = shell.get_char(key) {
                echoed.push(c);
            }
        }
    }
    assert_eq!(echoed, vec!['A']);
    assert_eq!(shell.command_draft, vec!['A']);
}

fn type_line(shell: &mut Shell, line: &str) {
    for c in line.chars() {
        let effect = shell.get_char(Key::Unicode(c));
        assert_eq!(effect, ShellEffect::Echo(c));
    }
}

#[test]
fn shell_dispatches_echo_with_arguments() {
    let mut shell = Shell::new();
    type_line(&mut shell, "echo hi there");
    let effect = shell.get_char(Key::Unicode('\n'));
    let expected: Vec<char> = "hi there".chars().collect();
    assert_eq!(effect, ShellEffect::Submitted(CommandAction::Echo(expected)));
    assert_eq!(shell.command_draft.len(), 0, "the draft cleared");
}

#[test]
fn shell_dispatches_known_and_unknown_commands() {
    let mut shell = Shell::new();
    type_line(&mut shell, "EXIT");
    assert_eq!(
        shell.get_char(Key::Unicode('\n')),
        ShellEffect::Submitted(CommandAction::Exit),
        "command words are case-insensitive"
    );
    type_line(&mut shell, "clear");
    assert_eq!(shell.get_char(Key::Unicode('\n')), ShellEffect::Submitted(CommandAction::Clear));
    assert_eq!(
        shell.get_char(Key::Unicode('\n')),
        ShellEffect::Submitted(CommandAction::Nothing),
        "an empty line does nothing"
    );
    type_line(&mut shell, "frobnicate");
    let expected: Vec<char> = "frobnicate".chars().collect();
    assert_eq!(
        shell.get_char(Key::Unicode('\n')),
        ShellEffect::Submitted(CommandAction::Unknown(expected))
    );
}

#[test]
fn shell_backspace_erases_and_arrows_respect_edges() {
    let mut shell = Shell::new();
    type_line(&mut shell, "ab");
    assert_eq!(shell.get_char(Key::Unicode('\x08')), ShellEffect::Redraw);
    assert_eq!(shell.command_draft, vec!['a']);
    // at the top of the history the up arrow does nothing
    assert_eq!(shell.get_char(Key::Raw("ArrowUp".to_string())), ShellEffect::Silent);
    // any other named key just redraws
    assert_eq!(shell.get_char(Key::Raw("F1".to_string())), ShellEffect::Redraw);
    assert_eq!(shell.command_draft, vec!['a']);
}

#[test]
fn idt_wires_the_kernel_vectors() {
    let idt = init_idt();
    assert!(matches!(
        idt.entries[3],
        IdtEntry::Entry { handler: Handler::Breakpoint, use_ist: false, .. }
    ));
    assert!(matches!(
        idt.entries[8],
        IdtEntry::Entry { handler: Handler::DoubleFault, use_ist: true, ist_index: gdt::DOUBLE_FAULT_IST_INDEX }
    ));
    assert!(matches!(
        idt.entries[14],
        IdtEntry::Entry { handler: Handler::PageFault, use_ist: false, .. }
    ));
    assert!(matches!(idt.entries[32], IdtEntry::Entry { handler: Handler::Timer, .. }));
    assert!(matches!(idt.entries[33], IdtEntry::Entry { handler: Handler::Keyboard, .. }));
    assert!(matches!(idt.entries[0], IdtEntry::Missing));
    assert_eq!(InterruptIndex::Timer.as_u8(), 32);
    assert_eq!(InterruptIndex::Keyboard.as_usize(), 33);
}

#[test]
fn early_idt_has_only_the_breakpoint_gate() {
    let idt = interrupts::init_idt();
    assert!(matches!(
        idt.entries[3],
        IdtEntry::Entry { handler: Handler::Breakpoint, .. }
    ));
    assert!(matches!(idt.entries[8], IdtEntry::Missing));
}

#[test]
fn breakpoint_resumes_and_double_fault_does_not() {
    // a breakpoint prints and execution continues past it; a double fault
    // panics on its own stack instead of triple-faulting
    assert_eq!(handler_outcome(Handler::Breakpoint), HandlerOutcome::Resume);
    assert_eq!(handler_outcome(Handler::DoubleFault), HandlerOutcome::Panic);
    assert_eq!(handler_outcome(Handler::PageFault), HandlerOutcome::Halt);
    assert_eq!(handler_outcome(Handler::Timer), HandlerOutcome::ResumeAfterEoi);
}

#[test]
fn double_fault_stack_is_wired_into_the_tss() {
    let stack_start: u64 = 0x5000_0000;
    let stack_size: u64 = 4096 * 5;
    let (gdt_table, tss) = gdt::init(stack_start, stack_size);
    assert_eq!(
        tss.interrupt_stack_table[gdt::DOUBLE_FAULT_IST_INDEX as usize],
        stack_start + stack_size,
        "the double-fault gate switches to the top of its own stack"
    );
    assert_eq!(gdt_table.entries.len(), 3);
    assert_eq!(gdt_table.code_selector, 1);
    assert_eq!(gdt_table.tss_selector, 2);
}
