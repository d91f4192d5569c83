use omo::controller::{default_exitpoint, Emulator, LoadInfo, MemEventKind};
use omo::errors::EmulatorError;
use omo::state::RegisterState;

fn regs(entries: Vec<(u32, u64)>) -> RegisterState {
    RegisterState { entries }
}

fn loaded_emulator() -> Emulator<()> {
    let mut e = Emulator::new(4, ());
    e.load(LoadInfo { entry: 0x100, stack_top: 0x7fff_0000 });
    e
}

#[test]
fn default_exitpoint_per_pointer_width() {
    assert_eq!(default_exitpoint(2), 0xfffff);
    assert_eq!(default_exitpoint(4), 0x8fffffff);
    assert_eq!(default_exitpoint(8), 0xffff_ffff_ffff_ffff);
}

#[test]
fn run_command_fills_in_defaults() {
    let mut e = loaded_emulator();
    let c = e.run(0x100, None, None, None);
    assert_eq!(c.begin, 0x100);
    assert_eq!(c.until, 0x8fffffff);
    assert_eq!(c.timeout, 0);
    assert_eq!(c.count, 0);
    let c = e.run(0x200, Some(0x400), Some(9), Some(3));
    assert_eq!((c.begin, c.until, c.timeout, c.count), (0x200, 0x400, 9, 3));
}

#[test]
fn untraced_step_without_data_access_logs_only_the_fetch() {
    // One instruction with no data-memory operand: the log is exactly the
    // seeded fetch entry.
    let mut e = loaded_emulator();
    let before = e.save(regs(vec![(1, 7)]));
    e.begin_trace(0x100, &vec![0x12, 0x34, 0x56, 0x78]);
    e.on_code();
    let after = e.save(regs(vec![(1, 7)]));
    let sc = e.finish_trace(before, after, 0);
    assert_eq!(sc.step, 1);
    assert_eq!(sc.access.len(), 1);
    assert!(!sc.access[0].write);
    assert_eq!(sc.access[0].addr, 0x100);
    assert_eq!(sc.access[0].size, 4);
    assert_eq!(sc.access[0].value, 0x12345678);
}

#[test]
fn traced_call_with_zero_count_keeps_the_plain_snapshot() {
    // With count zero the before-state is a plain snapshot taken with no
    // execution, and the bundle is stamped step 1.
    let mut e = loaded_emulator();
    let plain = e.save(regs(vec![(2, 9)]));
    let before = e.save(regs(vec![(2, 9)]));
    e.begin_trace(0x100, &vec![0, 0, 0, 0]);
    e.on_code();
    let after = e.save(regs(vec![(2, 9)]));
    let sc = e.finish_trace(before, after, 0);
    assert_eq!(sc.step, 1);
    assert_eq!(sc.state_before.steps, plain.steps);
    assert_eq!(
        sc.state_before.memories.read_bytes(0x100, 4),
        plain.memories.read_bytes(0x100, 4)
    );
    assert_eq!(sc.state_after.steps, plain.steps + 1);
}

#[test]
fn load_then_store_instruction_logs_three_entries_in_order() {
    let mut e = loaded_emulator();
    let before = e.save(regs(vec![]));
    e.begin_trace(0x100, &vec![0, 0, 0, 1]);
    // the instruction loads a word, then stores one
    e.record_access(MemEventKind::ReadAfter, 0x2000, 4, 0x11);
    e.record_access(MemEventKind::Write, 0x3000, 4, 0x22);
    e.on_code();
    let after = e.save(regs(vec![]));
    let sc = e.finish_trace(before, after, 0);
    assert_eq!(sc.access.len(), 3);
    assert!(!sc.access[0].write);
    assert_eq!(sc.access[0].addr, 0x100);
    assert!(!sc.access[1].write);
    assert_eq!(sc.access[1].addr, 0x2000);
    assert!(sc.access[2].write);
    assert_eq!(sc.access[2].addr, 0x3000);
}

#[test]
fn other_event_kinds_are_not_logged() {
    let mut e = loaded_emulator();
    let before = e.save(regs(vec![]));
    e.begin_trace(0x100, &vec![0, 0, 0, 0]);
    e.record_access(MemEventKind::Other, 0x2000, 4, 0);
    let after = e.save(regs(vec![]));
    let sc = e.finish_trace(before, after, 0);
    assert_eq!(sc.access.len(), 1);
}

#[test]
fn step_counter_counts_every_retired_instruction() {
    // The counter is monotonic over the controller's lifetime and is not
    // disturbed by traced calls in between.
    let mut e = loaded_emulator();
    let _ = e.run(0x100, None, None, None);
    for _ in 0..5 {
        e.on_code();
    }
    assert_eq!(e.finish_run(), 5);
    let before = e.save(regs(vec![]));
    e.begin_trace(0x114, &vec![0, 0, 0, 0]);
    e.on_code();
    let after = e.save(regs(vec![]));
    let sc = e.finish_trace(before, after, 5);
    assert_eq!(sc.step, 6);
    assert_eq!(sc.state_after.steps, 6);
    let _ = e.run(0x118, None, None, None);
    for _ in 0..4 {
        e.on_code();
    }
    assert_eq!(e.finish_run(), 10);
}

#[test]
fn mirror_divergence_is_detected_and_consistency_preserved() {
    let mut e = loaded_emulator();
    // live bytes disagreeing with the mirror are fatal
    assert_eq!(
        e.on_write(0x1000, 1, 1, &vec![9]),
        Err(EmulatorError::MirrorDiverged)
    );
    assert_eq!(
        e.on_read_after(0x1000, 1, 0x55),
        Err(EmulatorError::MirrorDiverged)
    );
    // a consistent feed keeps mirror and ground truth equal for every
    // written address
    assert!(e.on_write(0x1000, 1, 0x2A, &vec![0]).is_ok());
    assert!(e.on_read_after(0x1000, 1, 0x2A).is_ok());
    assert!(e.on_write(0x1000, 4, 0x2A00_0000, &vec![0x2A, 0, 0, 0]).is_ok());
    assert!(e.on_read_after(0x1000, 4, 0x2A00_0000).is_ok());
}

#[test]
fn two_instruction_write_then_read_scenario() {
    // Instruction one writes 0x2A (one byte) to 0x1000; instruction two
    // reads it back. Trace both, one instruction per traced call.
    let mut e = loaded_emulator();
    let before = e.save(regs(vec![]));
    e.begin_trace(0x0, &vec![0, 0, 0, 1]);
    e.on_write(0x1000, 1, 0x2A, &vec![0]).unwrap();
    e.record_access(MemEventKind::Write, 0x1000, 1, 0x2A);
    e.on_code();
    let after = e.save(regs(vec![]));
    let sc = e.finish_trace(before, after, 0);
    assert_eq!(sc.step, 1);
    assert_eq!(sc.state_after.memories.read_bytes(0x1000, 1), vec![0x2A]);
    assert_eq!(sc.state_before.memories.read_bytes(0x1000, 1), vec![0]);

    let before2 = e.save(regs(vec![]));
    e.begin_trace(0x4, &vec![0, 0, 0, 2]);
    e.on_read_after(0x1000, 1, 0x2A).unwrap();
    e.record_access(MemEventKind::ReadAfter, 0x1000, 1, 0x2A);
    e.on_code();
    let after2 = e.save(regs(vec![]));
    let sc2 = e.finish_trace(before2, after2, 1);
    assert_eq!(sc2.step, 2);
    assert_eq!(sc2.access.len(), 2);
    assert!(!sc2.access[0].write);
    assert_eq!(sc2.access[0].addr, 0x4);
    assert_eq!(sc2.access[0].size, 4);
    assert!(!sc2.access[1].write);
    assert_eq!(sc2.access[1].addr, 0x1000);
    assert_eq!(sc2.access[1].size, 1);
    assert_eq!(sc2.access[1].value, 0x2A);
}

#[test]
fn save_is_a_pure_read() {
    let mut e = loaded_emulator();
    e.on_write(0x1000, 4, 7, &vec![0, 0, 0, 0]).unwrap();
    e.on_code();
    let s1 = e.save(regs(vec![(1, 1)]));
    let s2 = e.save(regs(vec![(1, 1)]));
    assert_eq!(s1.steps, s2.steps);
    assert_eq!(
        s1.memories.read_bytes(0x1000, 4),
        s2.memories.read_bytes(0x1000, 4)
    );
    assert_eq!(e.engine().steps, 1);
}

#[test]
fn runner_and_engine_expose_the_parts() {
    let mut e = Emulator::new(8, 42u32);
    assert_eq!(*e.runner(), 42);
    assert_eq!(e.engine().steps, 0);
    e.on_code();
    assert_eq!(e.engine().steps, 1);
    assert_eq!(e.engine().memory.len(), 0);
}
