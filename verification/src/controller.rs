use vstd::prelude::*;

use crate::errors::EmulatorError;
use crate::memory::{spec_read, spec_write, be_value_bytes, MemoryState};
use crate::state::{fetch_access, EmulatorState, MemAccess, RegisterState, StateChange};

verus! {

/// The execution controller's lifecycle.
#[derive(Clone, Copy, Debug, PartialEq, Eq, Structural)]
pub enum Phase {
    Constructed,
    Loaded,
    Running,
    Stopped,
}

/// The kind of a memory event the engine reports to a hook.
#[derive(Clone, Copy, Debug, PartialEq, Eq, Structural)]
pub enum MemEventKind {
    Write,
    Read,
    ReadAfter,
    Fetch,
    /// Any other event category; ignored by the logger and the mirror.
    Other,
}

/// What the binary loader reports: the entry address and the initial stack
/// top it set up.
#[derive(Clone, Copy, Debug, PartialEq, Eq, Structural)]
pub struct LoadInfo {
    pub entry: u64,
    pub stack_top: u64,
}

/// The concrete bounds of one engine start: begin and exit address, timeout
/// and instruction-count cutoffs (zero meaning none).
#[derive(Clone, Copy, Debug, PartialEq, Eq, Structural)]
pub struct RunCommand {
    pub begin: u64,
    pub until: u64,
    pub timeout: u64,
    pub count: usize,
}

/// The canonical memory view and retired-instruction count the controller
/// maintains beside the engine, fed by its permanent hooks.
pub struct MachineState {
    pub memory: MemoryState,
    pub steps: u64,
}

/// The default exit address for a pointer width: the top of the 20-bit lane
/// for 2-byte targets, a high 32-bit bound for 4-byte ones, the largest
/// address for 8-byte ones.
pub open spec fn spec_default_exitpoint(point_size: u8) -> u64 {
    if point_size == 2 {
        0xfffff
    } else if point_size == 4 {
        0x8fffffff
    } else {
        0xffff_ffff_ffff_ffff
    }
}

pub fn default_exitpoint(point_size: u8) -> (r: u64)
    requires
        point_size == 2 || point_size == 4 || point_size == 8,
    ensures
        r == spec_default_exitpoint(point_size),
{
    if point_size == 2 {
        0xfffff
    } else if point_size == 4 {
        0x8fffffff
    } else {
        0xffff_ffff_ffff_ffff
    }
}

/// The log entries one reported event contributes: writes and the read-like
/// categories each one entry, anything else none.
pub open spec fn logged_accesses(kind: MemEventKind, addr: u64, size: usize, value: i64) -> Seq<
    MemAccess,
> {
    match kind {
        MemEventKind::Write => seq![MemAccess { write: true, addr, size, value }],
        MemEventKind::Read | MemEventKind::ReadAfter | MemEventKind::Fetch => seq![
            MemAccess { write: false, addr, size, value },
        ],
        MemEventKind::Other => Seq::empty(),
    }
}

/// The verifiable execution controller. It owns the shadow memory mirror,
/// the step counter and the access logger; the engine itself is driven by the
/// caller, which forwards every hook event here and performs the run commands
/// this controller hands out.
pub struct Emulator<O> {
    os: O,
    pointer_size: u8,
    state: MachineState,
    phase: Phase,
    trace: Option<Vec<MemAccess>>,
}

impl<O> Emulator<O> {
    pub closed spec fn state_spec(&self) -> MachineState {
        self.state
    }

    pub closed spec fn phase_spec(&self) -> Phase {
        self.phase
    }

    pub closed spec fn pointer_size_spec(&self) -> u8 {
        self.pointer_size
    }

    pub closed spec fn os_spec(&self) -> O {
        self.os
    }

    pub closed spec fn tracing(&self) -> bool {
        self.trace is Some
    }

    pub closed spec fn trace_log(&self) -> Seq<MemAccess> {
        self.trace->Some_0@
    }

    /// Loaded-or-later: the state both execution operations require.
    pub open spec fn loaded(&self) -> bool {
        !(self.phase_spec() is Constructed)
    }

    pub closed spec fn inv(&self) -> bool {
        &&& self.state.memory.wf()
        &&& (self.pointer_size == 2 || self.pointer_size == 4 || self.pointer_size == 8)
        &&& (self.trace is Some ==> self.trace->Some_0@.len() >= 1
            && !self.trace->Some_0@[0].write && self.trace->Some_0@[0].size == 4)
    }

    /// The access log, while one traced step is active, always starts with
    /// the seeded instruction fetch: a read of size 4.
    pub proof fn lemma_first_access_is_fetch(&self)
        requires
            self.inv(),
            self.tracing(),
        ensures
            self.trace_log().len() >= 1,
            !self.trace_log()[0].write,
            self.trace_log()[0].size == 4,
    {
    }

    /// A fresh controller: permanent mirroring and counting start here, with
    /// an empty mirror and a zero step count.
    pub fn new(pointer_size: u8, os: O) -> (e: Emulator<O>)
        requires
            pointer_size == 2 || pointer_size == 4 || pointer_size == 8,
        ensures
            e.inv(),
            e.phase_spec() is Constructed,
            e.state_spec().steps == 0,
            e.state_spec().memory@ == Map::<u64, Seq<u8>>::empty(),
            e.state_spec().memory.wf(),
            !e.tracing(),
            e.pointer_size_spec() == pointer_size,
            e.os_spec() == os,
    {
        Emulator {
            os,
            pointer_size,
            state: MachineState { memory: MemoryState::new(), steps: 0 },
            phase: Phase::Constructed,
            trace: None,
        }
    }

    /// The controller's view of the machine: mirror and step counter.
    pub fn engine(&self) -> (r: &MachineState)
        ensures
            *r == self.state_spec(),
    {
        &self.state
    }

    /// The operating-system runner this controller was built around.
    pub fn runner(&self) -> (r: &O)
        ensures
            *r == self.os_spec(),
    {
        &self.os
    }

    /// Record what the loader reported and enter the Loaded phase. The
    /// binary image itself is placed by the external loader.
    pub fn load(&mut self, info: LoadInfo) -> (r: LoadInfo)
        requires
            old(self).inv(),
        ensures
            final(self).inv(),
            final(self).phase_spec() is Loaded,
            r == info,
            final(self).state_spec() == old(self).state_spec(),
            final(self).tracing() == old(self).tracing(),
            final(self).trace_log() == old(self).trace_log(),
            final(self).pointer_size_spec() == old(self).pointer_size_spec(),
            final(self).os_spec() == old(self).os_spec(),
    {
        self.phase = Phase::Loaded;
        info
    }

    /// Resolve a run-to-completion request into the concrete bounds the
    /// engine is to be started with, and enter the Running phase. A missing
    /// exit address falls back to the pointer-width default; missing cutoffs
    /// mean none.
    pub fn run(
        &mut self,
        entrypoint: u64,
        exitpoint: Option<u64>,
        timeout: Option<u64>,
        count: Option<usize>,
    ) -> (c: RunCommand)
        requires
            old(self).inv(),
            old(self).loaded(),
        ensures
            final(self).inv(),
            final(self).phase_spec() is Running,
            final(self).state_spec() == old(self).state_spec(),
            final(self).tracing() == old(self).tracing(),
            final(self).trace_log() == old(self).trace_log(),
            final(self).pointer_size_spec() == old(self).pointer_size_spec(),
            final(self).os_spec() == old(self).os_spec(),
            c.begin == entrypoint,
            c.until == match exitpoint {
                Some(e) => e,
                None => spec_default_exitpoint(old(self).pointer_size_spec()),
            },
            c.timeout == match timeout {
                Some(t) => t,
                None => 0u64,
            },
            c.count == match count {
                Some(n) => n,
                None => 0usize,
            },
    {
        let until = match exitpoint {
            Some(e) => e,
            None => default_exitpoint(self.pointer_size),
        };
        let t = match timeout {
            Some(t) => t,
            None => 0,
        };
        let n = match count {
            Some(n) => n,
            None => 0,
        };
        self.phase = Phase::Running;
        RunCommand { begin: entrypoint, until, timeout: t, count: n }
    }

    /// Close a completed run and report the monotonic step count: the number
    /// of instructions retired over the controller's lifetime.
    pub fn finish_run(&mut self) -> (steps: u64)
        requires
            old(self).inv(),
        ensures
            final(self).inv(),
            final(self).phase_spec() is Stopped,
            steps == old(self).state_spec().steps,
            final(self).state_spec() == old(self).state_spec(),
            final(self).tracing() == old(self).tracing(),
            final(self).trace_log() == old(self).trace_log(),
            final(self).pointer_size_spec() == old(self).pointer_size_spec(),
            final(self).os_spec() == old(self).os_spec(),
    {
        self.phase = Phase::Stopped;
        self.state.steps
    }

    /// The permanent instruction-boundary hook: exactly one increment per
    /// retired instruction, whether or not a trace is active.
    pub fn on_code(&mut self)
        requires
            old(self).inv(),
            old(self).state_spec().steps < u64::MAX,
        ensures
            final(self).inv(),
            final(self).state_spec().steps == old(self).state_spec().steps + 1,
            final(self).state_spec().memory == old(self).state_spec().memory,
            final(self).phase_spec() == old(self).phase_spec(),
            final(self).tracing() == old(self).tracing(),
            final(self).trace_log() == old(self).trace_log(),
            final(self).pointer_size_spec() == old(self).pointer_size_spec(),
            final(self).os_spec() == old(self).os_spec(),
    {
        self.state.steps = self.state.steps + 1;
    }

    /// The permanent hook's WRITE leg: succeeds and mirrors the write exactly
    /// when the mirror's pre-write content equals the engine's live bytes;
    /// any divergence is fatal and leaves the mirror untouched.
    pub fn on_write(&mut self, addr: u64, size: usize, value: u64, live: &Vec<u8>) -> (r: Result<
        (),
        EmulatorError,
    >)
        requires
            old(self).inv(),
            size == 1 || size == 2 || size == 4,
            addr % 4 + size <= 4,
            addr + size <= 0x1_0000_0000,
            live@.len() == size,
        ensures
            final(self).inv(),
            r is Ok <==> live@ == spec_read(old(self).state_spec().memory@, addr, size as nat),
            r is Ok ==> final(self).state_spec().memory@ == spec_write(
                old(self).state_spec().memory@,
                addr,
                size as nat,
                value,
            ),
            r is Ok ==> spec_read(final(self).state_spec().memory@, addr, size as nat)
                == be_value_bytes(value, size as nat),
            r is Err ==> *final(self) == *old(self) && r == Err::<(), EmulatorError>(
                EmulatorError::MirrorDiverged,
            ),
            final(self).state_spec().memory.wf(),
            final(self).state_spec().steps == old(self).state_spec().steps,
            final(self).phase_spec() == old(self).phase_spec(),
            final(self).tracing() == old(self).tracing(),
            final(self).trace_log() == old(self).trace_log(),
            final(self).pointer_size_spec() == old(self).pointer_size_spec(),
            final(self).os_spec() == old(self).os_spec(),
    {
        let cur = self.state.memory.read_bytes(addr, size);
        if !bytes_eq(&cur, live) {
            return Err(EmulatorError::MirrorDiverged);
        }
        proof {
            crate::memory::lemma_wf_word_len(&self.state.memory, crate::memory::word_base(addr));
        }
        self.state.memory.write_value(addr, size, value);
        proof {
            crate::memory::lemma_write_then_read(
                old(self).state_spec().memory@,
                addr,
                size as nat,
                value,
            );
        }
        Ok(())
    }

    /// The permanent hook's READ-AFTER leg: a pure consistency check that the
    /// value the engine resolved equals the mirror's content for that address
    /// and size.
    pub fn on_read_after(&self, addr: u64, size: usize, value: u64) -> (r: Result<
        (),
        EmulatorError,
    >)
        requires
            self.inv(),
            size == 1 || size == 2 || size == 4,
            addr % 4 + size <= 4,
            addr + size <= 0x1_0000_0000,
        ensures
            r is Ok <==> be_value_bytes(value, size as nat) == spec_read(
                self.state_spec().memory@,
                addr,
                size as nat,
            ),
            r is Err ==> r == Err::<(), EmulatorError>(EmulatorError::MirrorDiverged),
    {
        let cur = self.state.memory.read_bytes(addr, size);
        let expect = crate::memory::be_bytes(value, size);
        if !bytes_eq(&expect, &cur) {
            return Err(EmulatorError::MirrorDiverged);
        }
        Ok(())
    }

    /// Open a traced step: seed the access log with the synthetic fetch
    /// entry for the instruction word at the current program counter.
    pub fn begin_trace(&mut self, pc: u64, instruction: &Vec<u8>)
        requires
            old(self).inv(),
            old(self).loaded(),
            !old(self).tracing(),
            instruction@.len() == 4,
        ensures
            final(self).inv(),
            final(self).tracing(),
            final(self).trace_log() == seq![fetch_access(pc, instruction@)],
            final(self).state_spec() == old(self).state_spec(),
            final(self).phase_spec() == old(self).phase_spec(),
            final(self).pointer_size_spec() == old(self).pointer_size_spec(),
            final(self).os_spec() == old(self).os_spec(),
    {
        let b0 = instruction[0];
        let b1 = instruction[1];
        let b2 = instruction[2];
        let b3 = instruction[3];
        let word: u64 = (b0 as u64) * 0x100_0000 + (b1 as u64) * 0x1_0000 + (b2 as u64) * 0x100 + (
        b3 as u64);
        let entry = MemAccess { write: false, addr: pc, size: 4, value: word as i64 };
        let mut log: Vec<MemAccess> = Vec::new();
        log.push(entry);
        self.trace = Some(log);
        proof {
            assert(self.trace_log() =~= seq![fetch_access(pc, instruction@)]);
        }
    }

    /// The transient per-step hook: append one entry per observed write or
    /// read-like event, in the exact order the engine emits them.
    pub fn record_access(&mut self, kind: MemEventKind, addr: u64, size: usize, value: i64)
        requires
            old(self).inv(),
            old(self).tracing(),
        ensures
            final(self).inv(),
            final(self).tracing(),
            final(self).trace_log() == old(self).trace_log() + logged_accesses(
                kind,
                addr,
                size,
                value,
            ),
            final(self).state_spec() == old(self).state_spec(),
            final(self).phase_spec() == old(self).phase_spec(),
            final(self).pointer_size_spec() == old(self).pointer_size_spec(),
            final(self).os_spec() == old(self).os_spec(),
    {
        let entry = match kind {
            MemEventKind::Write => Some(MemAccess { write: true, addr, size, value }),
            MemEventKind::Read | MemEventKind::ReadAfter | MemEventKind::Fetch => Some(
                MemAccess { write: false, addr, size, value },
            ),
            MemEventKind::Other => None,
        };
        match entry {
            Some(e) => {
                if let Some(log) = &mut self.trace {
                    log.push(e);
                }
                proof {
                    assert(self.trace_log() =~= old(self).trace_log() + logged_accesses(
                        kind,
                        addr,
                        size,
                        value,
                    ));
                }
            },
            None => {
                proof {
                    assert(self.trace_log() =~= old(self).trace_log() + logged_accesses(
                        kind,
                        addr,
                        size,
                        value,
                    ));
                }
            },
        }
    }

    /// Capture an immutable snapshot: the register file the caller read from
    /// the engine, an independent copy of the mirror, and the step count.
    /// A pure read: neither mirror nor counter moves.
    pub fn save(&self, regs: RegisterState) -> (s: EmulatorState)
        requires
            self.inv(),
        ensures
            s.regs == regs,
            s.memories@ == self.state_spec().memory@,
            s.memories.wf(),
            s.steps == self.state_spec().steps,
            s.wf(),
    {
        let memory = self.state.memory.snapshot();
        EmulatorState { regs, memories: memory, steps: self.state.steps }
    }

    /// Close a traced step: freeze the access log, hand it out with the two
    /// snapshots, and stamp the bundle with step index `count + 1`.
    pub fn finish_trace(
        &mut self,
        state_before: EmulatorState,
        state_after: EmulatorState,
        count: usize,
    ) -> (sc: StateChange)
        requires
            old(self).inv(),
            old(self).tracing(),
            count < usize::MAX,
        ensures
            final(self).inv(),
            !final(self).tracing(),
            sc.state_before == state_before,
            sc.state_after == state_after,
            sc.step == count as u64 + 1,
            sc.access@ == old(self).trace_log(),
            sc.access@.len() >= 1,
            !sc.access@[0].write,
            sc.access@[0].size == 4,
            final(self).state_spec() == old(self).state_spec(),
            final(self).phase_spec() == old(self).phase_spec(),
            final(self).pointer_size_spec() == old(self).pointer_size_spec(),
            final(self).os_spec() == old(self).os_spec(),
    {
        let log = self.trace.take();
        match log {
            Some(access) => StateChange {
                state_before,
                state_after,
                step: count as u64 + 1,
                access,
            },
            None => vstd::pervasive::unreached(),
        }
    }
}

/// Byte-for-byte equality of two vectors.
fn bytes_eq(a: &Vec<u8>, b: &Vec<u8>) -> (r: bool)
    ensures
        r <==> a@ == b@,
{
    let n: usize = a.len();
    if n != b.len() {
        return false;
    }
    let mut i: usize = 0;
    while i < n
        invariant
            n == a@.len(),
            n == b@.len(),
            i <= n,
            forall|j: int| 0 <= j < i ==> a@[j] == b@[j],
        decreases n - i,
    {
        if a[i] != b[i] {
            return false;
        }
        i += 1;
    }
    proof {
        assert(a@ =~= b@);
    }
    true
}

} // verus!
