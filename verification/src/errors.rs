use vstd::prelude::*;

verus! {

/// Errors surfaced by the emulation core.
#[derive(Clone, Copy, Debug, PartialEq, Eq, Structural)]
pub enum EmulatorError {
    /// The engine reported a failure: invalid memory access, decode fault,
    /// or a hook that could not be installed or removed.
    Engine,
    /// The shadow memory mirror disagrees with the engine's live memory:
    /// an unrecoverable internal-consistency violation.
    MirrorDiverged,
    /// A register value does not fit the 32-bit low field of the packed
    /// commitment encoding.
    RegisterTooWide,
}

} // verus!
