//! Verified core of an instruction-level execution tracer: a shadow memory
//! mirror kept consistent with an emulation engine, an access logger for one
//! traced instruction, monotonic step counting, immutable state snapshots and
//! a deterministic Merkle-Patricia commitment over machine state.

pub mod commit;
pub mod controller;
pub mod errors;
pub mod memory;
pub mod state;
