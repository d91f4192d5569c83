use omo::commit::encode_registers;
use omo::errors::EmulatorError;
use omo::memory::MemoryState;
use omo::state::{EmulatorState, RegisterState};

fn state(memories: MemoryState, regs: Vec<(u32, u64)>, steps: u64) -> EmulatorState {
    EmulatorState { regs: RegisterState { entries: regs }, memories, steps }
}

#[test]
fn register_list_encoding_exact_bytes() {
    // one register: a nine-byte payload, short list header 0xc0 + 9
    let r = encode_registers(&vec![(1u32, 5u64)]).unwrap();
    assert_eq!(r, vec![0xc9, 0x88, 0, 0, 0, 1, 0, 0, 0, 5]);
    // empty register file: the empty list
    assert_eq!(encode_registers(&vec![]).unwrap(), vec![0xc0]);
    // seven registers: payload 63 bytes, long form 0xf8 followed by the length
    let regs: Vec<(u32, u64)> = (0..7u32).map(|i| (i, i as u64)).collect();
    let enc = encode_registers(&regs).unwrap();
    assert_eq!(enc.len(), 65);
    assert_eq!(enc[0], 0xf8);
    assert_eq!(enc[1], 63);
    assert_eq!(&enc[2..11], &[0x88, 0, 0, 0, 0, 0, 0, 0, 0]);
    assert_eq!(&enc[56..65], &[0x88, 0, 0, 0, 6, 0, 0, 0, 6]);
}

#[test]
fn register_value_too_wide_is_rejected() {
    assert_eq!(
        encode_registers(&vec![(0u32, 1u64 << 32)]),
        Err(EmulatorError::RegisterTooWide)
    );
    let st = state(MemoryState::new(), vec![(0, u64::MAX)], 0);
    assert_eq!(st.state_root(), Err(EmulatorError::RegisterTooWide));
}

#[test]
fn commitment_is_deterministic_and_order_independent() {
    let mut m1 = MemoryState::new();
    m1.write_value(0x1000, 4, 0xDEADBEEF);
    m1.write_value(0x2000, 4, 0x11223344);
    let mut m2 = MemoryState::new();
    m2.write_value(0x2000, 4, 0x11223344);
    m2.write_value(0x1000, 4, 0xDEADBEEF);
    let s1 = state(m1, vec![(1, 2), (3, 4)], 0);
    let s2 = state(m2, vec![(1, 2), (3, 4)], 0);
    let r1 = s1.state_root().unwrap();
    let r2 = s2.state_root().unwrap();
    assert_eq!(r1, r2);
    // committing the same snapshot twice gives the same root
    assert_eq!(s1.state_root().unwrap(), r1);
}

#[test]
fn commitment_ignores_step_count() {
    let mut m1 = MemoryState::new();
    m1.write_value(0x1000, 4, 7);
    let mut m2 = MemoryState::new();
    m2.write_value(0x1000, 4, 7);
    let r1 = state(m1, vec![(1, 1)], 0).state_root().unwrap();
    let r2 = state(m2, vec![(1, 1)], 999).state_root().unwrap();
    assert_eq!(r1, r2);
}

#[test]
fn commitment_differs_on_any_changed_pair() {
    let mut base = MemoryState::new();
    base.write_value(0x1000, 4, 7);
    let r0 = state(base.snapshot(), vec![(1, 1)], 0).state_root().unwrap();

    // a changed value
    let mut changed = base.snapshot();
    changed.write_value(0x1000, 4, 8);
    let r1 = state(changed, vec![(1, 1)], 0).state_root().unwrap();
    assert_ne!(r0, r1);

    // an added address
    let mut added = base.snapshot();
    added.write_value(0x2000, 4, 7);
    let r2 = state(added, vec![(1, 1)], 0).state_root().unwrap();
    assert_ne!(r0, r2);

    // a removed address
    let r3 = state(MemoryState::new(), vec![(1, 1)], 0).state_root().unwrap();
    assert_ne!(r0, r3);

    // a changed register value
    let r4 = state(base.snapshot(), vec![(1, 2)], 0).state_root().unwrap();
    assert_ne!(r0, r4);

    // a changed register order
    let ra = state(base.snapshot(), vec![(1, 1), (2, 2)], 0).state_root().unwrap();
    let rb = state(base.snapshot(), vec![(2, 2), (1, 1)], 0).state_root().unwrap();
    assert_ne!(ra, rb);
}

#[test]
fn reserved_zero_key_overrides_memory_word_zero() {
    // The all-zero word index is the register-file slot: a memory word
    // there is shadowed by the register leaf, as the construction inserts
    // the register pair last.
    let mut m = MemoryState::new();
    m.write_value(0, 4, 77);
    let with_word_zero = state(m, vec![(1, 1)], 0).state_root().unwrap();
    let without = state(MemoryState::new(), vec![(1, 1)], 0).state_root().unwrap();
    assert_eq!(with_word_zero, without);
}

#[test]
fn commitment_depends_on_word_index_not_raw_address() {
    // Two images with the same word content commit identically however they
    // were written; a different word index commits differently.
    let mut a = MemoryState::new();
    a.write_value(0x1000, 2, 0x1234);
    a.write_value(0x1002, 2, 0x5678);
    let mut b = MemoryState::new();
    b.write_value(0x1000, 4, 0x12345678);
    let ra = state(a, vec![], 0).state_root().unwrap();
    let rb = state(b, vec![], 0).state_root().unwrap();
    assert_eq!(ra, rb);

    let mut c = MemoryState::new();
    c.write_value(0x1004, 4, 0x12345678);
    let rc = state(c, vec![], 0).state_root().unwrap();
    assert_ne!(ra, rc);
}
