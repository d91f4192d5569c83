use vstd::prelude::*;

use crate::errors::EmulatorError;
use crate::memory::{be_bytes, be_value_bytes, copy_bytes};
use crate::state::EmulatorState;

verus! {

#[verifier::external_type_specification]
#[verifier::external_body]
pub struct ExRlpStream(rlp::RlpStream);

/// The items appended to an RLP list stream so far, each one the 8-byte
/// big-endian string of one word.
pub uninterp spec fn rlp_stream_words(s: rlp::RlpStream) -> Seq<u64>;

/// The number of items the list stream was declared with.
pub uninterp spec fn rlp_stream_cap(s: rlp::RlpStream) -> int;

/// The RLP encoding of one 8-byte string item: a one-byte string header,
/// then the bytes.
pub open spec fn rlp_word_item(w: u64) -> Seq<u8> {
    seq![0x88u8] + be_value_bytes(w, 8)
}

/// The concatenated item encodings that form a list's payload.
pub open spec fn rlp_words_payload(ws: Seq<u64>) -> Seq<u8>
    decreases ws.len(),
{
    if ws.len() == 0 {
        Seq::empty()
    } else {
        rlp_words_payload(ws.drop_last()) + rlp_word_item(ws.last())
    }
}

/// The minimal big-endian bytes of a length below 2^32.
pub open spec fn rlp_len_bytes(n: nat) -> Seq<u8> {
    if n < 0x100 {
        seq![n as u8]
    } else if n < 0x1_0000 {
        seq![(n / 0x100) as u8, (n % 0x100) as u8]
    } else if n < 0x100_0000 {
        seq![(n / 0x1_0000) as u8, (n / 0x100 % 0x100) as u8, (n % 0x100) as u8]
    } else {
        seq![
            (n / 0x100_0000) as u8,
            (n / 0x1_0000 % 0x100) as u8,
            (n / 0x100 % 0x100) as u8,
            (n % 0x100) as u8,
        ]
    }
}

/// The RLP list encoding of a sequence of words, each an 8-byte string item:
/// a short or long list header, then the payload.
pub open spec fn rlp_word_list(ws: Seq<u64>) -> Seq<u8> {
    let p = rlp_words_payload(ws);
    if p.len() <= 55 {
        seq![(0xc0 + p.len()) as u8] + p
    } else {
        seq![(0xf7 + rlp_len_bytes(p.len()).len()) as u8] + rlp_len_bytes(p.len()) + p
    }
}

/// Relies on rlp::RlpStream::new_list: a fresh stream for a list that
/// expects exactly `n` items.
#[verifier::external_body]
fn rlp_words_new(n: usize) -> (s: rlp::RlpStream)
    ensures
        rlp_stream_words(s) == Seq::<u64>::empty(),
        rlp_stream_cap(s) == n,
{
    rlp::RlpStream::new_list(n)
}

/// Relies on rlp::RlpStream::append_iter: appends one string item holding
/// the 8 big-endian bytes of `w`; appending past the declared count would
/// panic, so the stream must still have room.
#[verifier::external_body]
fn rlp_words_append(s: &mut rlp::RlpStream, w: u64)
    requires
        rlp_stream_words(*old(s)).len() < rlp_stream_cap(*old(s)),
    ensures
        rlp_stream_words(*final(s)) == rlp_stream_words(*old(s)).push(w),
        rlp_stream_cap(*final(s)) == rlp_stream_cap(*old(s)),
{
    s.append_iter(w.to_be_bytes());
}

/// Relies on rlp::RlpStream::out: once exactly the declared number of items
/// was appended the stream is finished (`out` would panic otherwise) and its
/// bytes are the RLP list encoding of those items.
#[verifier::external_body]
fn rlp_words_out(s: rlp::RlpStream) -> (r: Vec<u8>)
    requires
        rlp_stream_words(s).len() == rlp_stream_cap(s),
        rlp_stream_cap(s) <= 0xffff,
    ensures
        r@ == rlp_word_list(rlp_stream_words(s)),
{
    s.out().to_vec()
}

/// The root digest of the canonical Merkle-Patricia trie holding a
/// key-to-value map.
pub uninterp spec fn eth_trie_root(m: Map<Seq<u8>, Seq<u8>>) -> Seq<u8>;

/// The key-to-value map a pair sequence denotes, a later pair overriding an
/// earlier one with the same key.
pub open spec fn pairs_map(ps: Seq<(Vec<u8>, Vec<u8>)>) -> Map<Seq<u8>, Seq<u8>>
    decreases ps.len(),
{
    if ps.len() == 0 {
        Map::empty()
    } else {
        pairs_map(ps.drop_last()).insert(ps.last().0@, ps.last().1@)
    }
}

/// Relies on triehash::trie_root with the Keccak-256 hasher: the pairs are
/// first collected into an ordered map (a later duplicate key winning), so
/// the 32-byte root depends on that key-to-value map alone, not on the order
/// the pairs were produced in.
#[verifier::external_body]
fn keccak_trie_root(pairs: &Vec<(Vec<u8>, Vec<u8>)>) -> (r: [u8; 32])
    ensures
        r@ == eth_trie_root(pairs_map(pairs@)),
        r@.len() == 32,
{
    triehash::trie_root::<keccak_hasher::KeccakHasher, _, _, _>(
        pairs.iter().map(|p| (p.0.as_slice(), p.1.as_slice())),
    )
}

/// The trie key of word index `w`: its fixed-width big-endian bytes.
pub open spec fn word_index_key(w: u64) -> Seq<u8> {
    be_value_bytes(w, 4)
}

/// One register packed into a combined word: the identifier in the high 32
/// bits, the value in the low 32.
pub open spec fn spec_reg_word(id: u32, v: u64) -> u64 {
    ((id as u64) * 0x1_0000_0000 + v) as u64
}

/// The packed words of a register file, in its enumeration order.
pub open spec fn reg_words(regs: Seq<(u32, u64)>) -> Seq<u64> {
    regs.map_values(|p: (u32, u64)| spec_reg_word(p.0, p.1))
}

/// The memory half of the commitment input: every stored word's bytes keyed
/// by the big-endian bytes of its word index.
pub open spec fn mem_pairs_map(cells: Seq<(u64, Vec<u8>)>) -> Map<Seq<u8>, Seq<u8>>
    decreases cells.len(),
{
    if cells.len() == 0 {
        Map::empty()
    } else {
        mem_pairs_map(cells.drop_last()).insert(
            word_index_key((cells.last().0 / 4) as u64),
            cells.last().1@,
        )
    }
}

/// The full commitment input of a snapshot: the memory image keyed by word
/// index, and the RLP-encoded register file at the reserved all-zero key,
/// which overrides any memory word with that index.
pub open spec fn state_commitment(s: EmulatorState) -> Map<Seq<u8>, Seq<u8>> {
    mem_pairs_map(s.memories.cells_seq()).insert(
        word_index_key(0),
        rlp_word_list(reg_words(s.regs@)),
    )
}

/// Whether every register value fits the 32-bit low field of the packed
/// encoding.
pub open spec fn regs_encodable(regs: Seq<(u32, u64)>) -> bool {
    forall|i: int| 0 <= i < regs.len() ==> (#[trigger] regs[i]).1 < 0x1_0000_0000
}

/// The RLP register-file blob: one packed word per register, in order,
/// as a length-prefixed list. Fails on a value too wide for its field.
pub fn encode_registers(regs: &Vec<(u32, u64)>) -> (r: Result<Vec<u8>, EmulatorError>)
    requires
        regs@.len() <= 0xffff,
    ensures
        r is Ok <==> regs_encodable(regs@),
        r is Ok ==> r->Ok_0@ == rlp_word_list(reg_words(regs@)),
        r is Err ==> r == Err::<Vec<u8>, EmulatorError>(EmulatorError::RegisterTooWide),
{
    let n: usize = regs.len();
    let mut s = rlp_words_new(n);
    let mut i: usize = 0;
    while i < n
        invariant
            n == regs@.len(),
            n <= 0xffff,
            i <= n,
            rlp_stream_cap(s) == n,
            rlp_stream_words(s) == reg_words(regs@.take(i as int)),
            forall|j: int| 0 <= j < i ==> (#[trigger] regs@[j]).1 < 0x1_0000_0000,
        decreases n - i,
    {
        let (id, v) = regs[i];
        if v >= 0x1_0000_0000 {
            return Err(EmulatorError::RegisterTooWide);
        }
        let w: u64 = (id as u64) * 0x1_0000_0000 + v;
        rlp_words_append(&mut s, w);
        proof {
            assert(regs@.take(i + 1) =~= regs@.take(i as int).push(regs@[i as int]));
            assert(reg_words(regs@.take(i + 1)) =~= reg_words(regs@.take(i as int)).push(
                spec_reg_word(id, v),
            ));
        }
        i += 1;
    }
    proof {
        assert(regs@.take(n as int) =~= regs@);
    }
    let out = rlp_words_out(s);
    Ok(out)
}

impl EmulatorState {
    /// The 32-byte state commitment: the root of the canonical
    /// Merkle-Patricia trie over the sparse memory image (one leaf per
    /// stored word, keyed by word index) and the packed register file at the
    /// reserved all-zero key. Fails only on a register value too wide for
    /// its 32-bit field.
    pub fn state_root(&self) -> (r: Result<[u8; 32], EmulatorError>)
        requires
            self.wf(),
            self.regs@.len() <= 0xffff,
        ensures
            r is Ok <==> regs_encodable(self.regs@),
            r is Ok ==> r->Ok_0@ == eth_trie_root(state_commitment(*self)),
            r is Err ==> r == Err::<[u8; 32], EmulatorError>(EmulatorError::RegisterTooWide),
    {
        let regs_encoded = match encode_registers(&self.regs.entries) {
            Ok(b) => b,
            Err(e) => {
                return Err(e);
            },
        };
        let cells = self.memories.entries();
        let m: usize = cells.len();
        let mut pairs: Vec<(Vec<u8>, Vec<u8>)> = Vec::new();
        let mut k: usize = 0;
        while k < m
            invariant
                self.wf(),
                cells@ == self.memories.cells_seq(),
                m == cells@.len(),
                k <= m,
                pairs_map(pairs@) == mem_pairs_map(cells@.take(k as int)),
            decreases m - k,
        {
            let addr: u64 = cells[k].0;
            let key = be_bytes(addr / 4, 4);
            let val = copy_bytes(&cells[k].1);
            let ghost prev = pairs@;
            pairs.push((key, val));
            proof {
                assert(pairs@.drop_last() =~= prev);
                assert(cells@.take(k + 1) =~= cells@.take(k as int).push(cells@[k as int]));
                assert(cells@.take(k + 1).drop_last() =~= cells@.take(k as int));
                assert(pairs_map(pairs@) == mem_pairs_map(cells@.take(k + 1)));
            }
            k += 1;
        }
        proof {
            assert(cells@.take(m as int) =~= cells@);
        }
        let zero_key = be_bytes(0, 4);
        let ghost prev = pairs@;
        pairs.push((zero_key, regs_encoded));
        proof {
            assert(pairs@.drop_last() =~= prev);
            assert(pairs_map(pairs@) == state_commitment(*self));
        }
        let root = keccak_trie_root(&pairs);
        Ok(root)
    }
}

/// Commitment determinism: two well-formed snapshots with the same memory
/// image and the same register file have the same commitment input, whatever
/// order the images were built in, so their state roots agree.
pub proof fn lemma_commitment_deterministic(s1: &EmulatorState, s2: &EmulatorState)
    requires
        s1.wf(),
        s2.wf(),
        s1.memories@ == s2.memories@,
        s1.regs@ == s2.regs@,
    ensures
        state_commitment(*s1) == state_commitment(*s2),
{
    crate::memory::lemma_mem_map_canonical(s1.memories.cells_seq(), s2.memories.cells_seq());
    lemma_mem_pairs_map_congruent(s1.memories.cells_seq(), s2.memories.cells_seq());
}

proof fn lemma_mem_pairs_map_congruent(c1: Seq<(u64, Vec<u8>)>, c2: Seq<(u64, Vec<u8>)>)
    requires
        c1.len() == c2.len(),
        forall|i: int|
            0 <= i < c1.len() ==> (#[trigger] c1[i]).0 == (#[trigger] c2[i]).0 && c1[i].1@
                == c2[i].1@,
    ensures
        mem_pairs_map(c1) == mem_pairs_map(c2),
    decreases c1.len(),
{
    if c1.len() > 0 {
        assert(forall|i: int|
            0 <= i < c1.drop_last().len() ==> #[trigger] c1.drop_last()[i] == c1[i]
                && #[trigger] c2.drop_last()[i] == c2[i]);
        lemma_mem_pairs_map_congruent(c1.drop_last(), c2.drop_last());
        assert(c1.last().0 == c2.last().0 && c1.last().1@ == c2.last().1@);
    }
}

} // verus!
