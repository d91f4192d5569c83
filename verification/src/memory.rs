use vstd::prelude::*;

verus! {

/// Big-endian bytes of the low `size` bytes of `value`.
pub open spec fn be_value_bytes(value: u64, size: nat) -> Seq<u8>
    decreases size,
{
    if size == 0 {
        Seq::empty()
    } else {
        be_value_bytes((value / 256) as u64, (size - 1) as nat).push((value % 256) as u8)
    }
}

/// The word-aligned base address of `addr`.
pub open spec fn word_base(addr: u64) -> u64 {
    (addr - (addr % 4)) as u64
}

/// One materialized cell: a word-aligned address in the 32-bit space and the
/// four bytes stored there.
pub open spec fn cell_ok(c: (u64, Vec<u8>)) -> bool {
    &&& c.0 % 4 == 0
    &&& c.0 + 4 <= 0x1_0000_0000
    &&& c.1@.len() == 4
}

/// Cells are individually well formed and strictly sorted by address, so the
/// stored sequence is the one canonical representation of its address map.
pub open spec fn cells_wf(cells: Seq<(u64, Vec<u8>)>) -> bool {
    &&& forall|i: int| 0 <= i < cells.len() ==> cell_ok(#[trigger] cells[i])
    &&& forall|i: int, j: int|
        0 <= i < j < cells.len() ==> #[trigger] cells[i].0 < #[trigger] cells[j].0
}

/// The sparse image held by a cell sequence, as an address-to-bytes map.
pub open spec fn mem_map_rec(cells: Seq<(u64, Vec<u8>)>) -> Map<u64, Seq<u8>>
    decreases cells.len(),
{
    if cells.len() == 0 {
        Map::empty()
    } else {
        mem_map_rec(cells.drop_last()).insert(cells.last().0, cells.last().1@)
    }
}

/// The four bytes the image holds for word-aligned address `w`; an
/// unmaterialized word reads as zeroes.
pub open spec fn spec_read_word(m: Map<u64, Seq<u8>>, w: u64) -> Seq<u8> {
    if m.dom().contains(w) {
        m[w]
    } else {
        seq![0u8, 0u8, 0u8, 0u8]
    }
}

/// The `size` bytes the image holds at `addr`.
pub open spec fn spec_read(m: Map<u64, Seq<u8>>, addr: u64, size: nat) -> Seq<u8> {
    spec_read_word(m, word_base(addr)).subrange(
        (addr % 4) as int,
        addr % 4 + size,
    )
}

/// The image after writing the low `size` bytes of `value`, big endian, at
/// `addr`.
pub open spec fn spec_write(m: Map<u64, Seq<u8>>, addr: u64, size: nat, value: u64) -> Map<
    u64,
    Seq<u8>,
> {
    let w = word_base(addr);
    let off = addr % 4;
    let old_word = spec_read_word(m, w);
    m.insert(w, old_word.take(off as int) + be_value_bytes(value, size) + old_word.skip(off + size))
}

/// The shadow memory mirror: a sparse, word-granular byte store over the
/// 32-bit address space, kept as the canonical memory view for snapshots and
/// commitments.
pub struct MemoryState {
    cells: Vec<(u64, Vec<u8>)>,
}

impl View for MemoryState {
    type V = Map<u64, Seq<u8>>;

    open spec fn view(&self) -> Map<u64, Seq<u8>> {
        mem_map_rec(self.cells_seq())
    }
}

impl MemoryState {
    /// The stored cells, in strictly increasing address order.
    pub closed spec fn cells_seq(&self) -> Seq<(u64, Vec<u8>)> {
        self.cells@
    }

    pub open spec fn wf(&self) -> bool {
        cells_wf(self.cells_seq())
    }

    pub fn new() -> (m: MemoryState)
        ensures
            m.wf(),
            m@ == Map::<u64, Seq<u8>>::empty(),
            m.cells_seq().len() == 0,
    {
        MemoryState { cells: Vec::new() }
    }

    /// The number of materialized words.
    pub fn len(&self) -> (n: usize)
        ensures
            n == self.cells_seq().len(),
    {
        self.cells.len()
    }

    /// The cells of the sparse image, for callers that serialize or walk it.
    pub fn entries(&self) -> (r: &Vec<(u64, Vec<u8>)>)
        ensures
            r@ == self.cells_seq(),
    {
        &self.cells
    }

    /// Index of the first cell whose address is not below `w`.
    fn find(&self, w: u64) -> (r: usize)
        requires
            self.wf(),
        ensures
            r <= self.cells_seq().len(),
            forall|j: int| 0 <= j < r ==> (#[trigger] self.cells_seq()[j]).0 < w,
            forall|j: int|
                r <= j < self.cells_seq().len() ==> w <= (#[trigger] self.cells_seq()[j]).0,
    {
        let n: usize = self.cells.len();
        let mut i: usize = 0;
        while i < n
            invariant
                self.wf(),
                n == self.cells_seq().len(),
                i <= n,
                forall|j: int| 0 <= j < i ==> (#[trigger] self.cells_seq()[j]).0 < w,
            decreases n - i,
        {
            if self.cells[i].0 >= w {
                proof {
                    assert forall|j: int|
                        i <= j < self.cells_seq().len() implies w <= (
                    #[trigger] self.cells_seq()[j]).0 by {
                        if i < j {
                            assert(self.cells_seq()[i as int].0 < self.cells_seq()[j].0);
                        }
                    }
                }
                return i;
            }
            i += 1;
        }
        i
    }

    /// Read the `size` bytes at `addr`; bytes of a word never written read as
    /// zero.
    pub fn read_bytes(&self, addr: u64, size: usize) -> (r: Vec<u8>)
        requires
            self.wf(),
            size == 1 || size == 2 || size == 4,
            addr % 4 + size <= 4,
            addr + size <= 0x1_0000_0000,
        ensures
            r@ == spec_read(self@, addr, size as nat),
            r@.len() == size,
    {
        proof {
            lemma_mem_map_dom(self.cells_seq());
        }
        let w: u64 = addr - addr % 4;
        let off: usize = (addr % 4) as usize;
        let idx = self.find(w);
        let mut r: Vec<u8> = Vec::new();
        if idx < self.cells.len() && self.cells[idx].0 == w {
            proof {
                lemma_mem_map_lookup(self.cells_seq(), idx as int);
            }
            let mut k: usize = 0;
            while k < size
                invariant
                    k <= size,
                    off + size <= 4,
                    idx < self.cells_seq().len(),
                    self.cells_seq()[idx as int].1@.len() == 4,
                    r@ == self.cells_seq()[idx as int].1@.subrange(off as int, off + k),
                decreases size - k,
            {
                let b: u8 = self.cells[idx].1[off + k];
                r.push(b);
                proof {
                    assert(r@ =~= self.cells_seq()[idx as int].1@.subrange(
                        off as int,
                        off + k + 1,
                    ));
                }
                k += 1;
            }
            proof {
                assert(self@.dom().contains(w));
                assert(self@[w] == self.cells_seq()[idx as int].1@);
                assert(r@ =~= spec_read(self@, addr, size as nat));
            }
        } else {
            proof {
                assert(forall|j: int|
                    0 <= j < self.cells_seq().len() ==> (#[trigger] self.cells_seq()[j]).0 != w);
                assert(!self@.dom().contains(w));
            }
            let mut k: usize = 0;
            while k < size
                invariant
                    k <= size,
                    r@ =~= Seq::<u8>::new(k as nat, |i: int| 0u8),
                decreases size - k,
            {
                r.push(0u8);
                k += 1;
            }
            proof {
                assert(r@ =~= spec_read(self@, addr, size as nat));
            }
        }
        r
    }

    /// Write the low `size` bytes of `value`, big endian, at `addr`.
    #[verifier::rlimit(60)]
    pub fn write_value(&mut self, addr: u64, size: usize, value: u64)
        requires
            old(self).wf(),
            size == 1 || size == 2 || size == 4,
            addr % 4 + size <= 4,
            addr + size <= 0x1_0000_0000,
        ensures
            final(self).wf(),
            final(self)@ == spec_write(old(self)@, addr, size as nat, value),
    {
        proof {
            lemma_mem_map_dom(self.cells_seq());
        }
        let w: u64 = addr - addr % 4;
        let off: usize = (addr % 4) as usize;
        assert(w % 4 == 0 && w + 4 <= 0x1_0000_0000) by (nonlinear_arith)
            requires
                w == addr - addr % 4,
                addr % 4 + size <= 4,
                1 <= size,
                addr + size <= 0x1_0000_0000,
        ;
        let bytes = be_bytes(value, size);
        let idx = self.find(w);
        let found = idx < self.cells.len() && self.cells[idx].0 == w;
        let old_word: Vec<u8> = if found {
            proof {
                lemma_mem_map_lookup(self.cells_seq(), idx as int);
            }
            copy_bytes(&self.cells[idx].1)
        } else {
            proof {
                assert(forall|j: int|
                    0 <= j < self.cells_seq().len() ==> (#[trigger] self.cells_seq()[j]).0 != w);
                assert(!self@.dom().contains(w));
            }
            let mut z: Vec<u8> = Vec::new();
            z.push(0u8);
            z.push(0u8);
            z.push(0u8);
            z.push(0u8);
            proof {
                assert(z@ =~= seq![0u8, 0u8, 0u8, 0u8]);
            }
            z
        };
        assert(old_word@ == spec_read_word(self@, w));
        let new_word = splice_word(&old_word, off, &bytes);
        if found {
            let ghost pre = self.cells@;
            self.cells.remove(idx);
            self.cells.insert(idx, (w, new_word));
            proof {
                assert(self.cells@ =~= pre.update(idx as int, (w, new_word)));
                lemma_mem_map_update_at(pre, idx as int, (w, new_word));
                assert(cells_wf(self.cells@)) by {
                    assert(forall|i: int|
                        0 <= i < self.cells@.len() && i != idx ==> self.cells@[i] == pre[i]);
                }
            }
        } else {
            let ghost pre = self.cells@;
            self.cells.insert(idx, (w, new_word));
            proof {
                lemma_mem_map_insert_at(pre, idx as int, (w, new_word));
                assert(cells_wf(self.cells@)) by {
                    assert(forall|i: int| 0 <= i < idx ==> self.cells@[i] == pre[i]);
                    assert(forall|i: int|
                        idx < i < self.cells@.len() ==> self.cells@[i] == pre[i - 1]);
                }
            }
        }
    }

    /// An independent copy of the sparse image: same addresses, same bytes.
    pub fn snapshot(&self) -> (m: MemoryState)
        requires
            self.wf(),
        ensures
            m.wf(),
            m@ == self@,
            m.cells_seq().len() == self.cells_seq().len(),
            forall|i: int|
                0 <= i < self.cells_seq().len() ==> (#[trigger] m.cells_seq()[i]).0
                    == self.cells_seq()[i].0 && m.cells_seq()[i].1@ == self.cells_seq()[i].1@,
    {
        let n: usize = self.cells.len();
        let mut cells: Vec<(u64, Vec<u8>)> = Vec::new();
        let mut i: usize = 0;
        while i < n
            invariant
                self.wf(),
                n == self.cells_seq().len(),
                i <= n,
                cells@.len() == i,
                forall|j: int|
                    0 <= j < i ==> (#[trigger] cells@[j]).0 == self.cells_seq()[j].0
                        && cells@[j].1@ == self.cells_seq()[j].1@,
            decreases n - i,
        {
            let a: u64 = self.cells[i].0;
            let b = copy_bytes(&self.cells[i].1);
            cells.push((a, b));
            i += 1;
        }
        let m = MemoryState { cells };
        proof {
            lemma_mem_map_congruent(m.cells_seq(), self.cells_seq());
        }
        m
    }
}

/// A fresh vector with the same bytes.
pub fn copy_bytes(src: &Vec<u8>) -> (r: Vec<u8>)
    ensures
        r@ == src@,
{
    let n: usize = src.len();
    let mut r: Vec<u8> = Vec::new();
    let mut i: usize = 0;
    while i < n
        invariant
            n == src@.len(),
            i <= n,
            r@ == src@.subrange(0, i as int),
        decreases n - i,
    {
        let b: u8 = src[i];
        r.push(b);
        proof {
            assert(r@ =~= src@.subrange(0, i + 1));
        }
        i += 1;
    }
    proof {
        assert(r@ =~= src@);
    }
    r
}

/// The big-endian bytes of the low `size` bytes of `value`.
pub fn be_bytes(value: u64, size: usize) -> (r: Vec<u8>)
    requires
        size == 1 || size == 2 || size == 4,
    ensures
        r@ == be_value_bytes(value, size as nat),
        r@.len() == size,
{
    proof {
        lemma_be_value_bytes_len(value, size as nat);
    }
    let mut r: Vec<u8> = Vec::new();
    if size == 4 {
        r.push((value / 0x100_0000 % 0x100) as u8);
        r.push((value / 0x1_0000 % 0x100) as u8);
    }
    if size >= 2 {
        r.push((value / 0x100 % 0x100) as u8);
    }
    r.push((value % 0x100) as u8);
    proof {
        let v = value;
        reveal_with_fuel(be_value_bytes, 6);
        assert(be_value_bytes(v, 1) =~= seq![(v % 256) as u8]);
        assert(be_value_bytes(v, 2) =~= seq![(v / 256 % 256) as u8, (v % 256) as u8]);
        assert(be_value_bytes(v, 3) =~= seq![
            (v / 0x1_0000 % 256) as u8,
            (v / 256 % 256) as u8,
            (v % 256) as u8,
        ]) by {
            assert(v / 0x1_0000 == v / 256 / 256) by (nonlinear_arith);
        }
        assert(be_value_bytes(v, 4) =~= seq![
            (v / 0x100_0000 % 256) as u8,
            (v / 0x1_0000 % 256) as u8,
            (v / 256 % 256) as u8,
            (v % 256) as u8,
        ]) by {
            assert(v / 0x100_0000 == v / 0x1_0000 / 256 && v / 0x1_0000 == v / 256 / 256)
                by (nonlinear_arith);
        }
        assert(r@ =~= be_value_bytes(value, size as nat));
    }
    r
}

/// The word with `bytes` laid over positions `off .. off + bytes.len()`.
fn splice_word(old_word: &Vec<u8>, off: usize, bytes: &Vec<u8>) -> (r: Vec<u8>)
    requires
        old_word@.len() == 4,
        off + bytes@.len() <= 4,
    ensures
        r@ == old_word@.take(off as int) + bytes@ + old_word@.skip(off + bytes@.len()),
        r@.len() == 4,
{
    let mut r: Vec<u8> = Vec::new();
    let mut i: usize = 0;
    while i < off
        invariant
            i <= off,
            off <= old_word@.len(),
            r@ == old_word@.subrange(0, i as int),
        decreases off - i,
    {
        let b: u8 = old_word[i];
        r.push(b);
        proof {
            assert(r@ =~= old_word@.subrange(0, i + 1));
        }
        i += 1;
    }
    let m: usize = bytes.len();
    let mut k: usize = 0;
    while k < m
        invariant
            k <= m,
            m == bytes@.len(),
            off <= old_word@.len(),
            r@ == old_word@.subrange(0, off as int) + bytes@.subrange(0, k as int),
        decreases m - k,
    {
        let b: u8 = bytes[k];
        r.push(b);
        proof {
            assert(r@ =~= old_word@.subrange(0, off as int) + bytes@.subrange(0, k + 1));
        }
        k += 1;
    }
    let mut j: usize = off + m;
    while j < 4
        invariant
            off + m <= j <= 4,
            m == bytes@.len(),
            old_word@.len() == 4,
            r@ == old_word@.subrange(0, off as int) + bytes@ + old_word@.subrange(
                off + m,
                j as int,
            ),
        decreases 4 - j,
    {
        let b: u8 = old_word[j];
        r.push(b);
        proof {
            assert(r@ =~= old_word@.subrange(0, off as int) + bytes@ + old_word@.subrange(
                off + m,
                j + 1,
            ));
        }
        j += 1;
    }
    proof {
        assert(r@ =~= old_word@.take(off as int) + bytes@ + old_word@.skip(off + m));
    }
    r
}

pub proof fn lemma_be_value_bytes_len(value: u64, size: nat)
    ensures
        be_value_bytes(value, size).len() == size,
    decreases size,
{
    if size > 0 {
        lemma_be_value_bytes_len((value / 256) as u64, (size - 1) as nat);
    }
}

/// A well-formed image holds exactly four bytes for every word it reads,
/// materialized or not.
pub proof fn lemma_wf_word_len(s: &MemoryState, w: u64)
    requires
        s.wf(),
    ensures
        spec_read_word(s@, w).len() == 4,
{
    lemma_mem_map_dom(s.cells_seq());
    if s@.dom().contains(w) {
        let i = choose|i: int|
            0 <= i < s.cells_seq().len() && (#[trigger] s.cells_seq()[i]).0 == w;
        lemma_mem_map_lookup(s.cells_seq(), i);
    }
}

/// Reading back a just-written range gives exactly the written bytes.
pub proof fn lemma_write_then_read(m: Map<u64, Seq<u8>>, addr: u64, size: nat, value: u64)
    requires
        size == 1 || size == 2 || size == 4,
        addr % 4 + size <= 4,
        spec_read_word(m, word_base(addr)).len() == 4,
    ensures
        spec_read(spec_write(m, addr, size, value), addr, size) == be_value_bytes(value, size),
{
    lemma_be_value_bytes_len(value, size);
    let w = word_base(addr);
    let off = (addr % 4) as int;
    let old_word = spec_read_word(m, w);
    let new_word = old_word.take(off) + be_value_bytes(value, size) + old_word.skip(off + size);
    assert(spec_read_word(spec_write(m, addr, size, value), w) == new_word);
    assert(new_word.subrange(off, off + size) =~= be_value_bytes(value, size));
}

/// The domain of the image map is exactly the set of stored addresses.
pub proof fn lemma_mem_map_dom(cells: Seq<(u64, Vec<u8>)>)
    ensures
        forall|k: u64|
            #[trigger] mem_map_rec(cells).dom().contains(k) <==> exists|i: int|
                0 <= i < cells.len() && (#[trigger] cells[i]).0 == k,
    decreases cells.len(),
{
    if cells.len() > 0 {
        lemma_mem_map_dom(cells.drop_last());
        assert forall|k: u64| #[trigger]
            mem_map_rec(cells).dom().contains(k) <==> exists|i: int|
                0 <= i < cells.len() && (#[trigger] cells[i]).0 == k by {
            if mem_map_rec(cells).dom().contains(k) {
                if k == cells.last().0 {
                    assert(cells[cells.len() - 1].0 == k);
                } else {
                    assert(mem_map_rec(cells.drop_last()).dom().contains(k));
                    let i = choose|i: int|
                        0 <= i < cells.drop_last().len() && (#[trigger] cells.drop_last()[i]).0
                            == k;
                    assert(cells.drop_last()[i] == cells[i]);
                    assert(cells[i].0 == k);
                }
            }
            if exists|i: int| 0 <= i < cells.len() && (#[trigger] cells[i]).0 == k {
                let i = choose|i: int| 0 <= i < cells.len() && (#[trigger] cells[i]).0 == k;
                if i == cells.len() - 1 {
                    assert(mem_map_rec(cells).dom().contains(k));
                } else {
                    assert(cells.drop_last()[i].0 == k);
                    assert(mem_map_rec(cells.drop_last()).dom().contains(k));
                }
            }
        }
    }
}

/// Looking a stored address up in the image map gives that cell's bytes.
pub proof fn lemma_mem_map_lookup(cells: Seq<(u64, Vec<u8>)>, i: int)
    requires
        cells_wf(cells),
        0 <= i < cells.len(),
    ensures
        mem_map_rec(cells).dom().contains(cells[i].0),
        mem_map_rec(cells)[cells[i].0] == cells[i].1@,
    decreases cells.len(),
{
    if i == cells.len() - 1 {
    } else {
        assert(cells[i].0 < cells.last().0);
        assert(cells.drop_last()[i] == cells[i]);
        lemma_cells_wf_drop_last(cells);
        lemma_mem_map_lookup(cells.drop_last(), i);
    }
}

pub proof fn lemma_cells_wf_drop_last(cells: Seq<(u64, Vec<u8>)>)
    requires
        cells_wf(cells),
        cells.len() > 0,
    ensures
        cells_wf(cells.drop_last()),
{
    assert(forall|i: int|
        0 <= i < cells.drop_last().len() ==> #[trigger] cells.drop_last()[i] == cells[i]);
}

/// Replacing the cell at `i` updates exactly that address in the image map.
pub proof fn lemma_mem_map_update_at(cells: Seq<(u64, Vec<u8>)>, i: int, c: (u64, Vec<u8>))
    requires
        cells_wf(cells),
        0 <= i < cells.len(),
        c.0 == cells[i].0,
    ensures
        mem_map_rec(cells.update(i, c)) == mem_map_rec(cells).insert(c.0, c.1@),
    decreases cells.len(),
{
    let upd = cells.update(i, c);
    if i == cells.len() - 1 {
        assert(upd.drop_last() =~= cells.drop_last());
        assert(upd.last() == c);
        assert(mem_map_rec(upd) == mem_map_rec(cells.drop_last()).insert(c.0, c.1@));
        assert(mem_map_rec(cells).insert(c.0, c.1@) =~= mem_map_rec(cells.drop_last()).insert(
            c.0,
            c.1@,
        ));
    } else {
        lemma_cells_wf_drop_last(cells);
        assert(upd.drop_last() =~= cells.drop_last().update(i, c));
        assert(upd.last() == cells.last());
        lemma_mem_map_update_at(cells.drop_last(), i, c);
        assert(cells.drop_last()[i] == cells[i]);
        assert(c.0 != cells.last().0);
        assert(mem_map_rec(upd) == mem_map_rec(cells.drop_last()).insert(c.0, c.1@).insert(
            cells.last().0,
            cells.last().1@,
        ));
        assert(mem_map_rec(cells.drop_last()).insert(c.0, c.1@).insert(
            cells.last().0,
            cells.last().1@,
        ) =~= mem_map_rec(cells).insert(c.0, c.1@));
    }
}

/// Inserting a cell with a fresh address at `i` inserts exactly that address
/// into the image map.
pub proof fn lemma_mem_map_insert_at(cells: Seq<(u64, Vec<u8>)>, i: int, c: (u64, Vec<u8>))
    requires
        0 <= i <= cells.len(),
        forall|j: int| 0 <= j < cells.len() ==> (#[trigger] cells[j]).0 != c.0,
    ensures
        mem_map_rec(cells.insert(i, c)) == mem_map_rec(cells).insert(c.0, c.1@),
    decreases cells.len(),
{
    let ins = cells.insert(i, c);
    if i == cells.len() {
        assert(ins.drop_last() =~= cells);
        assert(ins.last() == c);
    } else {
        assert(ins.last() == cells.last());
        assert(ins.drop_last() =~= cells.drop_last().insert(i, c));
        assert(forall|j: int|
            0 <= j < cells.drop_last().len() ==> #[trigger] cells.drop_last()[j] == cells[j]);
        lemma_mem_map_insert_at(cells.drop_last(), i, c);
        assert(c.0 != cells.last().0);
        assert(mem_map_rec(ins) == mem_map_rec(cells.drop_last()).insert(c.0, c.1@).insert(
            cells.last().0,
            cells.last().1@,
        ));
        assert(mem_map_rec(cells.drop_last()).insert(c.0, c.1@).insert(
            cells.last().0,
            cells.last().1@,
        ) =~= mem_map_rec(cells).insert(c.0, c.1@));
    }
}

/// Cell sequences with the same addresses and the same bytes have the same
/// image map.
pub proof fn lemma_mem_map_congruent(c1: Seq<(u64, Vec<u8>)>, c2: Seq<(u64, Vec<u8>)>)
    requires
        c1.len() == c2.len(),
        forall|i: int|
            0 <= i < c1.len() ==> (#[trigger] c1[i]).0 == (#[trigger] c2[i]).0 && c1[i].1@
                == c2[i].1@,
    ensures
        mem_map_rec(c1) == mem_map_rec(c2),
    decreases c1.len(),
{
    if c1.len() > 0 {
        assert(forall|i: int|
            0 <= i < c1.drop_last().len() ==> #[trigger] c1.drop_last()[i] == c1[i]
                && #[trigger] c2.drop_last()[i] == c2[i]);
        lemma_mem_map_congruent(c1.drop_last(), c2.drop_last());
        assert(c1.last().0 == c2.last().0 && c1.last().1@ == c2.last().1@);
    }
}

/// Strictly sorted cell sequences are canonical: equal image maps force equal
/// addresses and equal bytes, whatever order the image was built in.
pub proof fn lemma_mem_map_canonical(c1: Seq<(u64, Vec<u8>)>, c2: Seq<(u64, Vec<u8>)>)
    requires
        cells_wf(c1),
        cells_wf(c2),
        mem_map_rec(c1) == mem_map_rec(c2),
    ensures
        c1.len() == c2.len(),
        forall|i: int|
            0 <= i < c1.len() ==> (#[trigger] c1[i]).0 == (#[trigger] c2[i]).0 && c1[i].1@
                == c2[i].1@,
    decreases c1.len(),
{
    lemma_mem_map_dom(c1);
    lemma_mem_map_dom(c2);
    if c1.len() == 0 {
        if c2.len() > 0 {
            assert(c2[0].0 == c2[0].0);
            assert(mem_map_rec(c2).dom().contains(c2[0].0));
            assert(mem_map_rec(c1).dom().contains(c2[0].0));
        }
    } else {
        assert(c1[c1.len() - 1].0 == c1.last().0);
        assert(mem_map_rec(c1).dom().contains(c1.last().0)) by {
            lemma_mem_map_lookup(c1, c1.len() - 1);
        }
        if c2.len() == 0 {
            assert(mem_map_rec(c2).dom().contains(c1.last().0));
            assert(false);
        }
        let k1 = c1.last().0;
        let k2 = c2.last().0;
        lemma_mem_map_lookup(c1, c1.len() - 1);
        lemma_mem_map_lookup(c2, c2.len() - 1);
        let j2 = choose|i: int| 0 <= i < c2.len() && (#[trigger] c2[i]).0 == k1;
        assert(c2[j2].0 <= k2) by {
            if j2 < c2.len() - 1 {
                assert(c2[j2].0 < c2[c2.len() - 1].0);
            }
        }
        let j1 = choose|i: int| 0 <= i < c1.len() && (#[trigger] c1[i]).0 == k2;
        assert(c1[j1].0 <= k1) by {
            if j1 < c1.len() - 1 {
                assert(c1[j1].0 < c1[c1.len() - 1].0);
            }
        }
        assert(k1 == k2);
        assert(c1.last().1@ == c2.last().1@) by {
            assert(mem_map_rec(c1)[k1] == c1.last().1@);
            assert(mem_map_rec(c2)[k1] == c2.last().1@);
        }
        lemma_cells_wf_drop_last(c1);
        lemma_cells_wf_drop_last(c2);
        lemma_mem_map_dom(c1.drop_last());
        lemma_mem_map_dom(c2.drop_last());
        assert(!mem_map_rec(c1.drop_last()).dom().contains(k1)) by {
            assert(forall|i: int|
                0 <= i < c1.drop_last().len() ==> (#[trigger] c1.drop_last()[i]).0 == c1[i].0
                    && c1[i].0 < k1);
        }
        assert(!mem_map_rec(c2.drop_last()).dom().contains(k1)) by {
            assert(forall|i: int|
                0 <= i < c2.drop_last().len() ==> (#[trigger] c2.drop_last()[i]).0 == c2[i].0
                    && c2[i].0 < k1);
        }
        assert(mem_map_rec(c1.drop_last()) =~= mem_map_rec(c1).remove(k1));
        assert(mem_map_rec(c2.drop_last()) =~= mem_map_rec(c2).remove(k1));
        lemma_mem_map_canonical(c1.drop_last(), c2.drop_last());
        assert forall|i: int|
            0 <= i < c1.len() implies (#[trigger] c1[i]).0 == (#[trigger] c2[i]).0 && c1[i].1@
            == c2[i].1@ by {
            if i < c1.len() - 1 {
                assert(c1.drop_last()[i] == c1[i] && c2.drop_last()[i] == c2[i]);
            }
        }
    }
}

} // verus!
