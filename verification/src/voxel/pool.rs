//! Chunk pools: flat arrays of cells, one fixed-size run of cells per slot.
use vstd::prelude::*;
use super::format::{Cell, CELLS_PER_CHUNK, POOL_CHUNK_COUNT};

verus! {

/// First cell of a slot's chunk.
pub open spec fn chunk_start(slot: int) -> int {
    slot * CELLS_PER_CHUNK as int
}

/// The cells of a slot's chunk.
pub open spec fn chunk_of(cells: Seq<Cell>, slot: int) -> Seq<Cell> {
    cells.subrange(chunk_start(slot), chunk_start(slot) + CELLS_PER_CHUNK as int)
}

/// `cells` with the chunk of `slot` replaced by `chunk`.
pub open spec fn with_chunk(cells: Seq<Cell>, slot: int, chunk: Seq<Cell>) -> Seq<Cell> {
    cells.subrange(0, chunk_start(slot)) + chunk
        + cells.subrange(chunk_start(slot) + CELLS_PER_CHUNK as int, cells.len() as int)
}

/// A slot's chunk lies inside a pool of `count` slots.
pub proof fn lemma_chunk_in_bounds(slot: int, count: int)
    requires
        0 <= slot < count,
    ensures
        0 <= chunk_start(slot),
        chunk_start(slot) + CELLS_PER_CHUNK <= count * CELLS_PER_CHUNK,
{
    assert(0 <= slot * 16384 && slot * 16384 + 16384 <= count * 16384) by (nonlinear_arith)
        requires 0 <= slot < count;
}

/// A cell of a slot's chunk lies inside a pool of `count` slots.
pub proof fn lemma_cell_in_bounds(slot: int, cell_index: int, count: int)
    requires
        0 <= slot < count,
        0 <= cell_index < CELLS_PER_CHUNK,
    ensures
        0 <= chunk_start(slot) + cell_index < count * CELLS_PER_CHUNK,
{
    lemma_chunk_in_bounds(slot, count);
}

/// Copies `src[src_start .. src_start + CELLS_PER_CHUNK]` over
/// `dst[dst_start .. dst_start + CELLS_PER_CHUNK]`.
pub fn copy_cells(dst: &mut Vec<Cell>, dst_start: usize, src: &[Cell], src_start: usize)
    requires
        dst_start + CELLS_PER_CHUNK <= old(dst).len(),
        src_start + CELLS_PER_CHUNK <= src@.len(),
    ensures
        final(dst)@ == old(dst)@.subrange(0, dst_start as int)
            + src@.subrange(src_start as int, src_start + CELLS_PER_CHUNK)
            + old(dst)@.subrange(dst_start + CELLS_PER_CHUNK, old(dst)@.len() as int),
{
    let ghost d0 = dst@;
    let n = dst.len();
    let m = src.len();
    let mut k: usize = 0;
    while k < CELLS_PER_CHUNK
        invariant
            0 <= k <= CELLS_PER_CHUNK,
            n == d0.len(),
            m == src@.len(),
            dst_start + CELLS_PER_CHUNK <= d0.len(),
            src_start + CELLS_PER_CHUNK <= src@.len(),
            dst@.len() == d0.len(),
            forall|i: int| 0 <= i < dst_start ==> dst@[i] == d0[i],
            forall|i: int| dst_start + k <= i < d0.len() ==> dst@[i] == d0[i],
            forall|i: int| dst_start <= i < dst_start + k ==> dst@[i] == src@[src_start + (i - dst_start)],
        decreases CELLS_PER_CHUNK - k,
    {
        let c = src[src_start + k];
        dst.set(dst_start + k, c);
        k = k + 1;
    }
    assert(dst@ =~= d0.subrange(0, dst_start as int)
        + src@.subrange(src_start as int, src_start + CELLS_PER_CHUNK)
        + d0.subrange(dst_start + CELLS_PER_CHUNK, d0.len() as int));
}

/// The cells of `new` are those of `old`, except that the chunk of `slot`
/// is all zero cells.
pub open spec fn chunk_zeroed(old: Seq<Cell>, new: Seq<Cell>, slot: int) -> bool {
    &&& new.len() == old.len()
    &&& forall|i: int| #![trigger new[i]] 0 <= i < new.len() ==>
        if chunk_start(slot) <= i < chunk_start(slot) + CELLS_PER_CHUNK {
            new[i].is_zero()
        } else {
            new[i] == old[i]
        }
}

/// Resets `cells[start .. start + CELLS_PER_CHUNK]` to zero cells.
pub fn zero_cells(cells: &mut Vec<Cell>, slot: usize)
    requires
        chunk_start(slot as int) + CELLS_PER_CHUNK <= old(cells)@.len(),
    ensures
        chunk_zeroed(old(cells)@, final(cells)@, slot as int),
{
    let n = cells.len();
    let start = slot * CELLS_PER_CHUNK;
    let ghost d0 = cells@;
    let mut k: usize = 0;
    while k < CELLS_PER_CHUNK
        invariant
            0 <= k <= CELLS_PER_CHUNK,
            n == d0.len(),
            start == chunk_start(slot as int),
            start + CELLS_PER_CHUNK <= d0.len(),
            cells@.len() == d0.len(),
            forall|i: int| 0 <= i < d0.len() && !(start <= i < start + k) ==> cells@[i] == d0[i],
            forall|i: int| start <= i < start + k ==> #[trigger] cells@[i].is_zero(),
        decreases CELLS_PER_CHUNK - k,
    {
        cells.set(start + k, Cell::zeroed());
        k = k + 1;
    }
}

/// Pool of chunks: a flat array of `slot_count × CELLS_PER_CHUNK` cells.
pub struct ChunkPool {
    pub data: Vec<Cell>,
    pub slot_count: usize,
}

impl ChunkPool {
    /// The cell array holds exactly `slot_count` chunks.
    pub open spec fn wf(&self) -> bool {
        &&& self.data@.len() == self.slot_count * CELLS_PER_CHUNK
        &&& self.slot_count * CELLS_PER_CHUNK <= usize::MAX
    }

    /// The cell at `cell_index` of the chunk in `slot`.
    pub open spec fn cell(&self, slot: int, cell_index: int) -> Cell {
        self.data@[chunk_start(slot) + cell_index]
    }

    pub fn new(slot_count: usize) -> (p: Self)
        requires
            slot_count * CELLS_PER_CHUNK <= usize::MAX,
        ensures
            p.wf(),
            p.slot_count == slot_count,
            forall|i: int| 0 <= i < p.data@.len() ==> #[trigger] p.data@[i].is_zero(),
    {
        let total = slot_count * CELLS_PER_CHUNK;
        let data = vec![Cell::zeroed(); total];
        Self { data, slot_count }
    }

    pub fn new_max() -> (p: Self)
        ensures
            p.wf(),
            p.slot_count == POOL_CHUNK_COUNT,
            forall|i: int| 0 <= i < p.data@.len() ==> #[trigger] p.data@[i].is_zero(),
    {
        Self::new(POOL_CHUNK_COUNT)
    }

    pub fn get(&self, slot: usize, cell_index: usize) -> (r: &Cell)
        requires
            self.wf(),
            slot < self.slot_count,
            cell_index < CELLS_PER_CHUNK,
        ensures
            *r == self.cell(slot as int, cell_index as int),
    {
        proof {
            lemma_cell_in_bounds(slot as int, cell_index as int, self.slot_count as int);
        }
        &self.data[slot * CELLS_PER_CHUNK + cell_index]
    }

    pub fn get_mut(&mut self, slot: usize, cell_index: usize) -> (r: &mut Cell)
        requires
            old(self).wf(),
            slot < old(self).slot_count,
            cell_index < CELLS_PER_CHUNK,
        ensures
            *r == old(self).cell(slot as int, cell_index as int),
            final(self).slot_count == old(self).slot_count,
            final(self).data@ == old(self).data@.update(chunk_start(slot as int) + cell_index, *final(r)),
    {
        proof {
            lemma_cell_in_bounds(slot as int, cell_index as int, self.slot_count as int);
        }
        &mut self.data[slot * CELLS_PER_CHUNK + cell_index]
    }

    /// Copies the chunk in `slot` of `src` into the same slot of this pool.
    pub fn copy_chunk_from(&mut self, src: &ChunkPool, slot: usize)
        requires
            old(self).wf(),
            src.wf(),
            slot < old(self).slot_count,
            slot < src.slot_count,
        ensures
            final(self).wf(),
            final(self).slot_count == old(self).slot_count,
            final(self).data@ == with_chunk(old(self).data@, slot as int, chunk_of(src.data@, slot as int)),
    {
        proof {
            lemma_chunk_in_bounds(slot as int, self.slot_count as int);
            lemma_chunk_in_bounds(slot as int, src.slot_count as int);
        }
        let start = slot * CELLS_PER_CHUNK;
        copy_cells(&mut self.data, start, src.data.as_slice(), start);
    }

    /// Copies the chunk in `from_slot` over the chunk in `to_slot`.
    pub fn copy_chunk_within(&mut self, from_slot: usize, to_slot: usize)
        requires
            old(self).wf(),
            from_slot < old(self).slot_count,
            to_slot < old(self).slot_count,
        ensures
            final(self).wf(),
            final(self).slot_count == old(self).slot_count,
            final(self).data@ == with_chunk(old(self).data@, to_slot as int, chunk_of(old(self).data@, from_slot as int)),
    {
        proof {
            lemma_chunk_in_bounds(from_slot as int, self.slot_count as int);
            lemma_chunk_in_bounds(to_slot as int, self.slot_count as int);
        }
        let from_start = from_slot * CELLS_PER_CHUNK;
        let to_start = to_slot * CELLS_PER_CHUNK;
        let mut chunk: Vec<Cell> = Vec::new();
        let mut k: usize = 0;
        while k < CELLS_PER_CHUNK
            invariant
                0 <= k <= CELLS_PER_CHUNK,
                self.wf(),
                from_start + CELLS_PER_CHUNK <= self.data@.len(),
                chunk@ == self.data@.subrange(from_start as int, from_start + k),
            decreases CELLS_PER_CHUNK - k,
        {
            chunk.push(self.data[from_start + k]);
            k = k + 1;
        }
        copy_cells(&mut self.data, to_start, chunk.as_slice(), 0);
        proof {
            assert(chunk@.subrange(0, CELLS_PER_CHUNK as int) =~= chunk@);
        }
    }

    /// Resets every cell of the chunk in `slot` to the zero cell (air).
    pub fn fill_chunk_air(&mut self, slot: usize)
        requires
            old(self).wf(),
            slot < old(self).slot_count,
        ensures
            final(self).wf(),
            final(self).slot_count == old(self).slot_count,
            forall|i: int| 0 <= i < final(self).data@.len() ==>
                if chunk_start(slot as int) <= i < chunk_start(slot as int) + CELLS_PER_CHUNK {
                    #[trigger] final(self).data@[i].is_zero()
                } else {
                    final(self).data@[i] == old(self).data@[i]
                },
    {
        proof {
            lemma_chunk_in_bounds(slot as int, self.slot_count as int);
        }
        let start = slot * CELLS_PER_CHUNK;
        let ghost d0 = self.data@;
        let mut k: usize = 0;
        while k < CELLS_PER_CHUNK
            invariant
                0 <= k <= CELLS_PER_CHUNK,
                start == chunk_start(slot as int),
                start + CELLS_PER_CHUNK <= d0.len(),
                self.data@.len() == d0.len(),
                self.wf(),
                forall|i: int| 0 <= i < d0.len() && !(start <= i < start + k) ==> self.data@[i] == d0[i],
                forall|i: int| start <= i < start + k ==> #[trigger] self.data@[i].is_zero(),
            decreases CELLS_PER_CHUNK - k,
        {
            self.data.set(start + k, Cell::zeroed());
            k = k + 1;
        }
    }

    /// The cells of the chunk in `slot`.
    pub fn chunk_slice(&self, slot: usize) -> (r: &[Cell])
        requires
            self.wf(),
            slot < self.slot_count,
        ensures
            r@ == chunk_of(self.data@, slot as int),
    {
        proof {
            lemma_chunk_in_bounds(slot as int, self.slot_count as int);
        }
        let start = slot * CELLS_PER_CHUNK;
        let end = start + CELLS_PER_CHUNK;
        &self.data.as_slice()[start..end]
    }

    /// The cells of the chunk in `slot`, for writing.
    pub fn chunk_slice_mut(&mut self, slot: usize) -> (r: &mut [Cell])
        requires
            old(self).wf(),
            slot < old(self).slot_count,
        ensures
            r@ == chunk_of(old(self).data@, slot as int),
            final(self).slot_count == old(self).slot_count,
            final(self).data@ == with_chunk(old(self).data@, slot as int, final(r)@),
    {
        proof {
            lemma_chunk_in_bounds(slot as int, self.slot_count as int);
        }
        let start = slot * CELLS_PER_CHUNK;
        let all = self.data.as_mut_slice();
        let (_before, rest) = all.split_at_mut(start);
        let (mid, _after) = rest.split_at_mut(CELLS_PER_CHUNK);
        mid
    }
}

impl Default for ChunkPool {
    fn default() -> (p: Self)
        ensures
            p.wf(),
            p.slot_count == POOL_CHUNK_COUNT,
            forall|i: int| 0 <= i < p.data@.len() ==> #[trigger] p.data@[i].is_zero(),
    {
        Self::new_max()
    }
}

} // verus!
