//! Torus topology of the world: chunk coordinates wrap around in x and z.
use vstd::prelude::*;
use vstd::arithmetic::div_mod::{lemma_fundamental_div_mod, lemma_fundamental_div_mod_converse, lemma_small_mod};
use crate::arith::{div_euclid_i64, rem_euclid_i64};
use super::format::{CHUNK_HEIGHT, CHUNK_SIDE, WINDOW_SIDE, spec_cell_local};

verus! {

/// The torus: `chunks_x × chunks_z` chunks, with the block origin of chunk
/// (0, 0) at `(min_block_x, min_block_z)`.
#[derive(Clone, Debug)]
pub struct TorusTopology {
    pub chunks_x: u64,
    pub chunks_z: u64,
    pub min_block_x: i64,
    pub min_block_z: i64,
}

/// Index of the cell at local coordinates `(x, y, z)` inside a chunk.
pub open spec fn spec_cell_index(local_x: int, local_y: int, local_z: int) -> int {
    (local_z * CHUNK_SIDE as int + local_x) * CHUNK_HEIGHT as int + local_y
}

impl TorusTopology {
    /// Both sides of the torus hold at least one chunk, and the chunk counts
    /// fit the signed chunk coordinates (`i64`) that the world is addressed
    /// with and the `usize` that wrapped coordinates are returned in.
    pub open spec fn valid(&self) -> bool {
        &&& 0 < self.chunks_x <= i64::MAX
        &&& 0 < self.chunks_z <= i64::MAX
        &&& self.chunks_x <= usize::MAX
        &&& self.chunks_z <= usize::MAX
    }

    /// A chunk coordinate wrapped onto the torus in x.
    pub open spec fn wrap_chunk_x(&self, grid_x: int) -> int {
        grid_x % (self.chunks_x as int)
    }

    /// A chunk coordinate wrapped onto the torus in z.
    pub open spec fn wrap_chunk_z(&self, grid_z: int) -> int {
        grid_z % (self.chunks_z as int)
    }

    pub fn new(chunks_x: u64, chunks_z: u64) -> (t: Self)
        ensures
            t.chunks_x == chunks_x,
            t.chunks_z == chunks_z,
            t.min_block_x == 0,
            t.min_block_z == 0,
    {
        Self { chunks_x, chunks_z, min_block_x: 0, min_block_z: 0 }
    }

    pub fn with_offset(self, min_block_x: i64, min_block_z: i64) -> (t: Self)
        ensures
            t.chunks_x == self.chunks_x,
            t.chunks_z == self.chunks_z,
            t.min_block_x == min_block_x,
            t.min_block_z == min_block_z,
    {
        let mut s = self;
        s.min_block_x = min_block_x;
        s.min_block_z = min_block_z;
        s
    }

    /// Wraps a chunk coordinate onto the torus.
    pub fn normalize_chunk(&self, grid_x: i64, grid_z: i64) -> (r: (usize, usize))
        requires
            self.valid(),
        ensures
            r.0 == self.wrap_chunk_x(grid_x as int),
            r.1 == self.wrap_chunk_z(grid_z as int),
            r.0 < self.chunks_x,
            r.1 < self.chunks_z,
    {
        let cx = rem_euclid_i64(grid_x, self.chunks_x as i64);
        let cz = rem_euclid_i64(grid_z, self.chunks_z as i64);
        (cx as usize, cz as usize)
    }

    /// Wraps a block coordinate onto the torus.  Returns
    /// `(chunk_x, chunk_z, local_x, local_y, local_z)`, or `None` when `y` is
    /// outside `0 .. CHUNK_HEIGHT`.
    pub fn normalize_block(&self, x: i64, y: i64, z: i64) -> (r: Option<(usize, usize, usize, usize, usize)>)
        requires
            self.valid(),
            i64::MIN <= x - self.min_block_x <= i64::MAX,
            i64::MIN <= z - self.min_block_z <= i64::MAX,
        ensures
            (y < 0 || y >= CHUNK_HEIGHT) <==> r is None,
            r matches Some(t) ==> {
                let rel_x = x - self.min_block_x;
                let rel_z = z - self.min_block_z;
                &&& t.0 == self.wrap_chunk_x(rel_x / CHUNK_SIDE as int)
                &&& t.1 == self.wrap_chunk_z(rel_z / CHUNK_SIDE as int)
                &&& t.2 == rel_x % CHUNK_SIDE as int
                &&& t.3 == y
                &&& t.4 == rel_z % CHUNK_SIDE as int
                &&& t.0 < self.chunks_x && t.1 < self.chunks_z
                &&& t.2 < CHUNK_SIDE && t.3 < CHUNK_HEIGHT && t.4 < CHUNK_SIDE
            },
    {
        if y < 0 || y >= CHUNK_HEIGHT as i64 {
            return None;
        }
        let rel_x = x - self.min_block_x;
        let rel_z = z - self.min_block_z;

        let chunk_x = div_euclid_i64(rel_x, CHUNK_SIDE as i64);
        let chunk_z = div_euclid_i64(rel_z, CHUNK_SIDE as i64);

        let local_x = rem_euclid_i64(rel_x, CHUNK_SIDE as i64) as usize;
        let local_z = rem_euclid_i64(rel_z, CHUNK_SIDE as i64) as usize;
        let local_y = y as usize;

        let (cx, cz) = self.normalize_chunk(chunk_x, chunk_z);

        Some((cx, cz, local_x, local_y, local_z))
    }

    /// Index of a cell inside a chunk.
    pub fn cell_index(&self, local_x: usize, local_y: usize, local_z: usize) -> (r: usize)
        requires
            spec_cell_index(local_x as int, local_y as int, local_z as int) <= usize::MAX,
        ensures
            r == spec_cell_index(local_x as int, local_y as int, local_z as int),
    {
        assert(0 <= local_z * CHUNK_SIDE + local_x <= (local_z * CHUNK_SIDE + local_x) * CHUNK_HEIGHT) by (nonlinear_arith);
        (local_z * CHUNK_SIDE + local_x) * CHUNK_HEIGHT + local_y
    }

    /// Inverse of `cell_index`: cell index to local coordinates `(x, y, z)`.
    pub fn cell_index_to_local(&self, cell_index: usize) -> (r: (usize, usize, usize))
        ensures
            r.0 == spec_cell_local(cell_index as int).0,
            r.1 == spec_cell_local(cell_index as int).1,
            r.2 == spec_cell_local(cell_index as int).2,
    {
        let local_y = cell_index % CHUNK_HEIGHT;
        let local_x = (cell_index / CHUNK_HEIGHT) % CHUNK_SIDE;
        let local_z = cell_index / (CHUNK_HEIGHT * CHUNK_SIDE);
        (local_x, local_y, local_z)
    }

    /// World block coordinates of the origin of a chunk.
    pub fn chunk_to_world(&self, chunk_x: usize, chunk_z: usize) -> (r: (i64, i64))
        requires
            chunk_x * CHUNK_SIDE <= usize::MAX,
            chunk_z * CHUNK_SIDE <= usize::MAX,
            i64::MIN <= ((chunk_x * CHUNK_SIDE) as i64) + self.min_block_x <= i64::MAX,
            i64::MIN <= ((chunk_z * CHUNK_SIDE) as i64) + self.min_block_z <= i64::MAX,
        ensures
            r.0 == ((chunk_x * CHUNK_SIDE) as i64) + self.min_block_x,
            r.1 == ((chunk_z * CHUNK_SIDE) as i64) + self.min_block_z,
    {
        let world_x = (chunk_x * CHUNK_SIDE) as i64 + self.min_block_x;
        let world_z = (chunk_z * CHUNK_SIDE) as i64 + self.min_block_z;
        (world_x, world_z)
    }

    /// Slot index of a chunk in the active window whose corner is
    /// `(window_min_x, window_min_z)`; the offset from the corner is taken
    /// around the torus.  `None` when the chunk is outside the window.
    pub fn slot_index_in_window(
        &self,
        chunk_x: usize,
        chunk_z: usize,
        window_min_x: i64,
        window_min_z: i64,
    ) -> (r: Option<usize>)
        requires
            self.valid(),
            i64::MIN <= (chunk_x as i64) - window_min_x <= i64::MAX,
            i64::MIN <= (chunk_z as i64) - window_min_z <= i64::MAX,
        ensures
            ({
                let dx = self.wrap_chunk_x((chunk_x as i64) - window_min_x);
                let dz = self.wrap_chunk_z((chunk_z as i64) - window_min_z);
                &&& (dx < WINDOW_SIDE && dz < WINDOW_SIDE) <==> r is Some
                &&& r matches Some(s) ==> s == dz * WINDOW_SIDE + dx
            }),
            r matches Some(s) ==> s < WINDOW_SIDE * WINDOW_SIDE,
    {
        let dx = rem_euclid_i64(chunk_x as i64 - window_min_x, self.chunks_x as i64);
        let dz = rem_euclid_i64(chunk_z as i64 - window_min_z, self.chunks_z as i64);

        if dx >= WINDOW_SIDE as i64 || dz >= WINDOW_SIDE as i64 {
            return None;
        }

        Some((dz as usize) * WINDOW_SIDE + (dx as usize))
    }
}

/// `cell_index_to_local` undoes `cell_index` on the cells of a chunk, and
/// `cell_index` maps those cells onto `0 .. CELLS_PER_CHUNK`.
pub proof fn lemma_cell_index_roundtrip(local_x: int, local_y: int, local_z: int)
    requires
        0 <= local_x < CHUNK_SIDE,
        0 <= local_y < CHUNK_HEIGHT,
        0 <= local_z < CHUNK_SIDE,
    ensures
        0 <= spec_cell_index(local_x, local_y, local_z) < CHUNK_SIDE * CHUNK_HEIGHT * CHUNK_SIDE,
        spec_cell_local(spec_cell_index(local_x, local_y, local_z))
            == (local_x, local_y, local_z),
{
    let c = spec_cell_index(local_x, local_y, local_z);
    let col = local_z * 16 + local_x;
    assert(c == col * 64 + local_y);
    lemma_fundamental_div_mod_converse(c, 64, col, local_y);
    lemma_fundamental_div_mod_converse(col, 16, local_z, local_x);
    assert(c == local_z * 1024 + (local_x * 64 + local_y)) by (nonlinear_arith)
        requires c == (local_z * 16 + local_x) * 64 + local_y;
    assert(0 <= local_x * 64 + local_y < 1024) by (nonlinear_arith)
        requires 0 <= local_x < 16, 0 <= local_y < 64;
    lemma_fundamental_div_mod_converse(c, 1024, local_z, local_x * 64 + local_y);
    assert(0 <= c < 16384) by (nonlinear_arith)
        requires c == local_z * 1024 + (local_x * 64 + local_y), 0 <= local_z < 16,
            0 <= local_x * 64 + local_y < 1024;
}

/// `cell_index` undoes `cell_index_to_local` on the indices of a chunk.
pub proof fn lemma_cell_local_roundtrip(cell_index: int)
    requires
        0 <= cell_index < CHUNK_SIDE * CHUNK_HEIGHT * CHUNK_SIDE,
    ensures
        ({
            let (x, y, z) = spec_cell_local(cell_index);
            &&& 0 <= x < CHUNK_SIDE && 0 <= y < CHUNK_HEIGHT && 0 <= z < CHUNK_SIDE
            &&& spec_cell_index(x, y, z) == cell_index
        }),
{
    let c = cell_index;
    let col = c / 64;
    lemma_fundamental_div_mod(c, 64);
    lemma_fundamental_div_mod(col, 16);
    assert(0 <= col < 256) by (nonlinear_arith) requires col == c / 64, 0 <= c < 16384;
    let z = col / 16;
    let x = col % 16;
    let y = c % 64;
    assert(c / 1024 == z) by {
        assert(c == z * 1024 + (x * 64 + y)) by (nonlinear_arith)
            requires c == 64 * col + y, col == 16 * z + x;
        assert(0 <= x * 64 + y < 1024) by (nonlinear_arith)
            requires 0 <= x < 16, 0 <= y < 64;
        lemma_fundamental_div_mod_converse(c, 1024, z, x * 64 + y);
    }
    assert(0 <= z < 16) by (nonlinear_arith) requires z == col / 16, 0 <= col < 256;
    assert(spec_cell_index(x, y, z) == c) by (nonlinear_arith)
        requires c == 64 * col + y, col == 16 * z + x;
}

/// A block at local offset `(local_x, local_z)` from the world origin of
/// chunk `(chunk_x, chunk_z)` (what `chunk_to_world` gives) wraps back onto
/// that chunk at that local offset (what `normalize_block` computes).
pub proof fn lemma_chunk_to_world_normalizes_back(
    t: TorusTopology,
    chunk_x: usize,
    chunk_z: usize,
    local_x: int,
    local_z: int,
    world_x: int,
    world_z: int,
)
    requires
        t.valid(),
        chunk_x < t.chunks_x,
        chunk_z < t.chunks_z,
        0 <= local_x < CHUNK_SIDE,
        0 <= local_z < CHUNK_SIDE,
        chunk_x * CHUNK_SIDE <= i64::MAX,
        chunk_z * CHUNK_SIDE <= i64::MAX,
        world_x == ((chunk_x * CHUNK_SIDE) as i64) + t.min_block_x,
        world_z == ((chunk_z * CHUNK_SIDE) as i64) + t.min_block_z,
    ensures
        t.wrap_chunk_x((world_x + local_x - t.min_block_x) / CHUNK_SIDE as int) == chunk_x,
        t.wrap_chunk_z((world_z + local_z - t.min_block_z) / CHUNK_SIDE as int) == chunk_z,
        (world_x + local_x - t.min_block_x) % CHUNK_SIDE as int == local_x,
        (world_z + local_z - t.min_block_z) % CHUNK_SIDE as int == local_z,
{
    let rel_x = world_x + local_x - t.min_block_x;
    let rel_z = world_z + local_z - t.min_block_z;
    assert(rel_x == chunk_x * CHUNK_SIDE + local_x);
    assert(rel_z == chunk_z * CHUNK_SIDE + local_z);
    lemma_fundamental_div_mod_converse(rel_x, CHUNK_SIDE as int, chunk_x as int, local_x);
    lemma_fundamental_div_mod_converse(rel_z, CHUNK_SIDE as int, chunk_z as int, local_z);
    lemma_small_mod(chunk_x as nat, t.chunks_x as nat);
    lemma_small_mod(chunk_z as nat, t.chunks_z as nat);
}

/// Wrapping onto the torus is periodic: moving by a whole number of laps
/// around the torus lands on the same chunk.
pub proof fn lemma_normalize_chunk_periodic(t: TorusTopology, grid_x: int, grid_z: int, laps_x: int, laps_z: int)
    requires
        t.valid(),
    ensures
        t.wrap_chunk_x(grid_x + laps_x * t.chunks_x) == t.wrap_chunk_x(grid_x),
        t.wrap_chunk_z(grid_z + laps_z * t.chunks_z) == t.wrap_chunk_z(grid_z),
{
    let n = t.chunks_x as int;
    lemma_fundamental_div_mod(grid_x, n);
    assert(grid_x + laps_x * n == (grid_x / n + laps_x) * n + grid_x % n) by (nonlinear_arith)
        requires grid_x == n * (grid_x / n) + grid_x % n;
    lemma_fundamental_div_mod_converse(grid_x + laps_x * n, n, grid_x / n + laps_x, grid_x % n);
    let m = t.chunks_z as int;
    lemma_fundamental_div_mod(grid_z, m);
    assert(grid_z + laps_z * m == (grid_z / m + laps_z) * m + grid_z % m) by (nonlinear_arith)
        requires grid_z == m * (grid_z / m) + grid_z % m;
    lemma_fundamental_div_mod_converse(grid_z + laps_z * m, m, grid_z / m + laps_z, grid_z % m);
}

/// The window slot of a chunk depends on the chunk and the window corner
/// only through their places on the torus: moving either by whole laps
/// around the torus leaves the chunk's offsets from the corner unchanged.
pub proof fn lemma_window_offset_periodic(
    t: TorusTopology,
    chunk_x: int,
    chunk_z: int,
    window_min_x: int,
    window_min_z: int,
    laps_x: int,
    laps_z: int,
)
    requires
        t.valid(),
    ensures
        t.wrap_chunk_x((chunk_x + laps_x * t.chunks_x) - window_min_x) == t.wrap_chunk_x(chunk_x - window_min_x),
        t.wrap_chunk_z((chunk_z + laps_z * t.chunks_z) - window_min_z) == t.wrap_chunk_z(chunk_z - window_min_z),
        t.wrap_chunk_x(chunk_x - (window_min_x + laps_x * t.chunks_x)) == t.wrap_chunk_x(chunk_x - window_min_x),
        t.wrap_chunk_z(chunk_z - (window_min_z + laps_z * t.chunks_z)) == t.wrap_chunk_z(chunk_z - window_min_z),
{
    lemma_normalize_chunk_periodic(t, chunk_x - window_min_x, chunk_z - window_min_z, laps_x, laps_z);
    assert((chunk_x + laps_x * t.chunks_x) - window_min_x == (chunk_x - window_min_x) + laps_x * t.chunks_x);
    assert((chunk_z + laps_z * t.chunks_z) - window_min_z == (chunk_z - window_min_z) + laps_z * t.chunks_z);
    lemma_normalize_chunk_periodic(t, chunk_x - window_min_x, chunk_z - window_min_z, -laps_x, -laps_z);
    assert(chunk_x - (window_min_x + laps_x * t.chunks_x) == (chunk_x - window_min_x) + (-laps_x) * t.chunks_x) by (nonlinear_arith);
    assert(chunk_z - (window_min_z + laps_z * t.chunks_z) == (chunk_z - window_min_z) + (-laps_z) * t.chunks_z) by (nonlinear_arith);
}

} // verus!
