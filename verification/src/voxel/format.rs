//! Cell layout and the chunk / window / subchunk dimensions.
use vstd::prelude::*;

verus! {

/// Horizontal side of a chunk, in cells.
pub const CHUNK_SIDE: usize = 16;

/// Material id used for blocks outside the world.
pub const MATERIAL_OUT_OF_WORLD: u16 = 65535;

/// Side of the pool, in chunks (32 × 32 = 1024).
pub const POOL_SIDE: usize = 32;

/// Height of a chunk, in cells.
pub const CHUNK_HEIGHT: usize = 64;

/// Number of cells in one chunk.
pub const CELLS_PER_CHUNK: usize = 16384;

/// Side of the active window, in chunks.
pub const WINDOW_SIDE: usize = 16;

/// Number of chunks in the active window.
pub const WINDOW_CHUNK_COUNT: usize = 256;

/// Number of chunk slots in a pool.
pub const POOL_CHUNK_COUNT: usize = 1024;

/// Material id of air (same as `materials::ids::AIR`).
pub const MATERIAL_AIR: u16 = 0;

/// Material id of water (same as `materials::ids::WATER`).
pub const MATERIAL_WATER: u16 = 5;

/// Horizontal side of a render subchunk, in cells.
pub const SUBCHUNK_SIDE: usize = 16;

/// Height of a render subchunk, in cells.
pub const SUBCHUNK_HEIGHT: usize = 16;

/// Subchunks along x in one chunk.
pub const SUBCHUNKS_X: usize = 1;

/// Subchunks along y in one chunk.
pub const SUBCHUNKS_Y: usize = 4;

/// Subchunks along z in one chunk.
pub const SUBCHUNKS_Z: usize = 1;

/// Subchunks in one chunk.
pub const SUBCHUNKS_PER_CHUNK: usize = 4;

/// Cells in one subchunk.
pub const CELLS_PER_SUBCHUNK: usize = 4096;

/// The dimension constants are consistent with each other.
pub proof fn lemma_dimensions()
    ensures
        CELLS_PER_CHUNK == CHUNK_SIDE * CHUNK_HEIGHT * CHUNK_SIDE,
        WINDOW_CHUNK_COUNT == WINDOW_SIDE * WINDOW_SIDE,
        POOL_CHUNK_COUNT == POOL_SIDE * POOL_SIDE,
        SUBCHUNKS_X == CHUNK_SIDE / SUBCHUNK_SIDE,
        SUBCHUNKS_Y == CHUNK_HEIGHT / SUBCHUNK_HEIGHT,
        SUBCHUNKS_Z == CHUNK_SIDE / SUBCHUNK_SIDE,
        SUBCHUNKS_PER_CHUNK == SUBCHUNKS_X * SUBCHUNKS_Y * SUBCHUNKS_Z,
        CELLS_PER_SUBCHUNK == SUBCHUNK_SIDE * SUBCHUNK_HEIGHT * SUBCHUNK_SIDE,
{
}

/// Index of the subchunk that holds the cell at local coordinates
/// `(local_x, local_y, local_z)` of a chunk.
pub open spec fn spec_subchunk_index(local_x: int, local_y: int, local_z: int) -> int {
    ((local_z / SUBCHUNK_SIDE as int) * SUBCHUNKS_Y as int + local_y / SUBCHUNK_HEIGHT as int)
        * SUBCHUNKS_X as int + local_x / SUBCHUNK_SIDE as int
}

/// Local coordinates `(x, y, z)` of the cell with the given index in a chunk:
/// cells are laid out column by column, `y` fastest, then `x`, then `z`.
pub open spec fn spec_cell_local(cell_index: int) -> (int, int, int) {
    (
        (cell_index / CHUNK_HEIGHT as int) % CHUNK_SIDE as int,
        cell_index % CHUNK_HEIGHT as int,
        cell_index / (CHUNK_HEIGHT as int * CHUNK_SIDE as int),
    )
}

/// Index of the render subchunk that holds the cell at the given local coordinates.
pub fn subchunk_index(local_x: usize, local_y: usize, local_z: usize) -> (r: usize)
    ensures
        r == spec_subchunk_index(local_x as int, local_y as int, local_z as int),
        local_x < CHUNK_SIDE && local_y < CHUNK_HEIGHT && local_z < CHUNK_SIDE
            ==> r < SUBCHUNKS_PER_CHUNK,
{
    let sub_x = local_x / SUBCHUNK_SIDE;
    let sub_y = local_y / SUBCHUNK_HEIGHT;
    let sub_z = local_z / SUBCHUNK_SIDE;
    (sub_z * SUBCHUNKS_Y + sub_y) * SUBCHUNKS_X + sub_x
}

/// Index of the render subchunk that holds the cell with the given index.
pub fn subchunk_index_from_cell(cell_index: usize) -> (r: usize)
    ensures
        r == spec_subchunk_index(
            spec_cell_local(cell_index as int).0,
            spec_cell_local(cell_index as int).1,
            spec_cell_local(cell_index as int).2,
        ),
        cell_index < CELLS_PER_CHUNK ==> r < SUBCHUNKS_PER_CHUNK,
{
    let local_y = cell_index % CHUNK_HEIGHT;
    let local_x = (cell_index / CHUNK_HEIGHT) % CHUNK_SIDE;
    let local_z = cell_index / (CHUNK_HEIGHT * CHUNK_SIDE);
    if cell_index < CELLS_PER_CHUNK {
        assert(local_z < CHUNK_SIDE) by (nonlinear_arith)
            requires local_z == cell_index / 1024, cell_index < 16384;
    }
    subchunk_index(local_x, local_y, local_z)
}

/// The mask with one bit set for each subchunk of a chunk (bits
/// `0 .. SUBCHUNKS_PER_CHUNK`).
pub fn all_subchunks_mask() -> (r: u64)
    ensures
        r == 0xF,
        forall|i: u64| i < 64 ==> (((r >> i) & 1 == 1) <==> i < SUBCHUNKS_PER_CHUNK),
{
    let r = if SUBCHUNKS_PER_CHUNK >= 64 {
        u64::MAX
    } else {
        assert((1u64 << 4usize) == 16u64) by (bit_vector);
        (1u64 << SUBCHUNKS_PER_CHUNK) - 1
    };
    assert(forall|i: u64| i < 64 ==> (((0xFu64 >> i) & 1 == 1) <==> i < 4)) by (bit_vector);
    r
}

/// One voxel cell: material, phase, liquid, temperature, chemistry,
/// velocity, pressure and reserved bytes (64 bytes in the file).
#[derive(Clone, Copy, PartialEq, Debug)]
pub struct Cell {
    pub material_id: u16,
    pub phase_state: u8,
    pub liquid_level: u8,
    pub temperature: i16,
    pub chemical_mask: u16,
    pub vel_x: i16,
    pub vel_y: i16,
    pub vel_z: i16,
    pub _padding_vel: i16,
    pub pressure: i32,
    pub excess_level: i32,
    pub reserved_future: [u8; 40],
}

impl Cell {
    /// Every field of the cell is zero (the cell is air at rest).
    pub open spec fn is_zero(self) -> bool {
        &&& self.material_id == 0
        &&& self.phase_state == 0
        &&& self.liquid_level == 0
        &&& self.temperature == 0
        &&& self.chemical_mask == 0
        &&& self.vel_x == 0
        &&& self.vel_y == 0
        &&& self.vel_z == 0
        &&& self._padding_vel == 0
        &&& self.pressure == 0
        &&& self.excess_level == 0
        &&& forall|i: int| 0 <= i < 40 ==> self.reserved_future@[i] == 0
    }

    /// The all-zero cell.
    pub fn zeroed() -> (c: Cell)
        ensures
            c.is_zero(),
    {
        Cell {
            material_id: 0,
            phase_state: 0,
            liquid_level: 0,
            temperature: 0,
            chemical_mask: 0,
            vel_x: 0,
            vel_y: 0,
            vel_z: 0,
            _padding_vel: 0,
            pressure: 0,
            excess_level: 0,
            reserved_future: [0u8; 40],
        }
    }
}

} // verus!
